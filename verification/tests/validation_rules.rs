//! Validation of the Manual-mode tables. The floating-point facts (positive
//! spacings, winding of a chain) are measured here as the front end does.

use meshgen::state::{EasyMeshState, EdgeRow, NodeRow, PointRow, SegmentRow, StructuredState};
use meshgen::validation::{
    marker_chains, validate_easymesh, validate_structured, winding_nodes, FieldId, ValidationResult,
};

fn positive_finite(s: &str) -> bool {
    matches!(s.trim().parse::<f64>(), Ok(v) if v.is_finite() && v > 0.0)
}

fn positive(s: &str) -> bool {
    matches!(s.trim().parse::<f64>(), Ok(v) if v > 0.0)
}

fn winding_is_clockwise(pts: &[(f64, f64)]) -> Option<bool> {
    if pts.len() < 3 {
        return None;
    }
    let n = pts.len();
    let area2: f64 = (0..n)
        .map(|i| {
            let j = (i + 1) % n;
            pts[i].0 * pts[j].1 - pts[j].0 * pts[i].1
        })
        .sum();
    Some(area2 < 0.0)
}

fn coords(x: &str, y: &str) -> Option<(f64, f64)> {
    Some((x.trim().parse().ok()?, y.trim().parse().ok()?))
}

fn numeric(t: &str) -> bool {
    t.trim().parse::<f64>().is_ok()
}

fn check_structured(s: &StructuredState) -> ValidationResult {
    let pts: Vec<(f64, f64)> = winding_nodes(s)
        .iter()
        .filter_map(|&i| coords(&s.nodes[i].x, &s.nodes[i].y))
        .collect();
    let coords_ok: Vec<(bool, bool)> = s.nodes.iter().map(|n| (numeric(&n.x), numeric(&n.y))).collect();
    validate_structured(s, positive_finite(&s.dx), positive_finite(&s.dy), &coords_ok, winding_is_clockwise(&pts))
}

fn check_easymesh(s: &EasyMeshState) -> ValidationResult {
    let spacing_ok: Vec<bool> = s.points.iter().map(|p| positive(&p.spacing)).collect();
    let (outer, holes) = marker_chains(s);
    let outer_pts: Vec<(f64, f64)> =
        outer.iter().filter_map(|&i| coords(&s.points[i].x, &s.points[i].y)).collect();
    let hole_pts: Vec<(f64, f64)> =
        holes.iter().filter_map(|&i| coords(&s.points[i].x, &s.points[i].y)).collect();
    let coords_ok: Vec<(bool, bool)> = s.points.iter().map(|p| (numeric(&p.x), numeric(&p.y))).collect();
    validate_easymesh(s, &coords_ok, &spacing_ok, winding_is_clockwise(&outer_pts), winding_is_clockwise(&hole_pts))
}

fn node(x: &str, y: &str) -> NodeRow {
    NodeRow { x: x.to_string(), y: y.to_string() }
}

fn edge(s: &str, e: &str, t: &str) -> EdgeRow {
    EdgeRow { start: s.to_string(), end: e.to_string(), tag: t.to_string() }
}

fn square_state(nodes: Vec<NodeRow>) -> StructuredState {
    let mut s = StructuredState::default();
    s.dx = "0.1".to_string();
    s.dy = "0.1".to_string();
    s.nodes = nodes;
    s.edges = vec![edge("1", "2", "1"), edge("2", "3", "1"), edge("3", "4", "1"), edge("4", "1", "1")];
    s
}

// --- Structured ---

#[test]
fn validation_errors_for_blank_dx_dy() {
    let s = StructuredState::default();
    let result = check_structured(&s);
    let fields: Vec<_> = result.errors.iter().map(|e| &e.field).collect();
    assert!(fields.contains(&&FieldId::Dx), "expected Dx error");
    assert!(fields.contains(&&FieldId::Dy), "expected Dy error");
}

#[test]
fn validation_passes_for_unit_square() {
    let s = square_state(vec![node("0.0", "0.0"), node("1.0", "0.0"), node("1.0", "1.0"), node("0.0", "1.0")]);
    let result = check_structured(&s);
    assert!(result.errors.is_empty(), "expected no errors: {:?}", result.errors);
    assert!(result.is_valid());
    assert!(result.warnings.is_empty());
}

#[test]
fn validation_edge_out_of_range() {
    let mut s = StructuredState::default();
    s.dx = "0.1".to_string();
    s.dy = "0.1".to_string();
    s.nodes = vec![NodeRow::default()];
    s.edges = vec![edge("1", "99", "1")];
    let result = check_structured(&s);
    assert!(result.errors.iter().any(|e| e.field == FieldId::EdgeEnd(0)), "expected EdgeEnd(0) error");
}

#[test]
fn validation_edge_tag_zero_is_error() {
    let mut s = StructuredState::default();
    s.dx = "0.1".to_string();
    s.dy = "0.1".to_string();
    s.nodes = vec![node("0.0", "0.0"), node("1.0", "0.0")];
    s.edges = vec![edge("1", "2", "0")];
    let result = check_structured(&s);
    assert!(result.errors.iter().any(|e| e.field == FieldId::EdgeTag(0)), "expected EdgeTag(0) error");
}

#[test]
fn validation_winding_warning_for_cw_polygon() {
    let s = square_state(vec![node("0.0", "0.0"), node("0.0", "1.0"), node("1.0", "1.0"), node("1.0", "0.0")]);
    let result = check_structured(&s);
    assert!(!result.warnings.is_empty(), "expected a CW winding warning");
    assert!(result.warnings[0].contains("clockwise"), "warning should mention clockwise: {}", result.warnings[0]);
}

#[test]
fn structured_errors_exact_order_and_messages() {
    let mut s = StructuredState::default();
    s.dx = "abc".to_string();
    s.dy = " 0.5 ".to_string();
    s.nodes = vec![node("0", "0"), node("1", "0")];
    s.edges = vec![edge(" 2 ", "0", "x"), edge("+1", "3", "7")];
    let r = check_structured(&s);
    let got: Vec<(FieldId, String)> = r.errors.iter().map(|e| (e.field, e.message.clone())).collect();
    assert_eq!(
        got,
        vec![
            (FieldId::Dx, "dx and dy must be positive and non-zero".to_string()),
            (FieldId::EdgeEnd(0), "Node index out of range".to_string()),
            (FieldId::EdgeTag(0), "Region tag must be ≥ 1".to_string()),
            (FieldId::EdgeEnd(1), "Node index out of range".to_string()),
        ]
    );
    assert!(!r.is_valid());
}

#[test]
fn winding_needs_three_edges() {
    let mut s = square_state(vec![node("0.0", "0.0"), node("0.0", "1.0"), node("1.0", "1.0"), node("1.0", "0.0")]);
    s.edges.truncate(2);
    let ok = vec![(true, true); s.nodes.len()];
    let r = validate_structured(&s, true, true, &ok, Some(true));
    assert!(r.warnings.is_empty());
}

#[test]
fn winding_nodes_skip_bad_starts() {
    let mut s = square_state(vec![node("0", "0"), node("1", "0"), node("1", "1")]);
    s.edges = vec![edge("2", "1", "1"), edge("0", "1", "1"), edge("x", "1", "1"), edge("9", "1", "1"), edge("3", "1", "1")];
    assert_eq!(winding_nodes(&s), vec![1, 2]);
}

// --- EasyMesh ---

fn pt(x: &str, y: &str, sp: &str, m: &str) -> PointRow {
    PointRow { x: x.to_string(), y: y.to_string(), spacing: sp.to_string(), marker: m.to_string() }
}

#[test]
fn validation_error_for_zero_spacing() {
    let mut s = EasyMeshState::default();
    s.points.push(pt("0.0", "0.0", "0.0", "1"));
    let result = check_easymesh(&s);
    assert!(result.errors.iter().any(|e| e.field == FieldId::PointSpacing(0)), "expected PointSpacing(0) error");
}

#[test]
fn validation_error_for_negative_spacing() {
    let mut s = EasyMeshState::default();
    s.points.push(pt("1.0", "0.0", "-0.1", "1"));
    let result = check_easymesh(&s);
    assert!(
        result.errors.iter().any(|e| e.field == FieldId::PointSpacing(0)),
        "expected PointSpacing(0) error for negative spacing"
    );
}

#[test]
fn validation_warning_for_marker_zero() {
    let mut s = EasyMeshState::default();
    s.points.push(pt("0.0", "0.0", "0.25", "0"));
    let result = check_easymesh(&s);
    assert!(!result.warnings.is_empty(), "expected a warning for marker = 0");
}

#[test]
fn validation_error_for_segment_start_out_of_range() {
    let mut s = EasyMeshState::default();
    s.points.push(PointRow::default());
    s.segments.push(SegmentRow { start: "5".to_string(), end: "0".to_string(), marker: "1".to_string() });
    let result = check_easymesh(&s);
    assert!(result.errors.iter().any(|e| e.field == FieldId::SegmentStart(0)), "expected SegmentStart(0) error");
}

#[test]
fn validation_error_for_segment_end_out_of_range() {
    let mut s = EasyMeshState::default();
    s.points.push(PointRow::default());
    s.segments.push(SegmentRow { start: "0".to_string(), end: "99".to_string(), marker: "1".to_string() });
    let result = check_easymesh(&s);
    assert!(result.errors.iter().any(|e| e.field == FieldId::SegmentEnd(0)), "expected SegmentEnd(0) error");
}

#[test]
fn validation_winding_warning_for_cw_outer_boundary() {
    let mut s = EasyMeshState::default();
    for (x, y) in &[("0.0", "0.0"), ("0.0", "1.0"), ("1.0", "1.0"), ("1.0", "0.0")] {
        s.points.push(pt(x, y, "0.25", "1"));
    }
    let result = check_easymesh(&s);
    let cw_warn = result.warnings.iter().any(|w| w.contains("clockwise"));
    assert!(cw_warn, "expected a clockwise winding warning; got: {:?}", result.warnings);
}

#[test]
fn validation_passes_for_valid_ccw_polygon() {
    let mut s = EasyMeshState::default();
    for (x, y) in &[("0.0", "0.0"), ("1.0", "0.0"), ("1.0", "1.0"), ("0.0", "1.0")] {
        s.points.push(pt(x, y, "0.25", "1"));
    }
    for (st, en) in &[(0usize, 1usize), (1, 2), (2, 3), (3, 0)] {
        s.segments.push(SegmentRow { start: st.to_string(), end: en.to_string(), marker: "1".to_string() });
    }
    let result = check_easymesh(&s);
    assert!(result.errors.is_empty(), "expected no errors: {:?}", result.errors);
}

#[test]
fn easymesh_warnings_in_order() {
    let mut s = EasyMeshState::default();
    s.points = vec![pt("0", "0", "1", "0"), pt("1", "0", "1", "1"), pt("1", "1", "1", "-2")];
    s.segments = vec![SegmentRow { start: "0".to_string(), end: "-1".to_string(), marker: "0".to_string() }];
    let r = validate_easymesh(&s, &vec![(true, true); 3], &vec![true, true, true], Some(true), Some(false));
    assert_eq!(
        r.warnings,
        vec![
            "Boundary markers must be > 0; use 0 only for interior refinement chains".to_string(),
            "Boundary markers must be > 0; use 0 only for interior refinement chains".to_string(),
            "Boundary markers must be > 0; use 0 only for interior refinement chains".to_string(),
            "Outer boundary chain should be counter-clockwise; current winding is clockwise.".to_string(),
            "Hole chains should be clockwise; current winding is counter-clockwise.".to_string(),
        ]
    );
    assert_eq!(r.errors.len(), 1);
    assert_eq!(r.errors[0].field, FieldId::SegmentEnd(0));
    assert_eq!(r.errors[0].message, "Point index out of range");
}

#[test]
fn marker_chains_split_outer_and_holes() {
    let mut s = EasyMeshState::default();
    s.points = vec![pt("0", "0", "1", "1"), pt("0", "0", "1", "0"), pt("0", "0", "1", "x"), pt("0", "0", "1", "-1"), pt("0", "0", "1", " 0 ")];
    let (outer, holes) = marker_chains(&s);
    assert_eq!(outer, vec![0, 2]);
    assert_eq!(holes, vec![1, 4]);
}

#[test]
fn new_result_is_valid() {
    let r = ValidationResult::new();
    assert!(r.is_valid());
    assert!(r.errors.is_empty() && r.warnings.is_empty());
}

#[test]
fn unreadable_node_coordinate_is_an_error() {
    let mut s = StructuredState::default();
    s.dx = "0.1".to_string();
    s.dy = "0.1".to_string();
    s.nodes = vec![node("abc", "0.0")];
    let r = check_structured(&s);
    assert!(r.errors.iter().any(|e| e.field == FieldId::NodeX(0)));
    assert!(!r.is_valid());
}

#[test]
fn structured_coordinate_errors_come_after_spacing() {
    let mut s = StructuredState::default();
    s.dx = "0".to_string();
    s.dy = "0.1".to_string();
    s.nodes = vec![node("1", "y"), node("z", "w")];
    s.edges = vec![edge("1", "2", "0")];
    let r = check_structured(&s);
    let got: Vec<(FieldId, String)> = r.errors.iter().map(|e| (e.field, e.message.clone())).collect();
    assert_eq!(
        got,
        vec![
            (FieldId::Dx, "dx and dy must be positive and non-zero".to_string()),
            (FieldId::NodeY(0), "Must be a number".to_string()),
            (FieldId::NodeX(1), "Must be a number".to_string()),
            (FieldId::NodeY(1), "Must be a number".to_string()),
            (FieldId::EdgeTag(0), "Region tag must be ≥ 1".to_string()),
        ]
    );
}

#[test]
fn unreadable_point_values_are_errors() {
    let mut s = EasyMeshState::default();
    s.points = vec![pt("abc", "0.0", "0.25", "1")];
    let r = check_easymesh(&s);
    assert!(r.errors.iter().any(|e| e.field == FieldId::PointX(0)));
    assert!(!r.is_valid());
}

#[test]
fn easymesh_errors_row_by_row() {
    let mut s = EasyMeshState::default();
    s.points = vec![pt("0", "q", "0", "m"), pt("1", "1", "1", "1")];
    s.segments = vec![SegmentRow { start: "0".to_string(), end: "5".to_string(), marker: "t".to_string() }];
    let r = check_easymesh(&s);
    let got: Vec<(FieldId, String)> = r.errors.iter().map(|e| (e.field, e.message.clone())).collect();
    assert_eq!(
        got,
        vec![
            (FieldId::PointY(0), "Must be a number".to_string()),
            (FieldId::PointSpacing(0), "Spacing must be non-zero to avoid infinite loops".to_string()),
            (FieldId::PointMarker(0), "Marker must be an integer".to_string()),
            (FieldId::SegmentEnd(0), "Point index out of range".to_string()),
            (FieldId::SegmentMarker(0), "Marker must be an integer".to_string()),
        ]
    );
}
