//! Defaults of the front end's settings, row removal, the executable's name
//! and the example templates.

use meshgen::state::{
    binary_name_for, expected_binary_name, relative_binary_path_for, remove_selected, EasyMeshState,
    EdgeRow, Engine, InputMode, NodeRow, PointRow, ProjectState, SegmentRow, StructuredState,
};
use meshgen::templates::{EASYMESH_TEMPLATE, STRUCTURED_TEMPLATE};

fn on_windows() -> bool {
    std::path::MAIN_SEPARATOR == '\\'
}

// --- ProjectState ---

#[test]
fn default_engine_is_structured() {
    let project = ProjectState::default();
    assert_eq!(project.selected_engine, Engine::Structured);
}

#[test]
fn project_default_input_mode_is_file() {
    assert_eq!(InputMode::default(), InputMode::File);
}

#[test]
fn default_project_selects_structured() {
    let project = ProjectState::default();
    assert_eq!(project.selected_engine, Engine::Structured);
}

#[test]
fn switching_engine_does_not_reset_other_engine_state() {
    let mut project = ProjectState::default();
    project.structured.dx = "0.05".to_string();
    project.selected_engine = Engine::EasyMesh;
    project.selected_engine = Engine::Structured;
    assert_eq!(project.structured.dx, "0.05");
}

// --- StructuredState ---

#[test]
fn structured_default_format_flags_all_unchecked() {
    let s = StructuredState::default();
    assert!(!s.fmt_fepoint, "fmt_fepoint should default to false");
    assert!(!s.fmt_zones, "fmt_zones should default to false");
    assert!(!s.fmt_vtk, "fmt_vtk should default to false");
    assert!(!s.fmt_text, "fmt_text should default to false");
}

#[test]
fn structured_default_input_mode_is_file() {
    let s = StructuredState::default();
    assert_eq!(s.input_mode, InputMode::File);
}

#[test]
fn structured_default_tables_are_empty() {
    let s = StructuredState::default();
    assert!(s.nodes.is_empty());
    assert!(s.edges.is_empty());
}

#[test]
fn default_paths_are_none() {
    let s = StructuredState::default();
    assert!(s.file_path.is_none());
    assert_eq!(s.output_dir, Some("outputs".to_string()));
}

#[test]
fn structured_panel_default_mode_is_file() {
    let s = StructuredState::default();
    assert_eq!(s.input_mode, InputMode::File);
}

#[test]
fn default_node_row_values() {
    let row = NodeRow::default();
    assert_eq!(row.x, "0.0");
    assert_eq!(row.y, "0.0");
}

#[test]
fn default_edge_row_values() {
    let row = EdgeRow::default();
    assert_eq!(row.start, "1");
    assert_eq!(row.end, "2");
    assert_eq!(row.tag, "1");
}

// --- EasyMeshState ---

#[test]
fn easymesh_default_format_flags_all_unchecked() {
    let s = EasyMeshState::default();
    assert!(!s.fmt_tec, "fmt_tec should default to false");
    assert!(!s.fmt_vtk, "fmt_vtk should default to false");
    assert!(!s.fmt_eps, "fmt_eps should default to false");
}

#[test]
fn default_aggressiveness_is_zero() {
    let s = EasyMeshState::default();
    assert_eq!(s.aggressiveness, 0);
}

#[test]
fn default_toggles_all_off() {
    let s = EasyMeshState::default();
    assert!(!s.skip_relaxation, "skip_relaxation should default to false");
    assert!(!s.skip_smoothing, "skip_smoothing should default to false");
    assert!(!s.boundary_only, "boundary_only should default to false");
    assert!(!s.suppress_messages, "suppress_messages should default to false");
}

#[test]
fn easymesh_default_input_mode_is_file() {
    let s = EasyMeshState::default();
    assert_eq!(s.input_mode, InputMode::File);
}

#[test]
fn easymesh_default_tables_are_empty() {
    let s = EasyMeshState::default();
    assert!(s.points.is_empty());
    assert!(s.segments.is_empty());
}

#[test]
fn easymesh_panel_default_mode_is_file() {
    let s = EasyMeshState::default();
    assert_eq!(s.input_mode, InputMode::File);
}

#[test]
fn default_binary_name_is_platform_correct() {
    let s = EasyMeshState::default();
    let path = std::path::Path::new(&s.easymesh_binary);
    let bin_name = path.file_name().and_then(|n| n.to_str()).unwrap_or("");
    if on_windows() {
        assert_eq!(bin_name, "Easy.exe", "expected Easy.exe on Windows");
    } else {
        assert_eq!(bin_name, "Easy", "expected Easy on non-Windows");
    }
    let parent = path
        .parent()
        .and_then(|p| p.file_name())
        .and_then(|n| n.to_str())
        .unwrap_or("");
    assert_eq!(parent, "Src", "binary must live inside a 'Src' directory");
}

#[test]
fn expected_binary_name_for_platform() {
    let name = expected_binary_name();
    if on_windows() {
        assert_eq!(name, "Easy.exe");
    } else {
        assert_eq!(name, "Easy");
    }
}

#[test]
fn reexported_expected_binary_name() {
    let name = meshgen::state::expected_binary_name();
    if on_windows() {
        assert_eq!(name, "Easy.exe");
    } else {
        assert_eq!(name, "Easy");
    }
}

#[test]
fn binary_name_follows_the_separator() {
    assert_eq!(binary_name_for('\\'), "Easy.exe");
    assert_eq!(binary_name_for('/'), "Easy");
    assert_eq!(relative_binary_path_for('/'), "EasyMesh/Src/Easy");
    assert_eq!(relative_binary_path_for('\\'), "EasyMesh\\Src\\Easy.exe");
}

#[test]
fn with_binary_keeps_the_path() {
    let s = EasyMeshState::with_binary("/opt/easymesh/Easy".to_string());
    assert_eq!(s.easymesh_binary, "/opt/easymesh/Easy");
    assert!(s.output_dir.is_none());
    assert_eq!(s.input_mode, InputMode::File);
}

#[test]
fn default_point_row_has_nonzero_spacing() {
    let row = PointRow::default();
    let spacing: f64 = row.spacing.parse().expect("spacing is a valid float");
    assert!(spacing > 0.0, "default spacing must be > 0");
}

#[test]
fn default_segment_row_values() {
    let row = SegmentRow::default();
    assert_eq!(row.start, "0");
    assert_eq!(row.end, "1");
    assert_eq!(row.marker, "1");
}

// --- Removing the selected row ---

#[test]
fn remove_selected_node_adjusts_selection() {
    let mut state = StructuredState::default();
    state.nodes = vec![NodeRow::default(), NodeRow::default(), NodeRow::default()];
    state.selected_node = Some(2);
    remove_selected(&mut state.nodes, &mut state.selected_node);
    assert_eq!(state.nodes.len(), 2);
    assert_eq!(state.selected_node, Some(1));
}

#[test]
fn remove_last_node_clears_selection() {
    let mut state = StructuredState::default();
    state.nodes = vec![NodeRow::default()];
    state.selected_node = Some(0);
    remove_selected(&mut state.nodes, &mut state.selected_node);
    assert!(state.nodes.is_empty());
    assert_eq!(state.selected_node, None);
}

#[test]
fn remove_selected_point_adjusts_selection() {
    let mut state = EasyMeshState::default();
    state.points = vec![PointRow::default(), PointRow::default(), PointRow::default()];
    state.selected_point = Some(2);
    remove_selected(&mut state.points, &mut state.selected_point);
    assert_eq!(state.points.len(), 2);
    assert_eq!(state.selected_point, Some(1));
}

#[test]
fn remove_last_segment_clears_selection() {
    let mut state = EasyMeshState::default();
    state.segments = vec![SegmentRow::default()];
    state.selected_segment = Some(0);
    remove_selected(&mut state.segments, &mut state.selected_segment);
    assert!(state.segments.is_empty());
    assert_eq!(state.selected_segment, None);
}

#[test]
fn remove_first_row_selects_new_first() {
    let mut rows = vec![1, 2, 3];
    let mut sel = Some(0);
    remove_selected(&mut rows, &mut sel);
    assert_eq!(rows, vec![2, 3]);
    assert_eq!(sel, Some(0));
}

#[test]
fn remove_without_selection_changes_nothing() {
    let mut rows = vec![1, 2, 3];
    let mut sel: Option<usize> = None;
    remove_selected(&mut rows, &mut sel);
    assert_eq!(rows, vec![1, 2, 3]);
    assert_eq!(sel, None);
    let mut past_end = Some(7);
    remove_selected(&mut rows, &mut past_end);
    assert_eq!(rows, vec![1, 2, 3]);
    assert_eq!(past_end, Some(7));
}

#[test]
fn remove_middle_row_selects_previous() {
    let mut rows = vec!['a', 'b', 'c', 'd'];
    let mut sel = Some(2);
    remove_selected(&mut rows, &mut sel);
    assert_eq!(rows, vec!['a', 'b', 'd']);
    assert_eq!(sel, Some(1));
}

// --- Templates ---

#[test]
fn structured_template_is_non_empty() {
    assert!(!STRUCTURED_TEMPLATE.is_empty());
}

#[test]
fn structured_template_contains_dx_dy() {
    assert!(
        STRUCTURED_TEMPLATE.contains("0.1"),
        "STRUCTURED_TEMPLATE should contain '0.1' (the dx/dy value)"
    );
}

#[test]
fn structured_template_has_expected_structure() {
    assert!(STRUCTURED_TEMPLATE.contains("0.1 0.1"));
    assert!(STRUCTURED_TEMPLATE.contains("4\n"));
    assert!(STRUCTURED_TEMPLATE.contains("1 2 1"));
}

#[test]
fn easymesh_template_is_non_empty() {
    assert!(!EASYMESH_TEMPLATE.is_empty());
}

#[test]
fn easymesh_template_contains_points_section() {
    assert!(
        EASYMESH_TEMPLATE.contains("POINTS"),
        "EASYMESH_TEMPLATE should contain 'POINTS'"
    );
}

#[test]
fn easymesh_template_contains_point_entries() {
    assert!(
        EASYMESH_TEMPLATE.contains("0:"),
        "EASYMESH_TEMPLATE should contain '0:' (first point/segment entry)"
    );
}

#[test]
fn easymesh_template_contains_segments_section() {
    assert!(
        EASYMESH_TEMPLATE.contains("SEGMENTS"),
        "EASYMESH_TEMPLATE should contain 'SEGMENTS'"
    );
}

#[test]
fn easymesh_template_has_nine_points() {
    assert!(EASYMESH_TEMPLATE.contains("9 # number of points #"));
}

#[test]
fn easymesh_template_has_nine_segments() {
    assert!(EASYMESH_TEMPLATE.contains("9 # Number of segments #"));
}
