//! Field-level validation of the Manual-mode tables of both engines.
//!
//! Errors block mesh generation; warnings are advice shown to the user.
//! What needs floating point (whether a spacing is a positive number, the
//! winding of a chain of points) is measured by the caller and given here
//! as plain values; [`winding_nodes`] and [`marker_chains`] say which rows
//! the winding is measured over.
use vstd::prelude::*;

use crate::state::{EasyMeshState, EdgeRow, PointRow, SegmentRow, StructuredState};
use crate::text::{i64_value, parse_trimmed_i64, parse_trimmed_usize, string_of, trim, usize_value};

verus! {

/// Identifies which table cell or field an error is about.
#[derive(Debug, Clone, Copy, PartialEq, Eq, Structural)]
pub enum FieldId {
    Dx,
    Dy,
    NodeX(usize),
    NodeY(usize),
    EdgeStart(usize),
    EdgeEnd(usize),
    EdgeTag(usize),
    PointX(usize),
    PointY(usize),
    PointSpacing(usize),
    PointMarker(usize),
    SegmentStart(usize),
    SegmentEnd(usize),
    SegmentMarker(usize),
}

/// A single field-level validation error.
#[derive(Debug, Clone, PartialEq)]
pub struct ValidationError {
    pub field: FieldId,
    pub message: String,
}

impl View for ValidationError {
    type V = (FieldId, Seq<char>);

    open spec fn view(&self) -> (FieldId, Seq<char>) {
        (self.field, self.message@)
    }
}

/// The errors (which block generation) and warnings (advice) found in one
/// engine's settings.
#[derive(Debug, Clone)]
pub struct ValidationResult {
    pub errors: Vec<ValidationError>,
    pub warnings: Vec<String>,
}

/// The errors of a result, each as its field and message.
pub open spec fn error_list(r: ValidationResult) -> Seq<(FieldId, Seq<char>)> {
    r.errors@.map_values(|e: ValidationError| e@)
}

/// The warnings of a result, as text.
pub open spec fn warning_list(r: ValidationResult) -> Seq<Seq<char>> {
    r.warnings@.map_values(|w: String| w@)
}

impl ValidationResult {
    /// A result with no errors and no warnings.
    pub fn new() -> (r: Self)
        ensures
            r.errors@.len() == 0,
            r.warnings@.len() == 0,
    {
        ValidationResult { errors: Vec::new(), warnings: Vec::new() }
    }

    /// Whether there are no errors (warnings are acceptable).
    pub fn is_valid(&self) -> (b: bool)
        ensures
            b == (self.errors@.len() == 0),
    {
        self.errors.len() == 0
    }

    fn push_error(&mut self, field: FieldId, message: &str)
        ensures
            error_list(*final(self)) == error_list(*old(self)).push((field, message@)),
            warning_list(*final(self)) == warning_list(*old(self)),
    {
        let ghost before = self.errors@;
        self.errors.push(ValidationError { field, message: string_of(message) });
        assert(self.errors@.map_values(|e: ValidationError| e@) == before.map_values(
            |e: ValidationError| e@,
        ).push((field, message@)));
    }

    fn push_warning(&mut self, message: &str)
        ensures
            error_list(*final(self)) == error_list(*old(self)),
            warning_list(*final(self)) == warning_list(*old(self)).push(message@),
    {
        let ghost before = self.warnings@;
        self.warnings.push(string_of(message));
        assert(self.warnings@.map_values(|w: String| w@) == before.map_values(|w: String| w@).push(
            message@,
        ));
    }
}

impl Default for ValidationResult {
    fn default() -> (r: Self)
        ensures
            r.errors@.len() == 0,
            r.warnings@.len() == 0,
    {
        ValidationResult::new()
    }
}

// ---------------------------------------------------------------------------
// Messages
// ---------------------------------------------------------------------------

pub open spec fn spacing_xy_message() -> Seq<char> {
    "dx and dy must be positive and non-zero"@
}

pub open spec fn number_message() -> Seq<char> {
    "Must be a number"@
}

pub open spec fn marker_int_message() -> Seq<char> {
    "Marker must be an integer"@
}

pub open spec fn node_range_message() -> Seq<char> {
    "Node index out of range"@
}

pub open spec fn tag_message() -> Seq<char> {
    "Region tag must be ≥ 1"@
}

pub open spec fn outline_winding_message() -> Seq<char> {
    "Outer boundary should be counter-clockwise; current winding is clockwise."@
}

pub open spec fn point_spacing_message() -> Seq<char> {
    "Spacing must be non-zero to avoid infinite loops"@
}

pub open spec fn marker_message() -> Seq<char> {
    "Boundary markers must be > 0; use 0 only for interior refinement chains"@
}

pub open spec fn point_range_message() -> Seq<char> {
    "Point index out of range"@
}

pub open spec fn outer_chain_message() -> Seq<char> {
    "Outer boundary chain should be counter-clockwise; current winding is clockwise."@
}

pub open spec fn hole_chain_message() -> Seq<char> {
    "Hole chains should be clockwise; current winding is counter-clockwise."@
}

// ---------------------------------------------------------------------------
// Structured engine
// ---------------------------------------------------------------------------

/// The text names a node of a table of `node_count` nodes: it parses (after
/// trimming) as a `usize` in `1..=node_count`.
pub open spec fn node_ref_ok(s: Seq<char>, node_count: int) -> bool {
    match usize_value(trim(s)) {
        Some(i) => 1 <= i <= node_count,
        None => false,
    }
}

/// The text is a valid region tag: it parses (after trimming) as an `i64`
/// of at least 1.
pub open spec fn tag_ok(s: Seq<char>) -> bool {
    match i64_value(trim(s)) {
        Some(t) => t >= 1,
        None => false,
    }
}

/// The errors of the edge row at index `i`: start, end, tag, in that order.
pub open spec fn edge_row_errors(e: EdgeRow, i: int, node_count: int) -> Seq<(FieldId, Seq<char>)> {
    (if node_ref_ok(e.start@, node_count) {
        seq![]
    } else {
        seq![(FieldId::EdgeStart(i as usize), node_range_message())]
    }) + (if node_ref_ok(e.end@, node_count) {
        seq![]
    } else {
        seq![(FieldId::EdgeEnd(i as usize), node_range_message())]
    }) + (if tag_ok(e.tag@) {
        seq![]
    } else {
        seq![(FieldId::EdgeTag(i as usize), tag_message())]
    })
}

/// The errors of the first `k` edge rows, row by row.
pub open spec fn edge_errors(edges: Seq<EdgeRow>, node_count: int, k: nat) -> Seq<(FieldId, Seq<char>)>
    decreases k,
{
    if k == 0 {
        seq![]
    } else {
        edge_errors(edges, node_count, (k - 1) as nat) + edge_row_errors(
            edges[k - 1],
            k - 1,
            node_count,
        )
    }
}

/// The errors of one pair of coordinates whose `ok` flags say whether each
/// parses as a number: `x`, then `y`.
pub open spec fn coord_errors(ok: (bool, bool), x: FieldId, y: FieldId) -> Seq<(FieldId, Seq<char>)> {
    (if ok.0 {
        seq![]
    } else {
        seq![(x, number_message())]
    }) + (if ok.1 {
        seq![]
    } else {
        seq![(y, number_message())]
    })
}

/// The coordinate errors of the first `k` nodes, node by node.
pub open spec fn node_errors(ok: Seq<(bool, bool)>, k: nat) -> Seq<(FieldId, Seq<char>)>
    decreases k,
{
    if k == 0 {
        seq![]
    } else {
        node_errors(ok, (k - 1) as nat) + coord_errors(
            ok[k - 1],
            FieldId::NodeX((k - 1) as usize),
            FieldId::NodeY((k - 1) as usize),
        )
    }
}

/// All errors of the Structured tables: `dx`, then `dy`, then the nodes'
/// coordinates, then the edges.
pub open spec fn structured_errors(
    s: StructuredState,
    dx_ok: bool,
    dy_ok: bool,
    coords_ok: Seq<(bool, bool)>,
) -> Seq<(FieldId, Seq<char>)> {
    (if dx_ok {
        seq![]
    } else {
        seq![(FieldId::Dx, spacing_xy_message())]
    }) + (if dy_ok {
        seq![]
    } else {
        seq![(FieldId::Dy, spacing_xy_message())]
    }) + node_errors(coords_ok, s.nodes@.len()) + edge_errors(
        s.edges@,
        s.nodes@.len() as int,
        s.edges@.len(),
    )
}

/// The warnings of the Structured tables: one when there are at least three
/// edges and the outline runs clockwise.
pub open spec fn structured_warnings(s: StructuredState, outline_clockwise: Option<bool>) -> Seq<
    Seq<char>,
> {
    if s.edges@.len() >= 3 && outline_clockwise == Some(true) {
        seq![outline_winding_message()]
    } else {
        seq![]
    }
}

/// The 0-based node that the edge row starts at, when its start parses and
/// names an existing node.
pub open spec fn start_node(e: EdgeRow, node_count: int) -> Option<usize> {
    match usize_value(trim(e.start@)) {
        Some(i) => if 1 <= i && i - 1 < node_count {
            Some((i - 1) as usize)
        } else {
            None
        },
        None => None,
    }
}

/// The start nodes of the first `k` edge rows, skipping rows whose start
/// does not name a node.
pub open spec fn start_nodes(edges: Seq<EdgeRow>, node_count: int, k: nat) -> Seq<usize>
    decreases k,
{
    if k == 0 {
        seq![]
    } else {
        match start_node(edges[k - 1], node_count) {
            Some(n) => start_nodes(edges, node_count, (k - 1) as nat).push(n),
            None => start_nodes(edges, node_count, (k - 1) as nat),
        }
    }
}

fn node_ref_check(s: &String, node_count: usize) -> (b: bool)
    ensures
        b == node_ref_ok(s@, node_count as int),
{
    match parse_trimmed_usize(s.as_str()) {
        Some(i) => 1 <= i && i <= node_count,
        None => false,
    }
}

fn tag_check(s: &String) -> (b: bool)
    ensures
        b == tag_ok(s@),
{
    match parse_trimmed_i64(s.as_str()) {
        Some(t) => t >= 1,
        None => false,
    }
}

/// The nodes, in edge order, whose coordinates make up the outline whose
/// winding is checked: the start node (0-based) of each edge row whose
/// start names an existing node.
pub fn winding_nodes(state: &StructuredState) -> (r: Vec<usize>)
    ensures
        r@ == start_nodes(state.edges@, state.nodes@.len() as int, state.edges@.len()),
{
    let n = state.nodes.len();
    let mut r: Vec<usize> = Vec::new();
    let mut k: usize = 0;
    while k < state.edges.len()
        invariant
            k <= state.edges@.len(),
            n == state.nodes@.len(),
            r@ == start_nodes(state.edges@, n as int, k as nat),
        decreases state.edges.len() - k,
    {
        match parse_trimmed_usize(state.edges[k].start.as_str()) {
            Some(i) => {
                if 1 <= i && i - 1 < n {
                    r.push(i - 1);
                }
            },
            None => {},
        }
        k = k + 1;
    }
    r
}

/// Validates the Manual-mode fields of the Structured engine.
///
/// - `dx_ok` / `dy_ok`: whether `dx` / `dy`, trimmed, parse as a finite
///   number greater than 0; each failure is an error.
/// - `coords_ok[i]`: whether node `i`'s `x` and `y`, trimmed, parse as
///   numbers; each that does not is an error.
/// - Every edge's start and end must name a node (`1..=nodes.len()`), and
///   its tag must be at least 1.
/// - `outline_clockwise`: the winding of the nodes that [`winding_nodes`]
///   lists whose coordinates parse (`None` for fewer than three); with at
///   least three edges, a clockwise outline is a warning.
#[verifier::spinoff_prover]
#[verifier::rlimit(40)]
pub fn validate_structured(
    state: &StructuredState,
    dx_ok: bool,
    dy_ok: bool,
    coords_ok: &Vec<(bool, bool)>,
    outline_clockwise: Option<bool>,
) -> (r: ValidationResult)
    requires
        coords_ok@.len() == state.nodes@.len(),
    ensures
        error_list(r) == structured_errors(*state, dx_ok, dy_ok, coords_ok@),
        warning_list(r) == structured_warnings(*state, outline_clockwise),
{
    let mut r = ValidationResult::new();
    if !dx_ok {
        r.push_error(FieldId::Dx, "dx and dy must be positive and non-zero");
    }
    if !dy_ok {
        r.push_error(FieldId::Dy, "dx and dy must be positive and non-zero");
    }
    let ghost spacing_part = error_list(r);
    assert(spacing_part == (if dx_ok {
        seq![]
    } else {
        seq![(FieldId::Dx, spacing_xy_message())]
    }) + (if dy_ok {
        seq![]
    } else {
        seq![(FieldId::Dy, spacing_xy_message())]
    }));
    let node_count = state.nodes.len();
    let mut n: usize = 0;
    while n < node_count
        invariant
            n <= node_count == state.nodes@.len() == coords_ok@.len(),
            error_list(r) == spacing_part + node_errors(coords_ok@, n as nat),
            warning_list(r).len() == 0,
        decreases node_count - n,
    {
        let ghost before = error_list(r);
        let (x_ok, y_ok) = coords_ok[n];
        if !x_ok {
            r.push_error(FieldId::NodeX(n), "Must be a number");
        }
        if !y_ok {
            r.push_error(FieldId::NodeY(n), "Must be a number");
        }
        assert(error_list(r) == before + coord_errors(
            coords_ok@[n as int],
            FieldId::NodeX(n),
            FieldId::NodeY(n),
        ));
        n = n + 1;
    }
    let ghost head = error_list(r);
    let mut i: usize = 0;
    while i < state.edges.len()
        invariant
            i <= state.edges@.len(),
            node_count == state.nodes@.len(),
            error_list(r) == head + edge_errors(state.edges@, node_count as int, i as nat),
            warning_list(r).len() == 0,
        decreases state.edges.len() - i,
    {
        let edge = &state.edges[i];
        let ghost before = error_list(r);
        if !node_ref_check(&edge.start, node_count) {
            r.push_error(FieldId::EdgeStart(i), "Node index out of range");
        }
        if !node_ref_check(&edge.end, node_count) {
            r.push_error(FieldId::EdgeEnd(i), "Node index out of range");
        }
        if !tag_check(&edge.tag) {
            r.push_error(FieldId::EdgeTag(i), "Region tag must be ≥ 1");
        }
        assert(error_list(r) == before + edge_row_errors(*edge, i as int, node_count as int));
        i = i + 1;
    }
    if state.edges.len() >= 3 {
        match outline_clockwise {
            Some(true) => {
                r.push_warning(
                    "Outer boundary should be counter-clockwise; current winding is clockwise.",
                );
            },
            _ => {},
        }
    }
    r
}

/// The edge row has a valid start, end and tag.
pub open spec fn edge_row_ok(e: EdgeRow, node_count: int) -> bool {
    node_ref_ok(e.start@, node_count) && node_ref_ok(e.end@, node_count) && tag_ok(e.tag@)
}

proof fn lemma_edge_errors_empty(edges: Seq<EdgeRow>, node_count: int, k: nat)
    requires
        k <= edges.len(),
    ensures
        edge_errors(edges, node_count, k).len() == 0 <==> forall|i: int|
            0 <= i < k ==> edge_row_ok(#[trigger] edges[i], node_count),
    decreases k,
{
    if k > 0 {
        lemma_edge_errors_empty(edges, node_count, (k - 1) as nat);
        if forall|i: int| 0 <= i < k ==> edge_row_ok(#[trigger] edges[i], node_count) {
            assert(edge_row_ok(edges[k - 1], node_count));
        }
    }
}

proof fn lemma_node_errors_empty(ok: Seq<(bool, bool)>, k: nat)
    requires
        k <= ok.len(),
    ensures
        node_errors(ok, k).len() == 0 <==> forall|i: int| 0 <= i < k ==> (#[trigger] ok[i]).0 && ok[i].1,
    decreases k,
{
    if k > 0 {
        lemma_node_errors_empty(ok, (k - 1) as nat);
    }
}

/// The Structured tables pass validation (no error) exactly when `dx` and
/// `dy` are positive numbers, every node coordinate is a number, and every
/// edge names two existing nodes and has a tag of at least 1.
pub proof fn lemma_structured_valid_iff(
    s: StructuredState,
    dx_ok: bool,
    dy_ok: bool,
    coords_ok: Seq<(bool, bool)>,
)
    requires
        coords_ok.len() == s.nodes@.len(),
    ensures
        structured_errors(s, dx_ok, dy_ok, coords_ok).len() == 0 <==> dx_ok && dy_ok && (forall|i: int|
            0 <= i < coords_ok.len() ==> (#[trigger] coords_ok[i]).0 && coords_ok[i].1) && forall|i: int|
            0 <= i < s.edges@.len() ==> edge_row_ok(#[trigger] s.edges@[i], s.nodes@.len() as int),
{
    lemma_node_errors_empty(coords_ok, s.nodes@.len());
    lemma_edge_errors_empty(s.edges@, s.nodes@.len() as int, s.edges@.len());
}

// ---------------------------------------------------------------------------
// EasyMesh engine
// ---------------------------------------------------------------------------

/// The text names a point of a table of `point_count` points: it parses
/// (after trimming) as an `i64` in `0..point_count`.
pub open spec fn point_ref_ok(s: Seq<char>, point_count: int) -> bool {
    match i64_value(trim(s)) {
        Some(v) => 0 <= v < point_count,
        None => false,
    }
}

/// The marker text parses (after trimming) as an `i64` below 1.
pub open spec fn marker_low(s: Seq<char>) -> bool {
    match i64_value(trim(s)) {
        Some(m) => m < 1,
        None => false,
    }
}

/// The marker text parses (after trimming) as an `i64`.
pub open spec fn marker_ok(s: Seq<char>) -> bool {
    i64_value(trim(s)) is Some
}

/// The errors of the point row at index `i`: `x`, `y` (by `coords`, whether
/// each parses as a number), spacing (by `spacing`, whether it is a positive
/// number), marker (whether it is an integer), in that order.
pub open spec fn point_row_errors(p: PointRow, coords: (bool, bool), spacing: bool, i: int) -> Seq<
    (FieldId, Seq<char>),
> {
    coord_errors(coords, FieldId::PointX(i as usize), FieldId::PointY(i as usize)) + (if spacing {
        seq![]
    } else {
        seq![(FieldId::PointSpacing(i as usize), point_spacing_message())]
    }) + (if marker_ok(p.marker@) {
        seq![]
    } else {
        seq![(FieldId::PointMarker(i as usize), marker_int_message())]
    })
}

/// The errors of the first `k` point rows, row by row.
pub open spec fn point_errors(
    pts: Seq<PointRow>,
    coords: Seq<(bool, bool)>,
    spacing: Seq<bool>,
    k: nat,
) -> Seq<(FieldId, Seq<char>)>
    decreases k,
{
    if k == 0 {
        seq![]
    } else {
        point_errors(pts, coords, spacing, (k - 1) as nat) + point_row_errors(
            pts[k - 1],
            coords[k - 1],
            spacing[k - 1],
            k - 1,
        )
    }
}

/// The spacing errors of the first `k` points.
pub open spec fn spacing_errors(ok: Seq<bool>, k: nat) -> Seq<(FieldId, Seq<char>)>
    decreases k,
{
    if k == 0 {
        seq![]
    } else if ok[k - 1] {
        spacing_errors(ok, (k - 1) as nat)
    } else {
        spacing_errors(ok, (k - 1) as nat).push(
            (FieldId::PointSpacing((k - 1) as usize), point_spacing_message()),
        )
    }
}

/// The range errors of the segment row at index `i`: start, then end.
pub open spec fn segment_range_errors(s: SegmentRow, i: int, point_count: int) -> Seq<
    (FieldId, Seq<char>),
> {
    (if point_ref_ok(s.start@, point_count) {
        seq![]
    } else {
        seq![(FieldId::SegmentStart(i as usize), point_range_message())]
    }) + (if point_ref_ok(s.end@, point_count) {
        seq![]
    } else {
        seq![(FieldId::SegmentEnd(i as usize), point_range_message())]
    })
}

/// The errors of the segment row at index `i`: start, end, then marker.
pub open spec fn segment_row_errors(s: SegmentRow, i: int, point_count: int) -> Seq<
    (FieldId, Seq<char>),
> {
    segment_range_errors(s, i, point_count) + (if marker_ok(s.marker@) {
        seq![]
    } else {
        seq![(FieldId::SegmentMarker(i as usize), marker_int_message())]
    })
}

/// The errors of the first `k` segment rows, row by row.
pub open spec fn segment_errors(segs: Seq<SegmentRow>, point_count: int, k: nat) -> Seq<
    (FieldId, Seq<char>),
>
    decreases k,
{
    if k == 0 {
        seq![]
    } else {
        segment_errors(segs, point_count, (k - 1) as nat) + segment_row_errors(
            segs[k - 1],
            k - 1,
            point_count,
        )
    }
}

/// One marker warning for each of the first `k` points whose marker is below 1.
pub open spec fn point_marker_warnings(pts: Seq<PointRow>, k: nat) -> Seq<Seq<char>>
    decreases k,
{
    if k == 0 {
        seq![]
    } else if marker_low(pts[k - 1].marker@) {
        point_marker_warnings(pts, (k - 1) as nat).push(marker_message())
    } else {
        point_marker_warnings(pts, (k - 1) as nat)
    }
}

/// One marker warning for each of the first `k` segments whose marker is below 1.
pub open spec fn segment_marker_warnings(segs: Seq<SegmentRow>, k: nat) -> Seq<Seq<char>>
    decreases k,
{
    if k == 0 {
        seq![]
    } else if marker_low(segs[k - 1].marker@) {
        segment_marker_warnings(segs, (k - 1) as nat).push(marker_message())
    } else {
        segment_marker_warnings(segs, (k - 1) as nat)
    }
}

/// All errors of the EasyMesh tables: the points row by row, then the
/// segments row by row.
pub open spec fn easymesh_errors(
    s: EasyMeshState,
    coords_ok: Seq<(bool, bool)>,
    spacing_ok: Seq<bool>,
) -> Seq<(FieldId, Seq<char>)> {
    point_errors(s.points@, coords_ok, spacing_ok, s.points@.len()) + segment_errors(
        s.segments@,
        s.points@.len() as int,
        s.segments@.len(),
    )
}

/// All warnings of the EasyMesh tables: the points' markers, the segments'
/// markers, a clockwise outer chain, a counter-clockwise hole chain.
pub open spec fn easymesh_warnings(
    s: EasyMeshState,
    outer_clockwise: Option<bool>,
    hole_clockwise: Option<bool>,
) -> Seq<Seq<char>> {
    point_marker_warnings(s.points@, s.points@.len()) + segment_marker_warnings(
        s.segments@,
        s.segments@.len(),
    ) + (if outer_clockwise == Some(true) {
        seq![outer_chain_message()]
    } else {
        seq![]
    }) + (if hole_clockwise == Some(false) {
        seq![hole_chain_message()]
    } else {
        seq![]
    })
}

/// The marker of a point for the winding checks: its value when it parses
/// (after trimming) as an `i64`, else 1.
pub open spec fn chain_marker(s: Seq<char>) -> int {
    match i64_value(trim(s)) {
        Some(m) => m as int,
        None => 1,
    }
}

/// The indices of the first `k` points whose marker satisfies `hole`
/// (marker 0) or not (marker at least 1).
pub open spec fn chain(pts: Seq<PointRow>, hole: bool, k: nat) -> Seq<usize>
    decreases k,
{
    if k == 0 {
        seq![]
    } else {
        let m = chain_marker(pts[k - 1].marker@);
        if (hole && m == 0) || (!hole && m >= 1) {
            chain(pts, hole, (k - 1) as nat).push((k - 1) as usize)
        } else {
            chain(pts, hole, (k - 1) as nat)
        }
    }
}

fn point_ref_check(s: &String, point_count: usize) -> (b: bool)
    ensures
        b == point_ref_ok(s@, point_count as int),
{
    match parse_trimmed_i64(s.as_str()) {
        Some(v) => v >= 0 && (v as u64) < (point_count as u64),
        None => false,
    }
}

fn marker_check(s: &String) -> (b: bool)
    ensures
        b == marker_ok(s@),
{
    parse_trimmed_i64(s.as_str()).is_some()
}

fn marker_low_check(s: &String) -> (b: bool)
    ensures
        b == marker_low(s@),
{
    match parse_trimmed_i64(s.as_str()) {
        Some(m) => m < 1,
        None => false,
    }
}

/// The points whose winding is checked, in table order: first the outer
/// chain (marker at least 1, or not a number), then the hole chain
/// (marker 0).
pub fn marker_chains(state: &EasyMeshState) -> (r: (Vec<usize>, Vec<usize>))
    ensures
        r.0@ == chain(state.points@, false, state.points@.len()),
        r.1@ == chain(state.points@, true, state.points@.len()),
{
    let mut outer: Vec<usize> = Vec::new();
    let mut holes: Vec<usize> = Vec::new();
    let mut k: usize = 0;
    while k < state.points.len()
        invariant
            k <= state.points@.len(),
            outer@ == chain(state.points@, false, k as nat),
            holes@ == chain(state.points@, true, k as nat),
        decreases state.points.len() - k,
    {
        let m: i64 = match parse_trimmed_i64(state.points[k].marker.as_str()) {
            Some(v) => v,
            None => 1,
        };
        if m >= 1 {
            outer.push(k);
        } else if m == 0 {
            holes.push(k);
        }
        k = k + 1;
    }
    (outer, holes)
}

/// Validates the Manual-mode fields of the EasyMesh engine.
///
/// - `coords_ok[i]`: whether point `i`'s `x` and `y`, trimmed, parse as
///   numbers; each that does not is an error.
/// - `spacing_ok[i]`: whether point `i`'s spacing, trimmed, parses as a
///   number greater than 0; each failure is an error.
/// - A point or segment marker that is not an integer is an error.
/// - Every segment's start and end must name a point (`0..points.len()`).
/// - A point or segment marker below 1 is a warning, one per row.
/// - `outer_clockwise` / `hole_clockwise`: the winding of the two chains of
///   [`marker_chains`], over the points whose coordinates parse (`None` for
///   fewer than three); a clockwise outer chain and a counter-clockwise hole
///   chain are warnings.
#[verifier::spinoff_prover]
#[verifier::rlimit(40)]
pub fn validate_easymesh(
    state: &EasyMeshState,
    coords_ok: &Vec<(bool, bool)>,
    spacing_ok: &Vec<bool>,
    outer_clockwise: Option<bool>,
    hole_clockwise: Option<bool>,
) -> (r: ValidationResult)
    requires
        coords_ok@.len() == state.points@.len(),
        spacing_ok@.len() == state.points@.len(),
    ensures
        error_list(r) == easymesh_errors(*state, coords_ok@, spacing_ok@),
        warning_list(r) == easymesh_warnings(*state, outer_clockwise, hole_clockwise),
{
    let mut r = ValidationResult::new();
    let point_count = state.points.len();
    let mut i: usize = 0;
    while i < point_count
        invariant
            i <= point_count == state.points@.len() == spacing_ok@.len() == coords_ok@.len(),
            error_list(r) == point_errors(state.points@, coords_ok@, spacing_ok@, i as nat),
            warning_list(r) == point_marker_warnings(state.points@, i as nat),
        decreases point_count - i,
    {
        let ghost before = error_list(r);
        let (x_ok, y_ok) = coords_ok[i];
        if !x_ok {
            r.push_error(FieldId::PointX(i), "Must be a number");
        }
        if !y_ok {
            r.push_error(FieldId::PointY(i), "Must be a number");
        }
        if !spacing_ok[i] {
            r.push_error(FieldId::PointSpacing(i), "Spacing must be non-zero to avoid infinite loops");
        }
        if !marker_check(&state.points[i].marker) {
            r.push_error(FieldId::PointMarker(i), "Marker must be an integer");
        }
        assert(error_list(r) == before + point_row_errors(
            state.points@[i as int],
            coords_ok@[i as int],
            spacing_ok@[i as int],
            i as int,
        ));
        if marker_low_check(&state.points[i].marker) {
            r.push_warning("Boundary markers must be > 0; use 0 only for interior refinement chains");
        }
        i = i + 1;
    }
    let ghost point_errs = error_list(r);
    let ghost point_warns = warning_list(r);
    let mut j: usize = 0;
    while j < state.segments.len()
        invariant
            j <= state.segments@.len(),
            point_count == state.points@.len(),
            error_list(r) == point_errs + segment_errors(state.segments@, point_count as int, j as nat),
            warning_list(r) == point_warns + segment_marker_warnings(state.segments@, j as nat),
        decreases state.segments.len() - j,
    {
        let seg = &state.segments[j];
        let ghost before = error_list(r);
        let ghost before_w = warning_list(r);
        if !point_ref_check(&seg.start, point_count) {
            r.push_error(FieldId::SegmentStart(j), "Point index out of range");
        }
        if !point_ref_check(&seg.end, point_count) {
            r.push_error(FieldId::SegmentEnd(j), "Point index out of range");
        }
        if !marker_check(&seg.marker) {
            r.push_error(FieldId::SegmentMarker(j), "Marker must be an integer");
        }
        assert(error_list(r) == before + segment_row_errors(*seg, j as int, point_count as int));
        if marker_low_check(&seg.marker) {
            r.push_warning("Boundary markers must be > 0; use 0 only for interior refinement chains");
        }
        assert(warning_list(r) == point_warns + segment_marker_warnings(
            state.segments@,
            (j + 1) as nat,
        ));
        j = j + 1;
    }
    let ghost marker_warns = warning_list(r);
    match outer_clockwise {
        Some(true) => {
            r.push_warning(
                "Outer boundary chain should be counter-clockwise; current winding is clockwise.",
            );
        },
        _ => {},
    }
    let ghost with_outer = warning_list(r);
    match hole_clockwise {
        Some(false) => {
            r.push_warning("Hole chains should be clockwise; current winding is counter-clockwise.");
        },
        _ => {},
    }
    assert(warning_list(r) == marker_warns + (if outer_clockwise == Some(true) {
        seq![outer_chain_message()]
    } else {
        seq![]
    }) + (if hole_clockwise == Some(false) {
        seq![hole_chain_message()]
    } else {
        seq![]
    }));
    r
}

/// The segment row names two existing points and its marker is an integer.
pub open spec fn segment_row_ok(g: SegmentRow, point_count: int) -> bool {
    point_ref_ok(g.start@, point_count) && point_ref_ok(g.end@, point_count) && marker_ok(g.marker@)
}

/// The point row's coordinates are numbers, its spacing is a positive
/// number and its marker is an integer.
pub open spec fn point_row_ok(p: PointRow, coords: (bool, bool), spacing: bool) -> bool {
    coords.0 && coords.1 && spacing && marker_ok(p.marker@)
}

proof fn lemma_point_errors_empty(pts: Seq<PointRow>, coords: Seq<(bool, bool)>, sp: Seq<bool>, k: nat)
    requires
        k <= pts.len(),
        k <= coords.len(),
        k <= sp.len(),
    ensures
        point_errors(pts, coords, sp, k).len() == 0 <==> forall|i: int|
            0 <= i < k ==> point_row_ok(#[trigger] pts[i], coords[i], sp[i]),
    decreases k,
{
    if k > 0 {
        lemma_point_errors_empty(pts, coords, sp, (k - 1) as nat);
        if forall|i: int| 0 <= i < k ==> point_row_ok(#[trigger] pts[i], coords[i], sp[i]) {
            assert(point_row_ok(pts[k - 1], coords[k - 1], sp[k - 1]));
        }
    }
}

proof fn lemma_segment_errors_empty(segs: Seq<SegmentRow>, point_count: int, k: nat)
    requires
        k <= segs.len(),
    ensures
        segment_errors(segs, point_count, k).len() == 0 <==> forall|i: int|
            0 <= i < k ==> segment_row_ok(#[trigger] segs[i], point_count),
    decreases k,
{
    if k > 0 {
        lemma_segment_errors_empty(segs, point_count, (k - 1) as nat);
        if forall|i: int| 0 <= i < k ==> segment_row_ok(#[trigger] segs[i], point_count) {
            assert(segment_row_ok(segs[k - 1], point_count));
        }
    }
}

/// The EasyMesh tables pass validation (no error) exactly when every point
/// has numeric coordinates, a positive spacing and an integer marker, and
/// every segment names two existing points and has an integer marker;
/// marker values and winding only ever warn.
pub proof fn lemma_easymesh_valid_iff(s: EasyMeshState, coords_ok: Seq<(bool, bool)>, spacing_ok: Seq<bool>)
    requires
        coords_ok.len() == s.points@.len(),
        spacing_ok.len() == s.points@.len(),
    ensures
        easymesh_errors(s, coords_ok, spacing_ok).len() == 0 <==> (forall|i: int|
            0 <= i < s.points@.len() ==> point_row_ok(#[trigger] s.points@[i], coords_ok[i], spacing_ok[i]))
            && (forall|i: int|
            0 <= i < s.segments@.len() ==> segment_row_ok(
                #[trigger] s.segments@[i],
                s.points@.len() as int,
            )),
{
    lemma_point_errors_empty(s.points@, coords_ok, spacing_ok, s.points@.len());
    lemma_segment_errors_empty(s.segments@, s.points@.len() as int, s.segments@.len());
}

/// Selects the spacing errors and the segment range errors.
pub open spec fn spacing_or_range() -> spec_fn((FieldId, Seq<char>)) -> bool {
    |e: (FieldId, Seq<char>)| e.0 is PointSpacing || e.0 is SegmentStart || e.0 is SegmentEnd
}

/// The range errors of the first `k` segment rows, row by row.
pub open spec fn segment_ranges(segs: Seq<SegmentRow>, point_count: int, k: nat) -> Seq<
    (FieldId, Seq<char>),
>
    decreases k,
{
    if k == 0 {
        seq![]
    } else {
        segment_ranges(segs, point_count, (k - 1) as nat) + segment_range_errors(
            segs[k - 1],
            k - 1,
            point_count,
        )
    }
}

proof fn lemma_filter_small(a: Seq<(FieldId, Seq<char>)>, p: spec_fn((FieldId, Seq<char>)) -> bool)
    requires
        a.len() <= 1,
    ensures
        a.filter(p) == (if a.len() == 1 && p(a[0]) {
            a
        } else {
            seq![]
        }),
{
    reveal_with_fuel(Seq::filter, 2);
    if a.len() == 1 {
        assert(a.drop_last() =~= seq![]);
    }
}

proof fn lemma_point_errors_filter(pts: Seq<PointRow>, coords: Seq<(bool, bool)>, sp: Seq<bool>, k: nat)
    requires
        k <= sp.len(),
    ensures
        point_errors(pts, coords, sp, k).filter(spacing_or_range()) == spacing_errors(sp, k),
    decreases k,
{
    let p = spacing_or_range();
    if k == 0 {
        lemma_filter_small(seq![], p);
    } else {
        let i = k - 1;
        lemma_point_errors_filter(pts, coords, sp, i as nat);
        let c = coords[i];
        let xs: Seq<(FieldId, Seq<char>)> = if c.0 {
            seq![]
        } else {
            seq![(FieldId::PointX(i as usize), number_message())]
        };
        let ys: Seq<(FieldId, Seq<char>)> = if c.1 {
            seq![]
        } else {
            seq![(FieldId::PointY(i as usize), number_message())]
        };
        let ss: Seq<(FieldId, Seq<char>)> = if sp[i] {
            seq![]
        } else {
            seq![(FieldId::PointSpacing(i as usize), point_spacing_message())]
        };
        let ms: Seq<(FieldId, Seq<char>)> = if marker_ok(pts[i].marker@) {
            seq![]
        } else {
            seq![(FieldId::PointMarker(i as usize), marker_int_message())]
        };
        let prev = point_errors(pts, coords, sp, i as nat);
        assert(point_errors(pts, coords, sp, k) == prev + (xs + ys + ss + ms));
        Seq::filter_distributes_over_add(prev, xs + ys + ss + ms, p);
        Seq::filter_distributes_over_add(xs + ys + ss, ms, p);
        Seq::filter_distributes_over_add(xs + ys, ss, p);
        Seq::filter_distributes_over_add(xs, ys, p);
        lemma_filter_small(xs, p);
        lemma_filter_small(ys, p);
        lemma_filter_small(ss, p);
        lemma_filter_small(ms, p);
        if sp[i] {
            assert(spacing_errors(sp, k) == spacing_errors(sp, i as nat));
            assert((prev + (xs + ys + ss + ms)).filter(p) =~= spacing_errors(sp, i as nat));
        } else {
            assert((prev + (xs + ys + ss + ms)).filter(p) =~= spacing_errors(sp, i as nat) + ss);
        }
    }
}

proof fn lemma_segment_errors_filter(segs: Seq<SegmentRow>, point_count: int, k: nat)
    ensures
        segment_errors(segs, point_count, k).filter(spacing_or_range()) == segment_ranges(
            segs,
            point_count,
            k,
        ),
    decreases k,
{
    let p = spacing_or_range();
    if k == 0 {
        lemma_filter_small(seq![], p);
    } else {
        let i = k - 1;
        lemma_segment_errors_filter(segs, point_count, i as nat);
        let g = segs[i];
        let st: Seq<(FieldId, Seq<char>)> = if point_ref_ok(g.start@, point_count) {
            seq![]
        } else {
            seq![(FieldId::SegmentStart(i as usize), point_range_message())]
        };
        let en: Seq<(FieldId, Seq<char>)> = if point_ref_ok(g.end@, point_count) {
            seq![]
        } else {
            seq![(FieldId::SegmentEnd(i as usize), point_range_message())]
        };
        let ms: Seq<(FieldId, Seq<char>)> = if marker_ok(g.marker@) {
            seq![]
        } else {
            seq![(FieldId::SegmentMarker(i as usize), marker_int_message())]
        };
        let prev = segment_errors(segs, point_count, i as nat);
        assert(segment_errors(segs, point_count, k) == prev + (st + en + ms));
        Seq::filter_distributes_over_add(prev, st + en + ms, p);
        Seq::filter_distributes_over_add(st + en, ms, p);
        Seq::filter_distributes_over_add(st, en, p);
        lemma_filter_small(st, p);
        lemma_filter_small(en, p);
        lemma_filter_small(ms, p);
        assert((prev + (st + en + ms)).filter(p) =~= segment_ranges(segs, point_count, i as nat) + (st
            + en));
    }
}

/// Of the EasyMesh errors, those about spacing and segment ranges are, in
/// order: `PointSpacing(i)` for each point whose spacing is not a positive
/// number, then for each segment `SegmentStart(j)` if its start names no
/// point and `SegmentEnd(j)` if its end names no point.
pub proof fn lemma_spacing_and_range_errors(
    s: EasyMeshState,
    coords_ok: Seq<(bool, bool)>,
    spacing_ok: Seq<bool>,
)
    requires
        coords_ok.len() == s.points@.len(),
        spacing_ok.len() == s.points@.len(),
    ensures
        easymesh_errors(s, coords_ok, spacing_ok).filter(spacing_or_range()) == spacing_errors(
            spacing_ok,
            s.points@.len(),
        ) + segment_ranges(s.segments@, s.points@.len() as int, s.segments@.len()),
{
    let n = s.points@.len();
    lemma_point_errors_filter(s.points@, coords_ok, spacing_ok, n);
    lemma_segment_errors_filter(s.segments@, n as int, s.segments@.len());
    Seq::filter_distributes_over_add(
        point_errors(s.points@, coords_ok, spacing_ok, n),
        segment_errors(s.segments@, n as int, s.segments@.len()),
        spacing_or_range(),
    );
}

/// Selects the spacing errors (`Dx`, `Dy`) and the edge errors.
pub open spec fn spacing_or_edge() -> spec_fn((FieldId, Seq<char>)) -> bool {
    |e: (FieldId, Seq<char>)| e.0 is Dx || e.0 is Dy || e.0 is EdgeStart || e.0 is EdgeEnd || e.0 is EdgeTag
}

#[verifier::spinoff_prover]
proof fn lemma_node_errors_filter(ok: Seq<(bool, bool)>, k: nat)
    ensures
        node_errors(ok, k).filter(spacing_or_edge()) == Seq::<(FieldId, Seq<char>)>::empty(),
    decreases k,
{
    let p = spacing_or_edge();
    if k == 0 {
        lemma_filter_small(seq![], p);
    } else {
        let i = k - 1;
        lemma_node_errors_filter(ok, i as nat);
        let c = ok[i];
        let xs: Seq<(FieldId, Seq<char>)> = if c.0 {
            seq![]
        } else {
            seq![(FieldId::NodeX(i as usize), number_message())]
        };
        let ys: Seq<(FieldId, Seq<char>)> = if c.1 {
            seq![]
        } else {
            seq![(FieldId::NodeY(i as usize), number_message())]
        };
        let prev = node_errors(ok, i as nat);
        assert(node_errors(ok, k) == prev + (xs + ys));
        Seq::filter_distributes_over_add(prev, xs + ys, p);
        Seq::filter_distributes_over_add(xs, ys, p);
        lemma_filter_small(xs, p);
        lemma_filter_small(ys, p);
        if !c.0 {
            assert(!p(xs[0]));
        }
        if !c.1 {
            assert(!p(ys[0]));
        }
        assert(xs.filter(p) == Seq::<(FieldId, Seq<char>)>::empty());
        assert(ys.filter(p) == Seq::<(FieldId, Seq<char>)>::empty());
        assert(prev.filter(p) + (xs.filter(p) + ys.filter(p)) =~= Seq::<(FieldId, Seq<char>)>::empty());
    }
}

proof fn lemma_edge_errors_filter(edges: Seq<EdgeRow>, node_count: int, k: nat)
    ensures
        edge_errors(edges, node_count, k).filter(spacing_or_edge()) == edge_errors(edges, node_count, k),
    decreases k,
{
    let p = spacing_or_edge();
    if k == 0 {
        lemma_filter_small(seq![], p);
    } else {
        let i = k - 1;
        lemma_edge_errors_filter(edges, node_count, i as nat);
        let e = edges[i];
        let st: Seq<(FieldId, Seq<char>)> = if node_ref_ok(e.start@, node_count) {
            seq![]
        } else {
            seq![(FieldId::EdgeStart(i as usize), node_range_message())]
        };
        let en: Seq<(FieldId, Seq<char>)> = if node_ref_ok(e.end@, node_count) {
            seq![]
        } else {
            seq![(FieldId::EdgeEnd(i as usize), node_range_message())]
        };
        let tg: Seq<(FieldId, Seq<char>)> = if tag_ok(e.tag@) {
            seq![]
        } else {
            seq![(FieldId::EdgeTag(i as usize), tag_message())]
        };
        let prev = edge_errors(edges, node_count, i as nat);
        assert(edge_errors(edges, node_count, k) == prev + (st + en + tg));
        Seq::filter_distributes_over_add(prev, st + en + tg, p);
        Seq::filter_distributes_over_add(st + en, tg, p);
        Seq::filter_distributes_over_add(st, en, p);
        lemma_filter_small(st, p);
        lemma_filter_small(en, p);
        lemma_filter_small(tg, p);
        assert((prev + (st + en + tg)).filter(p) =~= prev + (st + en + tg));
    }
}

/// Of the Structured errors, those about the spacing and the edges are, in
/// order: `Dx` when `dx` is not a positive number, `Dy` likewise, then for
/// each edge in order `EdgeStart(i)` when its start names no node,
/// `EdgeEnd(i)` likewise, and `EdgeTag(i)` when its tag is not an integer of
/// at least 1. There is at most one warning, and only with three or more
/// edges.
pub proof fn lemma_structured_spacing_and_edge_errors(
    s: StructuredState,
    dx_ok: bool,
    dy_ok: bool,
    coords_ok: Seq<(bool, bool)>,
    outline_clockwise: Option<bool>,
)
    requires
        coords_ok.len() == s.nodes@.len(),
    ensures
        structured_errors(s, dx_ok, dy_ok, coords_ok).filter(spacing_or_edge()) == (if dx_ok {
            seq![]
        } else {
            seq![(FieldId::Dx, spacing_xy_message())]
        }) + (if dy_ok {
            seq![]
        } else {
            seq![(FieldId::Dy, spacing_xy_message())]
        }) + edge_errors(s.edges@, s.nodes@.len() as int, s.edges@.len()),
        structured_warnings(s, outline_clockwise).len() <= 1,
        structured_warnings(s, outline_clockwise).len() == 1 ==> s.edges@.len() >= 3,
{
    let p = spacing_or_edge();
    let dxs: Seq<(FieldId, Seq<char>)> = if dx_ok {
        seq![]
    } else {
        seq![(FieldId::Dx, spacing_xy_message())]
    };
    let dys: Seq<(FieldId, Seq<char>)> = if dy_ok {
        seq![]
    } else {
        seq![(FieldId::Dy, spacing_xy_message())]
    };
    let ns = node_errors(coords_ok, s.nodes@.len());
    let es = edge_errors(s.edges@, s.nodes@.len() as int, s.edges@.len());
    lemma_node_errors_filter(coords_ok, s.nodes@.len());
    lemma_edge_errors_filter(s.edges@, s.nodes@.len() as int, s.edges@.len());
    lemma_filter_small(dxs, p);
    lemma_filter_small(dys, p);
    Seq::filter_distributes_over_add(dxs + dys + ns, es, p);
    Seq::filter_distributes_over_add(dxs + dys, ns, p);
    Seq::filter_distributes_over_add(dxs, dys, p);
    assert(structured_errors(s, dx_ok, dy_ok, coords_ok) == dxs + dys + ns + es);
    assert((dxs + dys + ns + es).filter(p) =~= dxs + dys + es);
}

/// Some error of the list is about field `f`.
pub open spec fn has_field(errs: Seq<(FieldId, Seq<char>)>, f: FieldId) -> bool {
    exists|k: int| 0 <= k < errs.len() && (#[trigger] errs[k]).0 == f
}

proof fn lemma_has_field_add(a: Seq<(FieldId, Seq<char>)>, b: Seq<(FieldId, Seq<char>)>, f: FieldId)
    ensures
        has_field(a + b, f) <==> has_field(a, f) || has_field(b, f),
{
    if has_field(a + b, f) {
        let k = choose|k: int| 0 <= k < (a + b).len() && (#[trigger] (a + b)[k]).0 == f;
        if k < a.len() {
            assert(a[k] == (a + b)[k]);
        } else {
            assert(b[k - a.len()] == (a + b)[k]);
        }
    }
    if has_field(a, f) {
        let k = choose|k: int| 0 <= k < a.len() && (#[trigger] a[k]).0 == f;
        assert((a + b)[k] == a[k]);
    }
    if has_field(b, f) {
        let k = choose|k: int| 0 <= k < b.len() && (#[trigger] b[k]).0 == f;
        assert((a + b)[a.len() + k] == b[k]);
    }
}

proof fn lemma_no_segment_field_in_points(
    pts: Seq<PointRow>,
    coords: Seq<(bool, bool)>,
    sp: Seq<bool>,
    k: nat,
    i: usize,
)
    ensures
        !has_field(point_errors(pts, coords, sp, k), FieldId::SegmentStart(i)),
        !has_field(point_errors(pts, coords, sp, k), FieldId::SegmentEnd(i)),
    decreases k,
{
    if k > 0 {
        let j = k - 1;
        lemma_no_segment_field_in_points(pts, coords, sp, j as nat, i);
        let prev = point_errors(pts, coords, sp, j as nat);
        let row = point_row_errors(pts[j], coords[j], sp[j], j);
        lemma_has_field_add(prev, row, FieldId::SegmentStart(i));
        lemma_has_field_add(prev, row, FieldId::SegmentEnd(i));
        if has_field(row, FieldId::SegmentStart(i)) || has_field(row, FieldId::SegmentEnd(i)) {
            let w = choose|w: int|
                0 <= w < row.len() && ((#[trigger] row[w]).0 == FieldId::SegmentStart(i) || row[w].0
                    == FieldId::SegmentEnd(i));
            assert(false);
        }
    }
}

proof fn lemma_segment_field(segs: Seq<SegmentRow>, n: int, k: nat, i: int)
    requires
        k <= segs.len(),
        0 <= i < segs.len(),
        segs.len() <= usize::MAX,
    ensures
        has_field(segment_errors(segs, n, k), FieldId::SegmentStart(i as usize)) <==> i < k && !point_ref_ok(
            segs[i].start@,
            n,
        ),
        has_field(segment_errors(segs, n, k), FieldId::SegmentEnd(i as usize)) <==> i < k && !point_ref_ok(
            segs[i].end@,
            n,
        ),
    decreases k,
{
    if k > 0 {
        let j = k - 1;
        lemma_segment_field(segs, n, j as nat, i);
        let prev = segment_errors(segs, n, j as nat);
        let g = segs[j];
        let st: Seq<(FieldId, Seq<char>)> = if point_ref_ok(g.start@, n) {
            seq![]
        } else {
            seq![(FieldId::SegmentStart(j as usize), point_range_message())]
        };
        let en: Seq<(FieldId, Seq<char>)> = if point_ref_ok(g.end@, n) {
            seq![]
        } else {
            seq![(FieldId::SegmentEnd(j as usize), point_range_message())]
        };
        let ms: Seq<(FieldId, Seq<char>)> = if marker_ok(g.marker@) {
            seq![]
        } else {
            seq![(FieldId::SegmentMarker(j as usize), marker_int_message())]
        };
        assert(segment_errors(segs, n, k) == prev + (st + en + ms));
        let fs = FieldId::SegmentStart(i as usize);
        let fe = FieldId::SegmentEnd(i as usize);
        lemma_has_field_add(prev, st + en + ms, fs);
        lemma_has_field_add(st + en, ms, fs);
        lemma_has_field_add(st, en, fs);
        lemma_has_field_add(prev, st + en + ms, fe);
        lemma_has_field_add(st + en, ms, fe);
        lemma_has_field_add(st, en, fe);
        assert((j as usize) as int == j);
        if has_field(st, fs) {
            assert(st[0].0 == fs);
        }
        if has_field(en, fe) {
            assert(en[0].0 == fe);
        }
        if i == j && !point_ref_ok(g.start@, n) {
            assert(st[0].0 == fs);
        }
        if i == j && !point_ref_ok(g.end@, n) {
            assert(en[0].0 == fe);
        }
        if has_field(ms, fs) || has_field(ms, fe) || has_field(en, fs) || has_field(st, fe) {
            assert(ms.len() + en.len() + st.len() > 0);
            if has_field(ms, fs) || has_field(ms, fe) {
                assert(ms[0].0 is SegmentMarker);
            }
            if has_field(en, fs) {
                assert(en[0].0 is SegmentEnd);
            }
            if has_field(st, fe) {
                assert(st[0].0 is SegmentStart);
            }
        }
    }
}

/// A segment's start (or end) is reported exactly when its trimmed text is
/// not an integer `v` with `0 <= v < points.len()`: an index equal to the
/// number of points, or negative, or not a number is an error, and every
/// index of an existing point is accepted.
pub proof fn lemma_segment_index_errors(
    s: EasyMeshState,
    coords_ok: Seq<(bool, bool)>,
    spacing_ok: Seq<bool>,
    i: int,
)
    requires
        coords_ok.len() == s.points@.len(),
        spacing_ok.len() == s.points@.len(),
        s.segments@.len() <= usize::MAX,
        0 <= i < s.segments@.len(),
    ensures
        has_field(easymesh_errors(s, coords_ok, spacing_ok), FieldId::SegmentStart(i as usize)) <==> !(
        match i64_value(trim(s.segments@[i].start@)) {
            Some(v) => 0 <= v && v < s.points@.len(),
            None => false,
        }),
        has_field(easymesh_errors(s, coords_ok, spacing_ok), FieldId::SegmentEnd(i as usize)) <==> !(
        match i64_value(trim(s.segments@[i].end@)) {
            Some(v) => 0 <= v && v < s.points@.len(),
            None => false,
        }),
{
    let n = s.points@.len();
    let pe = point_errors(s.points@, coords_ok, spacing_ok, n);
    let se = segment_errors(s.segments@, n as int, s.segments@.len());
    lemma_no_segment_field_in_points(s.points@, coords_ok, spacing_ok, n, i as usize);
    lemma_segment_field(s.segments@, n as int, s.segments@.len(), i);
    lemma_has_field_add(pe, se, FieldId::SegmentStart(i as usize));
    lemma_has_field_add(pe, se, FieldId::SegmentEnd(i as usize));
}

proof fn lemma_node_errors_fields(ok: Seq<(bool, bool)>, k: nat, f: FieldId)
    ensures
        has_field(node_errors(ok, k), f) <==> exists|j: int|
            0 <= j < k && #[trigger] has_field(
                coord_errors(ok[j], FieldId::NodeX(j as usize), FieldId::NodeY(j as usize)),
                f,
            ),
    decreases k,
{
    if k > 0 {
        lemma_node_errors_fields(ok, (k - 1) as nat, f);
        let j = k - 1;
        lemma_has_field_add(
            node_errors(ok, j as nat),
            coord_errors(ok[j], FieldId::NodeX(j as usize), FieldId::NodeY(j as usize)),
            f,
        );
    }
}

proof fn lemma_edge_errors_fields(edges: Seq<EdgeRow>, n: int, k: nat, f: FieldId)
    ensures
        has_field(edge_errors(edges, n, k), f) <==> exists|j: int|
            0 <= j < k && #[trigger] has_field(edge_row_errors(edges[j], j, n), f),
    decreases k,
{
    if k > 0 {
        lemma_edge_errors_fields(edges, n, (k - 1) as nat, f);
        lemma_has_field_add(
            edge_errors(edges, n, (k - 1) as nat),
            edge_row_errors(edges[k - 1], k - 1, n),
            f,
        );
    }
}

proof fn lemma_point_errors_fields(
    pts: Seq<PointRow>,
    coords: Seq<(bool, bool)>,
    sp: Seq<bool>,
    k: nat,
    f: FieldId,
)
    ensures
        has_field(point_errors(pts, coords, sp, k), f) <==> exists|j: int|
            0 <= j < k && #[trigger] has_field(point_row_errors(pts[j], coords[j], sp[j], j), f),
    decreases k,
{
    if k > 0 {
        lemma_point_errors_fields(pts, coords, sp, (k - 1) as nat, f);
        lemma_has_field_add(
            point_errors(pts, coords, sp, (k - 1) as nat),
            point_row_errors(pts[k - 1], coords[k - 1], sp[k - 1], k - 1),
            f,
        );
    }
}

proof fn lemma_segment_errors_fields(segs: Seq<SegmentRow>, n: int, k: nat, f: FieldId)
    ensures
        has_field(segment_errors(segs, n, k), f) <==> exists|j: int|
            0 <= j < k && #[trigger] has_field(segment_row_errors(segs[j], j, n), f),
    decreases k,
{
    if k > 0 {
        lemma_segment_errors_fields(segs, n, (k - 1) as nat, f);
        lemma_has_field_add(
            segment_errors(segs, n, (k - 1) as nat),
            segment_row_errors(segs[k - 1], k - 1, n),
            f,
        );
    }
}

proof fn lemma_has_field_small(a: Seq<(FieldId, Seq<char>)>, f: FieldId)
    requires
        a.len() <= 1,
    ensures
        has_field(a, f) <==> a.len() == 1 && a[0].0 == f,
{
    if a.len() == 1 && a[0].0 == f {
        assert(a[0].0 == f);
    }
}

/// Which fields the Structured validation reports, each by a condition on
/// the input written out: `Dx` / `Dy` exactly when that spacing is not a
/// positive number; `NodeX(i)` / `NodeY(i)` exactly when that coordinate of
/// node `i` is not a number; `EdgeStart(i)` / `EdgeEnd(i)` exactly when the
/// trimmed text is not an integer `v` with `1 <= v <= nodes.len()`; and
/// `EdgeTag(i)` exactly when the trimmed tag is not an integer of at least 1.
#[verifier::spinoff_prover]
#[verifier::rlimit(60)]
pub proof fn lemma_structured_fields(
    s: StructuredState,
    dx_ok: bool,
    dy_ok: bool,
    coords_ok: Seq<(bool, bool)>,
    i: int,
)
    requires
        coords_ok.len() == s.nodes@.len(),
        s.nodes@.len() <= usize::MAX,
        s.edges@.len() <= usize::MAX,
        0 <= i,
    ensures
        ({
            let e = structured_errors(s, dx_ok, dy_ok, coords_ok);
            &&& has_field(e, FieldId::Dx) <==> !dx_ok
            &&& has_field(e, FieldId::Dy) <==> !dy_ok
            &&& i < s.nodes@.len() ==> (has_field(e, FieldId::NodeX(i as usize)) <==> !coords_ok[i].0)
            &&& i < s.nodes@.len() ==> (has_field(e, FieldId::NodeY(i as usize)) <==> !coords_ok[i].1)
            &&& i < s.edges@.len() ==> (has_field(e, FieldId::EdgeStart(i as usize)) <==> !(match usize_value(
                trim(s.edges@[i].start@),
            ) {
                Some(v) => 1 <= v && v <= s.nodes@.len(),
                None => false,
            }))
            &&& i < s.edges@.len() ==> (has_field(e, FieldId::EdgeEnd(i as usize)) <==> !(match usize_value(
                trim(s.edges@[i].end@),
            ) {
                Some(v) => 1 <= v && v <= s.nodes@.len(),
                None => false,
            }))
            &&& i < s.edges@.len() ==> (has_field(e, FieldId::EdgeTag(i as usize)) <==> !(match i64_value(
                trim(s.edges@[i].tag@),
            ) {
                Some(t) => t >= 1,
                None => false,
            }))
        }),
{
    let n = s.nodes@.len();
    let dxs: Seq<(FieldId, Seq<char>)> = if dx_ok {
        seq![]
    } else {
        seq![(FieldId::Dx, spacing_xy_message())]
    };
    let dys: Seq<(FieldId, Seq<char>)> = if dy_ok {
        seq![]
    } else {
        seq![(FieldId::Dy, spacing_xy_message())]
    };
    let ns = node_errors(coords_ok, n);
    let es = edge_errors(s.edges@, n as int, s.edges@.len());
    assert(structured_errors(s, dx_ok, dy_ok, coords_ok) == dxs + dys + ns + es);
    let fields = seq![
        FieldId::Dx,
        FieldId::Dy,
        FieldId::NodeX(i as usize),
        FieldId::NodeY(i as usize),
        FieldId::EdgeStart(i as usize),
        FieldId::EdgeEnd(i as usize),
        FieldId::EdgeTag(i as usize),
    ];
    assert forall|q: int| 0 <= q < 7 implies {
        let f = #[trigger] fields[q];
        &&& has_field(dxs + dys + ns + es, f) <==> has_field(dxs, f) || has_field(dys, f) || has_field(ns, f)
            || has_field(es, f)
        &&& (has_field(dxs, f) <==> !dx_ok && f == FieldId::Dx)
        &&& (has_field(dys, f) <==> !dy_ok && f == FieldId::Dy)
        &&& (has_field(ns, f) <==> exists|j: int|
            0 <= j < n && #[trigger] has_field(
                coord_errors(coords_ok[j], FieldId::NodeX(j as usize), FieldId::NodeY(j as usize)),
                f,
            ))
        &&& (has_field(es, f) <==> exists|j: int|
            0 <= j < s.edges@.len() && #[trigger] has_field(edge_row_errors(s.edges@[j], j, n as int), f))
    } by {
        let f = fields[q];
        lemma_has_field_add(dxs + dys + ns, es, f);
        lemma_has_field_add(dxs + dys, ns, f);
        lemma_has_field_add(dxs, dys, f);
        lemma_has_field_small(dxs, f);
        lemma_has_field_small(dys, f);
        lemma_node_errors_fields(coords_ok, n, f);
        lemma_edge_errors_fields(s.edges@, n as int, s.edges@.len(), f);
    }
    // Which row can hold which field.
    assert forall|j: int, f: FieldId| 0 <= j < n && #[trigger] has_field(
        coord_errors(coords_ok[j], FieldId::NodeX(j as usize), FieldId::NodeY(j as usize)),
        f,
    ) implies (f == FieldId::NodeX(j as usize) && !coords_ok[j].0) || (f == FieldId::NodeY(j as usize)
        && !coords_ok[j].1) by {
        let a: Seq<(FieldId, Seq<char>)> = if coords_ok[j].0 {
            seq![]
        } else {
            seq![(FieldId::NodeX(j as usize), number_message())]
        };
        let b: Seq<(FieldId, Seq<char>)> = if coords_ok[j].1 {
            seq![]
        } else {
            seq![(FieldId::NodeY(j as usize), number_message())]
        };
        lemma_has_field_add(a, b, f);
        lemma_has_field_small(a, f);
        lemma_has_field_small(b, f);
    }
    assert forall|j: int, f: FieldId| 0 <= j < s.edges@.len() && #[trigger] has_field(
        edge_row_errors(s.edges@[j], j, n as int),
        f,
    ) implies (f == FieldId::EdgeStart(j as usize) && !node_ref_ok(s.edges@[j].start@, n as int)) || (f
        == FieldId::EdgeEnd(j as usize) && !node_ref_ok(s.edges@[j].end@, n as int)) || (f == FieldId::EdgeTag(
        j as usize,
    ) && !tag_ok(s.edges@[j].tag@)) by {
        let g = s.edges@[j];
        let a: Seq<(FieldId, Seq<char>)> = if node_ref_ok(g.start@, n as int) {
            seq![]
        } else {
            seq![(FieldId::EdgeStart(j as usize), node_range_message())]
        };
        let b: Seq<(FieldId, Seq<char>)> = if node_ref_ok(g.end@, n as int) {
            seq![]
        } else {
            seq![(FieldId::EdgeEnd(j as usize), node_range_message())]
        };
        let c: Seq<(FieldId, Seq<char>)> = if tag_ok(g.tag@) {
            seq![]
        } else {
            seq![(FieldId::EdgeTag(j as usize), tag_message())]
        };
        assert(edge_row_errors(g, j, n as int) == a + b + c);
        lemma_has_field_add(a + b, c, f);
        lemma_has_field_add(a, b, f);
        lemma_has_field_small(a, f);
        lemma_has_field_small(b, f);
        lemma_has_field_small(c, f);
    }
    // And each failing condition puts its field in its own row.
    if i < n {
        let a: Seq<(FieldId, Seq<char>)> = if coords_ok[i].0 {
            seq![]
        } else {
            seq![(FieldId::NodeX(i as usize), number_message())]
        };
        let b: Seq<(FieldId, Seq<char>)> = if coords_ok[i].1 {
            seq![]
        } else {
            seq![(FieldId::NodeY(i as usize), number_message())]
        };
        let r = coord_errors(coords_ok[i], FieldId::NodeX(i as usize), FieldId::NodeY(i as usize));
        lemma_has_field_add(a, b, FieldId::NodeX(i as usize));
        lemma_has_field_add(a, b, FieldId::NodeY(i as usize));
        lemma_has_field_small(a, FieldId::NodeX(i as usize));
        lemma_has_field_small(b, FieldId::NodeY(i as usize));
        lemma_has_field_small(a, FieldId::NodeY(i as usize));
        lemma_has_field_small(b, FieldId::NodeX(i as usize));
        assert(fields[2] == FieldId::NodeX(i as usize));
        assert(fields[3] == FieldId::NodeY(i as usize));
        if !coords_ok[i].0 {
            assert(has_field(r, FieldId::NodeX(i as usize)));
        }
        if !coords_ok[i].1 {
            assert(has_field(r, FieldId::NodeY(i as usize)));
        }
    }
    if i < s.edges@.len() {
        let g = s.edges@[i];
        let a: Seq<(FieldId, Seq<char>)> = if node_ref_ok(g.start@, n as int) {
            seq![]
        } else {
            seq![(FieldId::EdgeStart(i as usize), node_range_message())]
        };
        let b: Seq<(FieldId, Seq<char>)> = if node_ref_ok(g.end@, n as int) {
            seq![]
        } else {
            seq![(FieldId::EdgeEnd(i as usize), node_range_message())]
        };
        let c: Seq<(FieldId, Seq<char>)> = if tag_ok(g.tag@) {
            seq![]
        } else {
            seq![(FieldId::EdgeTag(i as usize), tag_message())]
        };
        let r = edge_row_errors(g, i, n as int);
        assert(r == a + b + c);
        assert(fields[4] == FieldId::EdgeStart(i as usize));
        assert(fields[5] == FieldId::EdgeEnd(i as usize));
        assert(fields[6] == FieldId::EdgeTag(i as usize));
        if !node_ref_ok(g.start@, n as int) {
            assert(r[0].0 == FieldId::EdgeStart(i as usize));
            assert(has_field(r, FieldId::EdgeStart(i as usize)));
        }
        if !node_ref_ok(g.end@, n as int) {
            assert(r[a.len() as int].0 == FieldId::EdgeEnd(i as usize));
            assert(has_field(r, FieldId::EdgeEnd(i as usize)));
        }
        if !tag_ok(g.tag@) {
            assert(r[(a.len() + b.len()) as int].0 == FieldId::EdgeTag(i as usize));
            assert(has_field(r, FieldId::EdgeTag(i as usize)));
        }
    }
    assert(fields[0] == FieldId::Dx);
    assert(fields[1] == FieldId::Dy);
}

/// Which point and marker fields the EasyMesh validation reports, each by a
/// condition on the input written out: `PointX(i)` / `PointY(i)` exactly when
/// that coordinate of point `i` is not a number, `PointSpacing(i)` exactly
/// when its spacing is not a positive number, `PointMarker(i)` exactly when
/// its trimmed marker is not an integer, and `SegmentMarker(i)` exactly when
/// segment `i`'s trimmed marker is not an integer.
#[verifier::spinoff_prover]
#[verifier::rlimit(80)]
pub proof fn lemma_easymesh_fields(
    s: EasyMeshState,
    coords_ok: Seq<(bool, bool)>,
    spacing_ok: Seq<bool>,
    i: int,
)
    requires
        coords_ok.len() == s.points@.len(),
        spacing_ok.len() == s.points@.len(),
        s.points@.len() <= usize::MAX,
        s.segments@.len() <= usize::MAX,
        0 <= i,
    ensures
        ({
            let e = easymesh_errors(s, coords_ok, spacing_ok);
            &&& i < s.points@.len() ==> (has_field(e, FieldId::PointX(i as usize)) <==> !coords_ok[i].0)
            &&& i < s.points@.len() ==> (has_field(e, FieldId::PointY(i as usize)) <==> !coords_ok[i].1)
            &&& i < s.points@.len() ==> (has_field(e, FieldId::PointSpacing(i as usize)) <==> !spacing_ok[i])
            &&& i < s.points@.len() ==> (has_field(e, FieldId::PointMarker(i as usize)) <==> i64_value(
                trim(s.points@[i].marker@),
            ) is None)
            &&& i < s.segments@.len() ==> (has_field(e, FieldId::SegmentMarker(i as usize)) <==> i64_value(
                trim(s.segments@[i].marker@),
            ) is None)
        }),
{
    let n = s.points@.len();
    let m = s.segments@.len();
    let pe = point_errors(s.points@, coords_ok, spacing_ok, n);
    let se = segment_errors(s.segments@, n as int, m);
    let fields = seq![
        FieldId::PointX(i as usize),
        FieldId::PointY(i as usize),
        FieldId::PointSpacing(i as usize),
        FieldId::PointMarker(i as usize),
        FieldId::SegmentMarker(i as usize),
    ];
    assert forall|q: int| 0 <= q < 5 implies {
        let f = #[trigger] fields[q];
        &&& has_field(pe + se, f) <==> has_field(pe, f) || has_field(se, f)
        &&& (has_field(pe, f) <==> exists|j: int|
            0 <= j < n && #[trigger] has_field(point_row_errors(s.points@[j], coords_ok[j], spacing_ok[j], j), f))
        &&& (has_field(se, f) <==> exists|j: int|
            0 <= j < m && #[trigger] has_field(segment_row_errors(s.segments@[j], j, n as int), f))
    } by {
        let f = fields[q];
        lemma_has_field_add(pe, se, f);
        lemma_point_errors_fields(s.points@, coords_ok, spacing_ok, n, f);
        lemma_segment_errors_fields(s.segments@, n as int, m, f);
    }
    assert forall|j: int, f: FieldId| 0 <= j < n && #[trigger] has_field(
        point_row_errors(s.points@[j], coords_ok[j], spacing_ok[j], j),
        f,
    ) implies (f == FieldId::PointX(j as usize) && !coords_ok[j].0) || (f == FieldId::PointY(j as usize)
        && !coords_ok[j].1) || (f == FieldId::PointSpacing(j as usize) && !spacing_ok[j]) || (f
        == FieldId::PointMarker(j as usize) && !marker_ok(s.points@[j].marker@)) by {
        let c = coords_ok[j];
        let xs: Seq<(FieldId, Seq<char>)> = if c.0 {
            seq![]
        } else {
            seq![(FieldId::PointX(j as usize), number_message())]
        };
        let ys: Seq<(FieldId, Seq<char>)> = if c.1 {
            seq![]
        } else {
            seq![(FieldId::PointY(j as usize), number_message())]
        };
        let ss: Seq<(FieldId, Seq<char>)> = if spacing_ok[j] {
            seq![]
        } else {
            seq![(FieldId::PointSpacing(j as usize), point_spacing_message())]
        };
        let ms: Seq<(FieldId, Seq<char>)> = if marker_ok(s.points@[j].marker@) {
            seq![]
        } else {
            seq![(FieldId::PointMarker(j as usize), marker_int_message())]
        };
        assert(point_row_errors(s.points@[j], c, spacing_ok[j], j) == xs + ys + ss + ms);
        lemma_has_field_add(xs + ys + ss, ms, f);
        lemma_has_field_add(xs + ys, ss, f);
        lemma_has_field_add(xs, ys, f);
        lemma_has_field_small(xs, f);
        lemma_has_field_small(ys, f);
        lemma_has_field_small(ss, f);
        lemma_has_field_small(ms, f);
    }
    assert forall|j: int, f: FieldId| 0 <= j < m && #[trigger] has_field(
        segment_row_errors(s.segments@[j], j, n as int),
        f,
    ) implies f is SegmentStart || f is SegmentEnd || (f == FieldId::SegmentMarker(j as usize) && !marker_ok(
        s.segments@[j].marker@,
    )) by {
        let g = s.segments@[j];
        let st: Seq<(FieldId, Seq<char>)> = if point_ref_ok(g.start@, n as int) {
            seq![]
        } else {
            seq![(FieldId::SegmentStart(j as usize), point_range_message())]
        };
        let en: Seq<(FieldId, Seq<char>)> = if point_ref_ok(g.end@, n as int) {
            seq![]
        } else {
            seq![(FieldId::SegmentEnd(j as usize), point_range_message())]
        };
        let ms: Seq<(FieldId, Seq<char>)> = if marker_ok(g.marker@) {
            seq![]
        } else {
            seq![(FieldId::SegmentMarker(j as usize), marker_int_message())]
        };
        assert(segment_row_errors(g, j, n as int) == st + en + ms);
        lemma_has_field_add(st + en, ms, f);
        lemma_has_field_add(st, en, f);
        lemma_has_field_small(st, f);
        lemma_has_field_small(en, f);
        lemma_has_field_small(ms, f);
    }
    if i < n {
        let p = s.points@[i];
        let c = coords_ok[i];
        let xs: Seq<(FieldId, Seq<char>)> = if c.0 {
            seq![]
        } else {
            seq![(FieldId::PointX(i as usize), number_message())]
        };
        let ys: Seq<(FieldId, Seq<char>)> = if c.1 {
            seq![]
        } else {
            seq![(FieldId::PointY(i as usize), number_message())]
        };
        let ss: Seq<(FieldId, Seq<char>)> = if spacing_ok[i] {
            seq![]
        } else {
            seq![(FieldId::PointSpacing(i as usize), point_spacing_message())]
        };
        let ms: Seq<(FieldId, Seq<char>)> = if marker_ok(p.marker@) {
            seq![]
        } else {
            seq![(FieldId::PointMarker(i as usize), marker_int_message())]
        };
        let r = point_row_errors(p, c, spacing_ok[i], i);
        assert(r == xs + ys + ss + ms);
        assert(fields[0] == FieldId::PointX(i as usize));
        assert(fields[1] == FieldId::PointY(i as usize));
        assert(fields[2] == FieldId::PointSpacing(i as usize));
        assert(fields[3] == FieldId::PointMarker(i as usize));
        if !c.0 {
            assert(r[0].0 == FieldId::PointX(i as usize));
            assert(has_field(r, FieldId::PointX(i as usize)));
        }
        if !c.1 {
            assert(r[xs.len() as int].0 == FieldId::PointY(i as usize));
            assert(has_field(r, FieldId::PointY(i as usize)));
        }
        if !spacing_ok[i] {
            assert(r[(xs.len() + ys.len()) as int].0 == FieldId::PointSpacing(i as usize));
            assert(has_field(r, FieldId::PointSpacing(i as usize)));
        }
        if !marker_ok(p.marker@) {
            assert(r[(xs.len() + ys.len() + ss.len()) as int].0 == FieldId::PointMarker(i as usize));
            assert(has_field(r, FieldId::PointMarker(i as usize)));
        }
    }
    if i < m {
        let g = s.segments@[i];
        let st: Seq<(FieldId, Seq<char>)> = if point_ref_ok(g.start@, n as int) {
            seq![]
        } else {
            seq![(FieldId::SegmentStart(i as usize), point_range_message())]
        };
        let en: Seq<(FieldId, Seq<char>)> = if point_ref_ok(g.end@, n as int) {
            seq![]
        } else {
            seq![(FieldId::SegmentEnd(i as usize), point_range_message())]
        };
        let r = segment_row_errors(g, i, n as int);
        assert(fields[4] == FieldId::SegmentMarker(i as usize));
        if !marker_ok(g.marker@) {
            assert(r[(st.len() + en.len()) as int].0 == FieldId::SegmentMarker(i as usize));
            assert(has_field(r, FieldId::SegmentMarker(i as usize)));
        }
    }
}

} // verus!
