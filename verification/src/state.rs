//! The settings of the desktop front end: which engine is active, and for
//! each engine its input mode, the geometry tables (kept as the text the
//! user typed), the output directory and the output options.
//!
//! Paths are held as text; the front end converts them at its edge.
use vstd::prelude::*;

use crate::text::{push_str, string_of};

verus! {

/// Which mesh engine is currently active.
#[derive(Debug, Clone, Copy, PartialEq, Eq, Structural)]
pub enum Engine {
    Structured,
    EasyMesh,
}

impl Default for Engine {
    fn default() -> (e: Self)
        ensures
            e == Engine::Structured,
    {
        Engine::Structured
    }
}

/// Whether the geometry comes from a file or is typed into the tables.
#[derive(Debug, Clone, Copy, PartialEq, Eq, Structural)]
pub enum InputMode {
    File,
    Manual,
}

impl Default for InputMode {
    fn default() -> (m: Self)
        ensures
            m == InputMode::File,
    {
        InputMode::File
    }
}

// ---------------------------------------------------------------------------
// Structured engine
// ---------------------------------------------------------------------------

/// A row of the nodes table: `(x, y)` as typed.
#[derive(Debug, Clone, PartialEq)]
pub struct NodeRow {
    pub x: String,
    pub y: String,
}

impl Default for NodeRow {
    fn default() -> (r: Self)
        ensures
            r.x@ == "0.0"@,
            r.y@ == "0.0"@,
    {
        NodeRow { x: string_of("0.0"), y: string_of("0.0") }
    }
}

/// A row of the edges table: start node, end node (both 1-based) and
/// region tag, as typed.
#[derive(Debug, Clone, PartialEq)]
pub struct EdgeRow {
    pub start: String,
    pub end: String,
    pub tag: String,
}

impl Default for EdgeRow {
    fn default() -> (r: Self)
        ensures
            r.start@ == "1"@,
            r.end@ == "2"@,
            r.tag@ == "1"@,
    {
        EdgeRow { start: string_of("1"), end: string_of("2"), tag: string_of("1") }
    }
}

/// All settings of the Structured Mesh engine.
#[derive(Debug, Clone, PartialEq)]
pub struct StructuredState {
    pub input_mode: InputMode,
    /// The geometry file (File mode).
    pub file_path: Option<String>,
    /// Cell spacing in x, as typed (Manual mode).
    pub dx: String,
    /// Cell spacing in y, as typed (Manual mode).
    pub dy: String,
    pub nodes: Vec<NodeRow>,
    pub selected_node: Option<usize>,
    pub edges: Vec<EdgeRow>,
    pub selected_edge: Option<usize>,
    pub output_dir: Option<String>,
    pub fmt_fepoint: bool,
    pub fmt_zones: bool,
    pub fmt_vtk: bool,
    pub fmt_text: bool,
}

impl Default for StructuredState {
    /// File mode, empty tables, output to `outputs`, no format chosen.
    fn default() -> (s: Self)
        ensures
            s.input_mode == InputMode::File,
            s.file_path is None,
            s.dx@.len() == 0,
            s.dy@.len() == 0,
            s.nodes@.len() == 0,
            s.selected_node is None,
            s.edges@.len() == 0,
            s.selected_edge is None,
            s.output_dir matches Some(d) && d@ == "outputs"@,
            !s.fmt_fepoint,
            !s.fmt_zones,
            !s.fmt_vtk,
            !s.fmt_text,
    {
        StructuredState {
            input_mode: InputMode::File,
            file_path: None,
            dx: String::new(),
            dy: String::new(),
            nodes: Vec::new(),
            selected_node: None,
            edges: Vec::new(),
            selected_edge: None,
            output_dir: Some(string_of("outputs")),
            fmt_fepoint: false,
            fmt_zones: false,
            fmt_vtk: false,
            fmt_text: false,
        }
    }
}

// ---------------------------------------------------------------------------
// EasyMesh engine
// ---------------------------------------------------------------------------

/// A row of the points table: `x`, `y`, spacing and marker, as typed.
#[derive(Debug, Clone, PartialEq)]
pub struct PointRow {
    pub x: String,
    pub y: String,
    pub spacing: String,
    pub marker: String,
}

impl Default for PointRow {
    fn default() -> (r: Self)
        ensures
            r.x@ == "0.0"@,
            r.y@ == "0.0"@,
            r.spacing@ == "0.25"@,
            r.marker@ == "1"@,
    {
        PointRow {
            x: string_of("0.0"),
            y: string_of("0.0"),
            spacing: string_of("0.25"),
            marker: string_of("1"),
        }
    }
}

/// A row of the segments table: start point, end point (both 0-based) and
/// marker, as typed.
#[derive(Debug, Clone, PartialEq)]
pub struct SegmentRow {
    pub start: String,
    pub end: String,
    pub marker: String,
}

impl Default for SegmentRow {
    fn default() -> (r: Self)
        ensures
            r.start@ == "0"@,
            r.end@ == "1"@,
            r.marker@ == "1"@,
    {
        SegmentRow { start: string_of("0"), end: string_of("1"), marker: string_of("1") }
    }
}

/// All settings of the EasyMesh engine.
#[derive(Debug, Clone, PartialEq)]
pub struct EasyMeshState {
    pub input_mode: InputMode,
    /// The `.d` input file (File mode).
    pub file_path: Option<String>,
    pub points: Vec<PointRow>,
    pub selected_point: Option<usize>,
    pub segments: Vec<SegmentRow>,
    pub selected_segment: Option<usize>,
    pub output_dir: Option<String>,
    pub fmt_tec: bool,
    pub fmt_vtk: bool,
    pub fmt_eps: bool,
    /// `+a` level, 0 to 6; 0 leaves the option out.
    pub aggressiveness: u8,
    pub skip_relaxation: bool,
    pub skip_smoothing: bool,
    pub boundary_only: bool,
    pub suppress_messages: bool,
    /// Path of the `Easy` / `Easy.exe` executable.
    pub easymesh_binary: String,
}

/// `std::path::MAIN_SEPARATOR`, the separator of path components on the
/// platform the program was built for: `/` on Unix, `\` on Windows. Which
/// of the two it is depends on the target and is not stated.
#[verifier::external_body]
pub(crate) fn main_separator() -> (c: char)
    ensures
        c == '/' || c == '\\',
{
    std::path::MAIN_SEPARATOR
}

/// The name of the EasyMesh executable on a platform whose path separator
/// is `separator`: `Easy.exe` on Windows (`\`), `Easy` elsewhere.
pub open spec fn binary_name(separator: char) -> Seq<char> {
    if separator == '\\' {
        "Easy.exe"@
    } else {
        "Easy"@
    }
}

/// The EasyMesh executable's name for the platform whose path separator is
/// `separator`.
pub fn binary_name_for(separator: char) -> (name: &'static str)
    ensures
        name@ == binary_name(separator),
{
    if separator == '\\' {
        "Easy.exe"
    } else {
        "Easy"
    }
}

/// The EasyMesh executable's name for the platform this program runs on.
pub fn expected_binary_name() -> (name: &'static str)
    ensures
        name@ == "Easy"@ || name@ == "Easy.exe"@,
{
    binary_name_for(main_separator())
}

/// `EasyMesh<sep>Src<sep><binary>`, the path of the executable relative to
/// the working directory.
pub open spec fn relative_binary_path(separator: char) -> Seq<char> {
    "EasyMesh"@ + seq![separator] + "Src"@ + seq![separator] + binary_name(separator)
}

/// The executable's path relative to the working directory, on the platform
/// whose path separator is `separator`.
pub fn relative_binary_path_for(separator: char) -> (p: String)
    ensures
        p@ == relative_binary_path(separator),
{
    let mut p = string_of("EasyMesh");
    p.push(separator);
    push_str(&mut p, "Src");
    p.push(separator);
    push_str(&mut p, binary_name_for(separator));
    p
}

impl EasyMeshState {
    /// The default settings, with `binary` as the executable's path: File
    /// mode, empty tables, no output directory, no format, aggressiveness 0,
    /// every toggle off.
    pub fn with_binary(binary: String) -> (s: Self)
        ensures
            s.input_mode == InputMode::File,
            s.file_path is None,
            s.points@.len() == 0,
            s.selected_point is None,
            s.segments@.len() == 0,
            s.selected_segment is None,
            s.output_dir is None,
            !s.fmt_tec,
            !s.fmt_vtk,
            !s.fmt_eps,
            s.aggressiveness == 0,
            !s.skip_relaxation,
            !s.skip_smoothing,
            !s.boundary_only,
            !s.suppress_messages,
            s.easymesh_binary == binary,
    {
        EasyMeshState {
            input_mode: InputMode::File,
            file_path: None,
            points: Vec::new(),
            selected_point: None,
            segments: Vec::new(),
            selected_segment: None,
            output_dir: None,
            fmt_tec: false,
            fmt_vtk: false,
            fmt_eps: false,
            aggressiveness: 0,
            skip_relaxation: false,
            skip_smoothing: false,
            boundary_only: false,
            suppress_messages: false,
            easymesh_binary: binary,
        }
    }
}

impl Default for EasyMeshState {
    /// The default settings, with the executable at `EasyMesh/Src/<binary>`
    /// relative to the working directory.
    fn default() -> (s: Self)
        ensures
            s.input_mode == InputMode::File,
            s.file_path is None,
            s.points@.len() == 0,
            s.selected_point is None,
            s.segments@.len() == 0,
            s.selected_segment is None,
            s.output_dir is None,
            !s.fmt_tec,
            !s.fmt_vtk,
            !s.fmt_eps,
            s.aggressiveness == 0,
            !s.skip_relaxation,
            !s.skip_smoothing,
            !s.boundary_only,
            !s.suppress_messages,
            exists|sep: char| s.easymesh_binary@ == #[trigger] relative_binary_path(sep),
    {
        let sep = main_separator();
        EasyMeshState::with_binary(relative_binary_path_for(sep))
    }
}

// ---------------------------------------------------------------------------
// The whole project
// ---------------------------------------------------------------------------

/// Every setting of the front end, as saved to and loaded from a project file.
#[derive(Debug, Clone, PartialEq)]
pub struct ProjectState {
    pub selected_engine: Engine,
    pub structured: StructuredState,
    pub easymesh: EasyMeshState,
}

impl Default for ProjectState {
    /// The Structured engine selected, both engines at their defaults.
    fn default() -> (p: Self)
        ensures
            p.selected_engine == Engine::Structured,
            p.structured.input_mode == InputMode::File,
            p.structured.file_path is None,
            p.structured.dx@.len() == 0,
            p.structured.dy@.len() == 0,
            p.structured.nodes@.len() == 0,
            p.structured.edges@.len() == 0,
            p.structured.output_dir matches Some(d) && d@ == "outputs"@,
            p.easymesh.input_mode == InputMode::File,
            p.easymesh.points@.len() == 0,
            p.easymesh.segments@.len() == 0,
            p.easymesh.output_dir is None,
    {
        ProjectState {
            selected_engine: Engine::default(),
            structured: StructuredState::default(),
            easymesh: EasyMeshState::default(),
        }
    }
}

// ---------------------------------------------------------------------------
// Removing the selected row of a table
// ---------------------------------------------------------------------------

/// The selection after the row at `idx` was removed and `len` rows are
/// left: none when the table is empty, else the row before `idx` (the first
/// row when `idx` was the first), kept within the table.
pub open spec fn selection_after_removal(idx: int, len: int) -> Option<usize> {
    if len == 0 {
        None
    } else {
        let before = if idx >= 1 { idx - 1 } else { 0 };
        Some((if before < len - 1 { before } else { len - 1 }) as usize)
    }
}

/// Removes the selected row of a table and moves the selection to a row
/// that still exists. Nothing changes when no row, or a row past the end,
/// is selected.
pub fn remove_selected<T>(rows: &mut Vec<T>, selected: &mut Option<usize>)
    ensures
        match *old(selected) {
            Some(i) if i < old(rows)@.len() => {
                &&& final(rows)@ == old(rows)@.remove(i as int)
                &&& *final(selected) == selection_after_removal(i as int, old(rows)@.len() - 1)
            },
            _ => final(rows)@ == old(rows)@ && *final(selected) == *old(selected),
        },
{
    match *selected {
        Some(idx) => {
            if idx < rows.len() {
                rows.remove(idx);
                let len = rows.len();
                if len == 0 {
                    *selected = None;
                } else {
                    let before: usize = if idx >= 1 { idx - 1 } else { 0 };
                    *selected = Some(if before < len - 1 { before } else { len - 1 });
                }
            }
        },
        None => {},
    }
}

/// After a removal the selection stays inside the table: none exactly when
/// the table became empty, else a row that exists.
pub proof fn lemma_selection_in_bounds(idx: int, len: int)
    requires
        0 <= idx <= len,
    ensures
        selection_after_removal(idx, len) is None <==> len == 0,
        selection_after_removal(idx, len) matches Some(k) ==> k < len,
{
}

} // verus!
