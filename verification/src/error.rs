//! The error type of the mesh pipeline.
//!
//! | Variant | When it occurs |
//! |---|---|
//! | `Io` | An OS I/O failure (file not found, permission denied, …) |
//! | `Parse` | Malformed token in the geometry or project file |
//! | `GridTooLarge` | Grid exceeds a caller-supplied cap |
//! | `OddIntersectionCount` | A scanline hits an odd number of edges |
//! | `NodeIndexOutOfRange` | An edge record references a node that does not exist |
//! | `OrphanedHole` | A CW (hole) boundary has no enclosing CCW outer boundary |
//! | `DivisionByZero` | Degenerate geometry triggered a zero-denominator guard |
use vstd::prelude::*;

verus! {

/// `std::io::Error`, carried opaquely by [`MeshError::Io`].
#[verifier::external_type_specification]
#[verifier::external_body]
pub struct ExIoError(std::io::Error);

/// Canonical error type for the mesh generator.
#[derive(Debug)]
pub enum MeshError {
    /// An OS-level I/O error.
    Io(std::io::Error),
    /// Malformed input at a specific line of a source file.
    Parse { line: usize, msg: String },
    /// The computed grid dimensions exceed the requested cap.
    GridTooLarge { nx: usize, ny: usize },
    /// A scanline produced an odd number of boundary intersections.
    OddIntersectionCount { scanline: usize, axis: &'static str, count: usize },
    /// An edge record references a node index outside the node list.
    NodeIndexOutOfRange { edge: usize, node: usize },
    /// A clockwise (hole) boundary has no enclosing counter-clockwise boundary.
    OrphanedHole { hole_region_tag: i32 },
    /// A division-by-zero guard was triggered by degenerate geometry.
    DivisionByZero { context: &'static str },
}

/// What a parse error says, with the message as characters.
pub open spec fn is_parse_error(e: MeshError, line: int, msg: Seq<char>) -> bool {
    e matches MeshError::Parse { line: l, msg: m } && l == line && m@ == msg
}

/// A parse error at `line` with message `msg`.
pub fn parse_error(line: usize, msg: String) -> (e: MeshError)
    ensures
        is_parse_error(e, line as int, msg@),
{
    MeshError::Parse { line, msg }
}

} // verus!
