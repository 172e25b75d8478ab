//! Scanline rasterisation of a polygon onto the cell grid, and the quad-mesh
//! connectivity built from the filled grid.
//!
//! The grid is `matr[col][row]` (0-based storage, 1-based in records).  Each
//! horizontal scanline (row `j`) crosses some boundary edges; each crossing is
//! given here as the *cell base* of its coordinate — `int((x - xm0 - dx/2)/dx)`
//! — together with the edge's region tag, in ascending coordinate order.  The
//! crossings are taken in pairs: the pair `(a, b)` spans the columns
//! `i1 = a + 2 ..= i2 = b + 1`; the first and last cells get the left and right
//! tags and the cells between become `1` (interior).  A scanline with an odd
//! number of crossings means the boundary is not closed or crosses itself,
//! and the fill fails with [`MeshError::OddIntersectionCount`] for the first
//! such scanline (rows before columns).  The vertical pass does the same per column,
//! except that an interior cell becomes `1` only while it holds less than `2`,
//! so boundary tags of the horizontal pass survive.
//!
//! Cell values: `0` exterior, `1` interior, `≥ 2` boundary tag.
use vstd::prelude::*;

use crate::error::MeshError;
use crate::fill_laws::{
    cell_from, lemma_cells_hold_crossing_tags, lemma_row_ends_keep_tags, sorted_lines,
    tags_at_least_two,
};

verus! {

// ---------------------------------------------------------------------------
// Records
// ---------------------------------------------------------------------------

/// One row span: columns `i1..=i2` of row `j0` (all 1-based).
#[derive(Debug, Clone, Copy, PartialEq, Eq, Structural)]
pub struct RowRecord {
    /// Left column index, 1-based.
    pub i1: usize,
    /// Right column index, 1-based.
    pub i2: usize,
    /// Row index, 1-based.
    pub j0: usize,
    /// Left boundary tag.
    pub kn_left: i32,
    /// Right boundary tag.
    pub kn_right: i32,
}

/// One column span: rows `j1..=j2` of column `i0` (all 1-based).
#[derive(Debug, Clone, Copy, PartialEq, Eq, Structural)]
pub struct ColRecord {
    /// Bottom row index, 1-based.
    pub j1: usize,
    /// Top row index, 1-based.
    pub j2: usize,
    /// Column index, 1-based.
    pub i0: usize,
    /// Bottom boundary tag.
    pub kn_bot: i32,
    /// Top boundary tag.
    pub kn_top: i32,
}

/// The filled grid and its span records.
#[derive(Debug)]
pub struct Raster {
    /// Cell classification, `matr[col][row]`, size `nx × ny`.
    pub matr: Vec<Vec<i32>>,
    /// Row spans from the horizontal pass, in order.
    pub row_records: Vec<RowRecord>,
    /// Column spans from the vertical pass, in order.
    pub col_records: Vec<ColRecord>,
    pub nx: usize,
    pub ny: usize,
}

// ---------------------------------------------------------------------------
// Specification: spans
// ---------------------------------------------------------------------------

/// A span along one scanline: cells `lo..=hi` (1-based) of scanline `line`,
/// with the tags of its two ends.
pub struct Span {
    pub lo: int,
    pub hi: int,
    pub line: int,
    pub tlo: i32,
    pub thi: i32,
}

pub open spec fn row_span(r: RowRecord) -> Span {
    Span { lo: r.i1 as int, hi: r.i2 as int, line: r.j0 as int, tlo: r.kn_left, thi: r.kn_right }
}

pub open spec fn col_span(c: ColRecord) -> Span {
    Span { lo: c.j1 as int, hi: c.j2 as int, line: c.i0 as int, tlo: c.kn_bot, thi: c.kn_top }
}

/// The span of the crossing pair `(a, b)` on scanline `line`, if it fits in
/// `1..=bound`.
pub open spec fn pair_span(a: (usize, i32), b: (usize, i32), line: int, bound: int) -> Option<Span> {
    let lo = a.0 + 2;
    let hi = b.0 + 1;
    if lo <= hi && hi <= bound {
        Some(Span { lo, hi, line, tlo: a.1, thi: b.1 })
    } else {
        None
    }
}

/// Spans of the first `p` crossing pairs of one scanline.
pub open spec fn pair_spans(l: Seq<(usize, i32)>, line: int, bound: int, p: nat) -> Seq<Span>
    decreases p,
{
    if p == 0 {
        seq![]
    } else {
        let prev = pair_spans(l, line, bound, (p - 1) as nat);
        match pair_span(l[2 * p - 2], l[2 * p - 1], line, bound) {
            Some(s) => prev.push(s),
            None => prev,
        }
    }
}

/// Spans of one scanline: none when its crossing count is odd.
pub open spec fn line_spans(l: Seq<(usize, i32)>, line: int, bound: int) -> Seq<Span> {
    if l.len() % 2 != 0 {
        seq![]
    } else {
        pair_spans(l, line, bound, l.len() / 2)
    }
}

/// Spans of the first `r` scanlines, in order.
pub open spec fn scan_spans(lines: Seq<Seq<(usize, i32)>>, bound: int, r: nat) -> Seq<Span>
    decreases r,
{
    if r == 0 {
        seq![]
    } else {
        scan_spans(lines, bound, (r - 1) as nat) + line_spans(lines[r - 1], r as int, bound)
    }
}

/// Scanlines (1-based) among the first `r` with an odd crossing count.
pub open spec fn odd_lines(lines: Seq<Seq<(usize, i32)>>, r: nat) -> Seq<(usize, usize)>
    decreases r,
{
    if r == 0 {
        seq![]
    } else if lines[r - 1].len() % 2 != 0 {
        odd_lines(lines, (r - 1) as nat).push((r as usize, lines[r - 1].len() as usize))
    } else {
        odd_lines(lines, (r - 1) as nat)
    }
}

// ---------------------------------------------------------------------------
// Specification: cell values
// ---------------------------------------------------------------------------

/// Value of cell `(i, j)` (0-based column, row) after painting the row spans.
pub open spec fn row_cell(spans: Seq<Span>, i: int, j: int) -> i32
    decreases spans.len(),
{
    if spans.len() == 0 {
        0
    } else {
        let s = spans.last();
        if s.line - 1 == j && s.lo - 1 <= i <= s.hi - 1 {
            if i == s.hi - 1 {
                s.thi
            } else if i == s.lo - 1 {
                s.tlo
            } else {
                1
            }
        } else {
            row_cell(spans.drop_last(), i, j)
        }
    }
}

/// Value of cell `(i, j)` after painting the row spans, then the column spans.
pub open spec fn grid_cell(rows: Seq<Span>, cols: Seq<Span>, i: int, j: int) -> i32
    decreases cols.len(),
{
    if cols.len() == 0 {
        row_cell(rows, i, j)
    } else {
        let s = cols.last();
        let prev = grid_cell(rows, cols.drop_last(), i, j);
        if s.line - 1 == i && s.lo - 1 <= j <= s.hi - 1 {
            if j == s.hi - 1 {
                s.thi
            } else if j == s.lo - 1 {
                s.tlo
            } else if prev < 2 {
                1
            } else {
                prev
            }
        } else {
            prev
        }
    }
}

/// `m` is an `nx × ny` grid of columns.
pub open spec fn grid_dims(m: Seq<Vec<i32>>, nx: int, ny: int) -> bool {
    &&& m.len() == nx
    &&& forall|i: int| 0 <= i < nx ==> #[trigger] m[i]@.len() == ny
}

// ---------------------------------------------------------------------------
// Painting
// ---------------------------------------------------------------------------

fn paint_row_span(m: &mut Vec<Vec<i32>>, nx: usize, ny: usize, r: RowRecord)
    requires
        grid_dims(old(m)@, nx as int, ny as int),
        1 <= r.i1 <= r.i2 <= nx,
        1 <= r.j0 <= ny,
    ensures
        grid_dims(final(m)@, nx as int, ny as int),
        forall|i: int, j: int|
            0 <= i < nx && 0 <= j < ny ==> #[trigger] final(m)@[i]@[j] == {
                let s = row_span(r);
                if s.line - 1 == j && s.lo - 1 <= i <= s.hi - 1 {
                    if i == s.hi - 1 {
                        s.thi
                    } else if i == s.lo - 1 {
                        s.tlo
                    } else {
                        1
                    }
                } else {
                    old(m)@[i]@[j]
                }
            },
{
    let j = r.j0 - 1;
    m[r.i1 - 1][j] = r.kn_left;
    m[r.i2 - 1][j] = r.kn_right;
    let mut k: usize = r.i1;
    while k < r.i2 - 1
        invariant
            grid_dims(m@, nx as int, ny as int),
            1 <= r.i1 <= r.i2 <= nx,
            j == r.j0 - 1 < ny,
            r.i1 <= k <= r.i2 - 1 || (k == r.i1 && r.i1 == r.i2),
            forall|i: int, jj: int|
                0 <= i < nx && 0 <= jj < ny ==> #[trigger] m@[i]@[jj] == if jj == j && r.i1 - 1 <= i
                    <= r.i2 - 1 && i < k {
                    if i == r.i2 - 1 {
                        r.kn_right
                    } else if i == r.i1 - 1 {
                        r.kn_left
                    } else {
                        1
                    }
                } else if jj == j && i == r.i2 - 1 {
                    r.kn_right
                } else if jj == j && i == r.i1 - 1 {
                    r.kn_left
                } else {
                    old(m)@[i]@[jj]
                },
        decreases r.i2 - k,
    {
        m[k][j] = 1;
        k = k + 1;
    }
}

fn paint_col_span(m: &mut Vec<Vec<i32>>, nx: usize, ny: usize, c: ColRecord)
    requires
        grid_dims(old(m)@, nx as int, ny as int),
        1 <= c.j1 <= c.j2 <= ny,
        1 <= c.i0 <= nx,
    ensures
        grid_dims(final(m)@, nx as int, ny as int),
        forall|i: int, j: int|
            0 <= i < nx && 0 <= j < ny ==> #[trigger] final(m)@[i]@[j] == {
                let s = col_span(c);
                let prev = old(m)@[i]@[j];
                if s.line - 1 == i && s.lo - 1 <= j <= s.hi - 1 {
                    if j == s.hi - 1 {
                        s.thi
                    } else if j == s.lo - 1 {
                        s.tlo
                    } else if prev < 2 {
                        1
                    } else {
                        prev
                    }
                } else {
                    prev
                }
            },
{
    let i = c.i0 - 1;
    m[i][c.j1 - 1] = c.kn_bot;
    m[i][c.j2 - 1] = c.kn_top;
    let mut k: usize = c.j1;
    while k < c.j2 - 1
        invariant
            grid_dims(m@, nx as int, ny as int),
            1 <= c.j1 <= c.j2 <= ny,
            i == c.i0 - 1 < nx,
            c.j1 <= k <= c.j2 - 1 || (k == c.j1 && c.j1 == c.j2),
            forall|ii: int, jj: int|
                0 <= ii < nx && 0 <= jj < ny ==> #[trigger] m@[ii]@[jj] == if ii == i && c.j1 - 1 <= jj
                    <= c.j2 - 1 && jj < k {
                    if jj == c.j2 - 1 {
                        c.kn_top
                    } else if jj == c.j1 - 1 {
                        c.kn_bot
                    } else if old(m)@[ii]@[jj] < 2 {
                        1
                    } else {
                        old(m)@[ii]@[jj]
                    }
                } else if ii == i && jj == c.j2 - 1 {
                    c.kn_top
                } else if ii == i && jj == c.j1 - 1 {
                    c.kn_bot
                } else {
                    old(m)@[ii]@[jj]
                },
        decreases c.j2 - k,
    {
        if m[i][k] < 2 {
            m[i][k] = 1;
        }
        k = k + 1;
    }
}

fn blank_grid(nx: usize, ny: usize) -> (m: Vec<Vec<i32>>)
    ensures
        grid_dims(m@, nx as int, ny as int),
        forall|i: int, j: int| 0 <= i < nx && 0 <= j < ny ==> #[trigger] m@[i]@[j] == 0,
{
    let mut m: Vec<Vec<i32>> = Vec::new();
    let mut i: usize = 0;
    while i < nx
        invariant
            i <= nx,
            grid_dims(m@, i as int, ny as int),
            forall|a: int, b: int| 0 <= a < i && 0 <= b < ny ==> #[trigger] m@[a]@[b] == 0,
        decreases nx - i,
    {
        let mut col: Vec<i32> = Vec::new();
        let mut j: usize = 0;
        while j < ny
            invariant
                j <= ny,
                col@.len() == j,
                forall|b: int| 0 <= b < j ==> #[trigger] col@[b] == 0,
            decreases ny - j,
        {
            col.push(0);
            j = j + 1;
        }
        m.push(col);
        i = i + 1;
    }
    m
}

// ---------------------------------------------------------------------------
// The two passes
// ---------------------------------------------------------------------------

proof fn lemma_push_map_row(s: Seq<RowRecord>, x: RowRecord)
    ensures
        s.push(x).map_values(|r: RowRecord| row_span(r)) == s.map_values(|r: RowRecord| row_span(r)).push(
            row_span(x),
        ),
{
    assert(s.push(x).map_values(|r: RowRecord| row_span(r)) =~= s.map_values(|r: RowRecord| row_span(r)).push(
        row_span(x),
    ));
}

proof fn lemma_push_map_col(s: Seq<ColRecord>, x: ColRecord)
    ensures
        s.push(x).map_values(|c: ColRecord| col_span(c)) == s.map_values(|c: ColRecord| col_span(c)).push(
            col_span(x),
        ),
{
    assert(s.push(x).map_values(|c: ColRecord| col_span(c)) =~= s.map_values(|c: ColRecord| col_span(c)).push(
        col_span(x),
    ));
}

/// The horizontal pass.
#[verifier::spinoff_prover]
fn x_pass(
    m: &mut Vec<Vec<i32>>,
    nx: usize,
    ny: usize,
    rows: &Vec<Vec<(usize, i32)>>,
    recs: &mut Vec<RowRecord>,
    skipped: &mut Vec<(usize, usize)>,
)
    requires
        rows@.len() == ny,
        grid_dims(old(m)@, nx as int, ny as int),
        forall|i: int, j: int| 0 <= i < nx && 0 <= j < ny ==> #[trigger] old(m)@[i]@[j] == 0,
        old(recs)@.len() == 0,
        old(skipped)@.len() == 0,
    ensures
        grid_dims(final(m)@, nx as int, ny as int),
        final(recs)@.map_values(|r: RowRecord| row_span(r)) == scan_spans(
            rows@.map_values(|l: Vec<(usize, i32)>| l@),
            nx as int,
            ny as nat,
        ),
        final(skipped)@ == odd_lines(rows@.map_values(|l: Vec<(usize, i32)>| l@), ny as nat),
        forall|i: int, j: int|
            0 <= i < nx && 0 <= j < ny ==> #[trigger] final(m)@[i]@[j] == row_cell(
                final(recs)@.map_values(|r: RowRecord| row_span(r)),
                i,
                j,
            ),
{
    let ghost lines = rows@.map_values(|l: Vec<(usize, i32)>| l@);
    let mut r: usize = 0;
    while r < ny
        invariant
            r <= ny,
            rows@.len() == ny,
            lines == rows@.map_values(|l: Vec<(usize, i32)>| l@),
            grid_dims(m@, nx as int, ny as int),
            recs@.map_values(|x: RowRecord| row_span(x)) == scan_spans(lines, nx as int, r as nat),
            skipped@ == odd_lines(lines, r as nat),
            forall|i: int, j: int|
                0 <= i < nx && 0 <= j < ny ==> #[trigger] m@[i]@[j] == row_cell(
                    recs@.map_values(|x: RowRecord| row_span(x)),
                    i,
                    j,
                ),
        decreases ny - r,
    {
        let l = &rows[r];
        let n = l.len();
        let ghost before = recs@.map_values(|x: RowRecord| row_span(x));
        proof {
            assert(lines[r as int] == l@);
        }
        if n % 2 != 0 {
            skipped.push((r + 1, n));
            proof {
                assert(line_spans(lines[r as int], (r + 1) as int, nx as int) == Seq::<Span>::empty());
                assert(scan_spans(lines, nx as int, (r + 1) as nat) == before);
            }
        } else {
            let mut p: usize = 0;
            while p < n / 2
                invariant
                    r < ny,
                    n == l@.len(),
                    n % 2 == 0,
                    p <= n / 2,
                    lines[r as int] == l@,
                    grid_dims(m@, nx as int, ny as int),
                    recs@.map_values(|x: RowRecord| row_span(x)) == before + pair_spans(
                        l@,
                        (r + 1) as int,
                        nx as int,
                        p as nat,
                    ),
                    forall|i: int, j: int|
                        0 <= i < nx && 0 <= j < ny ==> #[trigger] m@[i]@[j] == row_cell(
                            recs@.map_values(|x: RowRecord| row_span(x)),
                            i,
                            j,
                        ),
                decreases n / 2 - p,
            {
                let a = l[2 * p];
                let b = l[2 * p + 1];
                let ghost cur = recs@.map_values(|x: RowRecord| row_span(x));
                if b.0 < nx && a.0 < b.0 {
                    let rec = RowRecord {
                        i1: a.0 + 2,
                        i2: b.0 + 1,
                        j0: r + 1,
                        kn_left: a.1,
                        kn_right: b.1,
                    };
                    let ghost m0 = m@;
                    paint_row_span(m, nx, ny, rec);
                    let ghost old_recs = recs@;
                    recs.push(rec);
                    proof {
                        lemma_push_map_row(old_recs, rec);
                        let spans = recs@.map_values(|x: RowRecord| row_span(x));
                        assert(spans.drop_last() == cur);
                        assert(spans.last() == row_span(rec));
                        assert forall|i: int, j: int| 0 <= i < nx && 0 <= j < ny implies #[trigger] m@[i]@[j]
                            == row_cell(spans, i, j) by {
                            assert(m0[i]@[j] == row_cell(cur, i, j));
                        }
                        assert(pair_span(a, b, (r + 1) as int, nx as int) == Some(row_span(rec)));
                        assert(before + pair_spans(l@, (r + 1) as int, nx as int, (p + 1) as nat) == (before
                            + pair_spans(l@, (r + 1) as int, nx as int, p as nat)).push(row_span(rec)));
                    }
                } else {
                    proof {
                        assert(pair_span(a, b, (r + 1) as int, nx as int) is None);
                    }
                }
                p = p + 1;
            }
            proof {
                assert(n / 2 * 2 == n);
                assert(scan_spans(lines, nx as int, (r + 1) as nat) == before + line_spans(
                    lines[r as int],
                    (r + 1) as int,
                    nx as int,
                ));
            }
        }
        r = r + 1;
    }
}

/// The vertical pass.
#[verifier::spinoff_prover]
fn y_pass(
    m: &mut Vec<Vec<i32>>,
    nx: usize,
    ny: usize,
    cols: &Vec<Vec<(usize, i32)>>,
    recs: &mut Vec<ColRecord>,
    skipped: &mut Vec<(usize, usize)>,
    rows: Ghost<Seq<Span>>,
)
    requires
        cols@.len() == nx,
        grid_dims(old(m)@, nx as int, ny as int),
        forall|i: int, j: int| 0 <= i < nx && 0 <= j < ny ==> #[trigger] old(m)@[i]@[j] == row_cell(rows@, i, j),
        old(recs)@.len() == 0,
        old(skipped)@.len() == 0,
    ensures
        grid_dims(final(m)@, nx as int, ny as int),
        final(recs)@.map_values(|c: ColRecord| col_span(c)) == scan_spans(
            cols@.map_values(|l: Vec<(usize, i32)>| l@),
            ny as int,
            nx as nat,
        ),
        final(skipped)@ == odd_lines(cols@.map_values(|l: Vec<(usize, i32)>| l@), nx as nat),
        forall|i: int, j: int|
            0 <= i < nx && 0 <= j < ny ==> #[trigger] final(m)@[i]@[j] == grid_cell(
                rows@,
                final(recs)@.map_values(|c: ColRecord| col_span(c)),
                i,
                j,
            ),
{
    let ghost lines = cols@.map_values(|l: Vec<(usize, i32)>| l@);
    let mut r: usize = 0;
    while r < nx
        invariant
            r <= nx,
            cols@.len() == nx,
            lines == cols@.map_values(|l: Vec<(usize, i32)>| l@),
            grid_dims(m@, nx as int, ny as int),
            recs@.map_values(|x: ColRecord| col_span(x)) == scan_spans(lines, ny as int, r as nat),
            skipped@ == odd_lines(lines, r as nat),
            forall|i: int, j: int|
                0 <= i < nx && 0 <= j < ny ==> #[trigger] m@[i]@[j] == grid_cell(
                    rows@,
                    recs@.map_values(|x: ColRecord| col_span(x)),
                    i,
                    j,
                ),
        decreases nx - r,
    {
        let l = &cols[r];
        let n = l.len();
        let ghost before = recs@.map_values(|x: ColRecord| col_span(x));
        proof {
            assert(lines[r as int] == l@);
        }
        if n % 2 != 0 {
            skipped.push((r + 1, n));
            proof {
                assert(line_spans(lines[r as int], (r + 1) as int, ny as int) == Seq::<Span>::empty());
                assert(scan_spans(lines, ny as int, (r + 1) as nat) == before);
            }
        } else {
            let mut p: usize = 0;
            while p < n / 2
                invariant
                    r < nx,
                    n == l@.len(),
                    n % 2 == 0,
                    p <= n / 2,
                    lines[r as int] == l@,
                    grid_dims(m@, nx as int, ny as int),
                    recs@.map_values(|x: ColRecord| col_span(x)) == before + pair_spans(
                        l@,
                        (r + 1) as int,
                        ny as int,
                        p as nat,
                    ),
                    forall|i: int, j: int|
                        0 <= i < nx && 0 <= j < ny ==> #[trigger] m@[i]@[j] == grid_cell(
                            rows@,
                            recs@.map_values(|x: ColRecord| col_span(x)),
                            i,
                            j,
                        ),
                decreases n / 2 - p,
            {
                let a = l[2 * p];
                let b = l[2 * p + 1];
                let ghost cur = recs@.map_values(|x: ColRecord| col_span(x));
                if b.0 < ny && a.0 < b.0 {
                    let rec = ColRecord {
                        j1: a.0 + 2,
                        j2: b.0 + 1,
                        i0: r + 1,
                        kn_bot: a.1,
                        kn_top: b.1,
                    };
                    let ghost m0 = m@;
                    paint_col_span(m, nx, ny, rec);
                    let ghost old_recs = recs@;
                    recs.push(rec);
                    proof {
                        lemma_push_map_col(old_recs, rec);
                        let spans = recs@.map_values(|x: ColRecord| col_span(x));
                        assert(spans.drop_last() == cur);
                        assert(spans.last() == col_span(rec));
                        assert forall|i: int, j: int| 0 <= i < nx && 0 <= j < ny implies #[trigger] m@[i]@[j]
                            == grid_cell(rows@, spans, i, j) by {
                            assert(m0[i]@[j] == grid_cell(rows@, cur, i, j));
                        }
                        assert(pair_span(a, b, (r + 1) as int, ny as int) == Some(col_span(rec)));
                        assert(before + pair_spans(l@, (r + 1) as int, ny as int, (p + 1) as nat) == (before
                            + pair_spans(l@, (r + 1) as int, ny as int, p as nat)).push(col_span(rec)));
                    }
                } else {
                    proof {
                        assert(pair_span(a, b, (r + 1) as int, ny as int) is None);
                    }
                }
                p = p + 1;
            }
            proof {
                assert(n / 2 * 2 == n);
                assert(scan_spans(lines, ny as int, (r + 1) as nat) == before + line_spans(
                    lines[r as int],
                    (r + 1) as int,
                    ny as int,
                ));
            }
        }
        r = r + 1;
    }
}

/// The error for an odd scanline `line` (its 1-based index and crossing
/// count) of the pass along `axis` (`x` for rows, `y` for columns).
pub open spec fn is_odd_error(e: MeshError, line: (usize, usize), axis: Seq<char>) -> bool {
    e matches MeshError::OddIntersectionCount { scanline, axis: a, count } && scanline == line.0
        && count == line.1 && a@ == axis
}

/// The outcome of the fill for the given scanlines when it fails: the first
/// odd row scanline, else the first odd column scanline.
pub open spec fn fill_error(
    e: MeshError,
    rows: Seq<Seq<(usize, i32)>>,
    cols: Seq<Seq<(usize, i32)>>,
) -> bool {
    if odd_lines(rows, rows.len()).len() > 0 {
        is_odd_error(e, odd_lines(rows, rows.len())[0], "x"@)
    } else {
        odd_lines(cols, cols.len()).len() > 0 && is_odd_error(e, odd_lines(cols, cols.len())[0], "y"@)
    }
}

/// The crossings of a set of scanlines, as sequences.
pub open spec fn line_seqs(v: Seq<Vec<(usize, i32)>>) -> Seq<Seq<(usize, i32)>> {
    v.map_values(|l: Vec<(usize, i32)>| l@)
}

/// Fills the `nx × ny` grid from the crossings of every row scanline
/// (`rows[j-1]`) and every column scanline (`cols[i-1]`).
///
/// It fails exactly when some scanline has an odd crossing count, with the
/// first odd row (axis `x`), else the first odd column (axis `y`).  On
/// success the row records are exactly the accepted spans of the row
/// scanlines in order ([`scan_spans`]), likewise the column records, and
/// every cell holds the value that painting those spans in order gives
/// ([`grid_cell`]): `0`, `1` or the tag of a crossing.  When every scanline's
/// crossings are in ascending order and every tag is at least `2`, both end
/// cells of every row record still hold a tag after the column pass.
pub fn rasterize_crossings(
    nx: usize,
    ny: usize,
    rows: &Vec<Vec<(usize, i32)>>,
    cols: &Vec<Vec<(usize, i32)>>,
) -> (res: Result<Raster, MeshError>)
    requires
        rows@.len() == ny,
        cols@.len() == nx,
    ensures
        res is Ok <==> odd_lines(line_seqs(rows@), ny as nat).len() == 0 && odd_lines(
            line_seqs(cols@),
            nx as nat,
        ).len() == 0,
        res is Err ==> fill_error(res->Err_0, line_seqs(rows@), line_seqs(cols@)),
        res matches Ok(r) ==> {
            &&& r.nx == nx
            &&& r.ny == ny
            &&& grid_dims(r.matr@, nx as int, ny as int)
            &&& r.row_records@.map_values(|x: RowRecord| row_span(x)) == scan_spans(
                line_seqs(rows@),
                nx as int,
                ny as nat,
            )
            &&& r.col_records@.map_values(|x: ColRecord| col_span(x)) == scan_spans(
                line_seqs(cols@),
                ny as int,
                nx as nat,
            )
            &&& forall|i: int, j: int|
                0 <= i < nx && 0 <= j < ny ==> #[trigger] r.matr@[i]@[j] == grid_cell(
                    r.row_records@.map_values(|x: RowRecord| row_span(x)),
                    r.col_records@.map_values(|x: ColRecord| col_span(x)),
                    i,
                    j,
                )
            &&& records_bounded(r)
            &&& forall|i: int, j: int|
                0 <= i < nx && 0 <= j < ny ==> cell_from(
                    line_seqs(rows@),
                    line_seqs(cols@),
                    #[trigger] r.matr@[i]@[j],
                )
            &&& sorted_lines(line_seqs(rows@)) && sorted_lines(line_seqs(cols@)) && tags_at_least_two(
                line_seqs(rows@),
            ) && tags_at_least_two(line_seqs(cols@)) ==> forall|k: int|
                0 <= k < r.row_records@.len() ==> r.matr@[(#[trigger] r.row_records@[k]).i1 - 1]@[r.row_records@[k].j0
                    - 1] >= 2 && r.matr@[r.row_records@[k].i2 - 1]@[r.row_records@[k].j0 - 1] >= 2
        },
{
    let mut matr = blank_grid(nx, ny);
    let mut row_records: Vec<RowRecord> = Vec::new();
    let mut skipped_rows: Vec<(usize, usize)> = Vec::new();
    x_pass(&mut matr, nx, ny, rows, &mut row_records, &mut skipped_rows);
    let ghost rspans = row_records@.map_values(|x: RowRecord| row_span(x));
    let mut col_records: Vec<ColRecord> = Vec::new();
    let mut skipped_cols: Vec<(usize, usize)> = Vec::new();
    y_pass(&mut matr, nx, ny, cols, &mut col_records, &mut skipped_cols, Ghost(rspans));
    proof {
        let rl = rows@.map_values(|l: Vec<(usize, i32)>| l@);
        let cl = cols@.map_values(|l: Vec<(usize, i32)>| l@);
        lemma_scan_spans_on_grid(rl, nx as int, ny as nat);
        lemma_scan_spans_on_grid(cl, ny as int, nx as nat);
        assert forall|k: int| 0 <= k < row_records@.len() implies {
            let x = #[trigger] row_records@[k];
            1 <= x.i1 <= x.i2 <= nx && 1 <= x.j0 <= ny
        } by {
            assert(row_records@.map_values(|x: RowRecord| row_span(x))[k] == row_span(row_records@[k]));
            assert(span_on_grid(scan_spans(rl, nx as int, ny as nat)[k], nx as int, ny as int));
        }
        assert forall|k: int| 0 <= k < col_records@.len() implies {
            let x = #[trigger] col_records@[k];
            1 <= x.j1 <= x.j2 <= ny && 1 <= x.i0 <= nx
        } by {
            assert(col_records@.map_values(|x: ColRecord| col_span(x))[k] == col_span(col_records@[k]));
            assert(span_on_grid(scan_spans(cl, ny as int, nx as nat)[k], ny as int, nx as int));
        }
    }
    if skipped_rows.len() > 0 {
        let (scanline, count) = skipped_rows[0];
        let e = MeshError::OddIntersectionCount { scanline, axis: "x", count };
        proof {
            reveal_strlit("x");
        }
        return Err(e);
    }
    if skipped_cols.len() > 0 {
        let (scanline, count) = skipped_cols[0];
        let e = MeshError::OddIntersectionCount { scanline, axis: "y", count };
        proof {
            reveal_strlit("y");
        }
        return Err(e);
    }
    proof {
        let rl = line_seqs(rows@);
        let cl = line_seqs(cols@);
        let rs = row_records@.map_values(|x: RowRecord| row_span(x));
        assert forall|i: int, j: int| 0 <= i < nx && 0 <= j < ny implies cell_from(
            rl,
            cl,
            #[trigger] matr@[i]@[j],
        ) by {
            lemma_cells_hold_crossing_tags(rl, cl, nx as nat, ny as nat, i, j);
        }
        if sorted_lines(rl) && sorted_lines(cl) && tags_at_least_two(rl) && tags_at_least_two(cl) {
            assert forall|k: int| 0 <= k < row_records@.len() implies matr@[(#[trigger] row_records@[k]).i1
                - 1]@[row_records@[k].j0 - 1] >= 2 && matr@[row_records@[k].i2 - 1]@[row_records@[k].j0 - 1]
                >= 2 by {
                assert(rs[k] == row_span(row_records@[k]));
                lemma_row_ends_keep_tags(rl, cl, nx as nat, ny as nat, k);
            }
        }
    }
    Ok(Raster { matr, row_records, col_records, nx, ny })
}


// ---------------------------------------------------------------------------
// Laws of the fill
// ---------------------------------------------------------------------------

/// The span lies on the grid: cells `1 <= lo <= hi <= bound` of a scanline
/// `1 <= line <= lines`.
pub open spec fn span_on_grid(s: Span, bound: int, lines: int) -> bool {
    1 <= s.lo <= s.hi <= bound && 1 <= s.line <= lines
}

/// Every record of the raster lies on its `nx × ny` grid.
pub open spec fn records_bounded(r: Raster) -> bool {
    &&& forall|k: int|
        0 <= k < r.row_records@.len() ==> {
            let x = #[trigger] r.row_records@[k];
            1 <= x.i1 <= x.i2 <= r.nx && 1 <= x.j0 <= r.ny
        }
    &&& forall|k: int|
        0 <= k < r.col_records@.len() ==> {
            let x = #[trigger] r.col_records@[k];
            1 <= x.j1 <= x.j2 <= r.ny && 1 <= x.i0 <= r.nx
        }
}

proof fn lemma_pair_spans_on_line(l: Seq<(usize, i32)>, line: int, bound: int, p: nat)
    requires
        2 * p <= l.len(),
    ensures
        forall|k: int|
            0 <= k < pair_spans(l, line, bound, p).len() ==> {
                let s = #[trigger] pair_spans(l, line, bound, p)[k];
                s.line == line && 1 <= s.lo <= s.hi <= bound
            },
    decreases p,
{
    if p > 0 {
        lemma_pair_spans_on_line(l, line, bound, (p - 1) as nat);
        let prev = pair_spans(l, line, bound, (p - 1) as nat);
        match pair_span(l[2 * p - 2], l[2 * p - 1], line, bound) {
            Some(sp) => {
                assert forall|k: int| 0 <= k < prev.push(sp).len() implies {
                    let s = #[trigger] prev.push(sp)[k];
                    s.line == line && 1 <= s.lo <= s.hi <= bound
                } by {
                    if k < prev.len() {
                        assert(prev.push(sp)[k] == prev[k]);
                    }
                }
            },
            None => {},
        }
    }
}

/// Every span that the scanlines `1..=r` produce lies on the grid: its
/// cells are within `1..=bound` and its scanline within `1..=r`.
pub proof fn lemma_scan_spans_on_grid(lines: Seq<Seq<(usize, i32)>>, bound: int, r: nat)
    requires
        r <= lines.len(),
    ensures
        forall|k: int|
            0 <= k < scan_spans(lines, bound, r).len() ==> span_on_grid(
                #[trigger] scan_spans(lines, bound, r)[k],
                bound,
                r as int,
            ),
    decreases r,
{
    if r > 0 {
        let prev = scan_spans(lines, bound, (r - 1) as nat);
        let l = lines[r - 1];
        let tail = line_spans(l, r as int, bound);
        lemma_scan_spans_on_grid(lines, bound, (r - 1) as nat);
        if l.len() % 2 == 0 {
            lemma_pair_spans_on_line(l, r as int, bound, l.len() / 2);
        }
        assert forall|k: int| 0 <= k < scan_spans(lines, bound, r).len() implies span_on_grid(
            #[trigger] scan_spans(lines, bound, r)[k],
            bound,
            r as int,
        ) by {
            if k < prev.len() {
                assert(scan_spans(lines, bound, r)[k] == prev[k]);
                assert(span_on_grid(prev[k], bound, (r - 1) as int));
            } else {
                assert(scan_spans(lines, bound, r)[k] == tail[k - prev.len()]);
            }
        }
    }
}

/// The row span covers cell `(i, j)` (0-based column, row).
pub open spec fn row_covers(s: Span, i: int, j: int) -> bool {
    s.line - 1 == j && s.lo - 1 <= i <= s.hi - 1
}

/// The column span covers cell `(i, j)`.
pub open spec fn col_covers(s: Span, i: int, j: int) -> bool {
    s.line - 1 == i && s.lo - 1 <= j <= s.hi - 1
}

/// `v` is the tag of one end of the span.
pub open spec fn end_tag(s: Span, v: i32) -> bool {
    v == s.tlo || v == s.thi
}

proof fn lemma_row_cell_value(rows: Seq<Span>, i: int, j: int)
    ensures
        (forall|k: int| 0 <= k < rows.len() ==> !#[trigger] row_covers(rows[k], i, j)) ==> row_cell(
            rows,
            i,
            j,
        ) == 0,
        ({
            let v = row_cell(rows, i, j);
            ||| v == 0
            ||| v == 1
            ||| exists|k: int| 0 <= k < rows.len() && #[trigger] row_covers(rows[k], i, j) && end_tag(rows[k], v)
        }),
    decreases rows.len(),
{
    if rows.len() > 0 {
        let d = rows.drop_last();
        lemma_row_cell_value(d, i, j);
        let v = row_cell(rows, i, j);
        if row_covers(rows.last(), i, j) {
            assert(row_covers(rows[rows.len() - 1], i, j));
        } else {
            assert(v == row_cell(d, i, j));
            assert forall|k: int| 0 <= k < d.len() implies #[trigger] d[k] == rows[k] by {}
            if (forall|k: int| 0 <= k < rows.len() ==> !#[trigger] row_covers(rows[k], i, j)) {
                assert forall|k: int| 0 <= k < d.len() implies !#[trigger] row_covers(d[k], i, j) by {
                    assert(d[k] == rows[k]);
                }
            }
            if v != 0 && v != 1 {
                let k = choose|k: int| 0 <= k < d.len() && #[trigger] row_covers(d[k], i, j) && end_tag(d[k], v);
                assert(d[k] == rows[k]);
                assert(row_covers(rows[k], i, j) && end_tag(rows[k], v));
            }
        }
    }
}

/// Every cell of the filled grid holds `0` (exterior), `1` (interior), or
/// the tag of an end of a span that covers it; a cell that no span covers
/// holds `0`.
pub proof fn lemma_cell_values(rows: Seq<Span>, cols: Seq<Span>, i: int, j: int)
    ensures
        (forall|k: int| 0 <= k < rows.len() ==> !#[trigger] row_covers(rows[k], i, j)) && (forall|k: int|
            0 <= k < cols.len() ==> !#[trigger] col_covers(cols[k], i, j)) ==> grid_cell(
            rows,
            cols,
            i,
            j,
        ) == 0,
        ({
            let v = grid_cell(rows, cols, i, j);
            ||| v == 0
            ||| v == 1
            ||| exists|k: int| 0 <= k < rows.len() && #[trigger] row_covers(rows[k], i, j) && end_tag(rows[k], v)
            ||| exists|k: int| 0 <= k < cols.len() && #[trigger] col_covers(cols[k], i, j) && end_tag(cols[k], v)
        }),
    decreases cols.len(),
{
    if cols.len() == 0 {
        lemma_row_cell_value(rows, i, j);
    } else {
        let d = cols.drop_last();
        lemma_cell_values(rows, d, i, j);
        let v = grid_cell(rows, cols, i, j);
        let prev = grid_cell(rows, d, i, j);
        if col_covers(cols.last(), i, j) && (j == cols.last().hi - 1 || j == cols.last().lo - 1) {
            assert(col_covers(cols[cols.len() - 1], i, j) && end_tag(cols[cols.len() - 1], v));
        } else {
            if col_covers(cols.last(), i, j) {
                assert(col_covers(cols[cols.len() - 1], i, j));
            } else {
                assert(v == prev);
            }
            if (forall|k: int| 0 <= k < cols.len() ==> !#[trigger] col_covers(cols[k], i, j)) {
                assert(!col_covers(cols[cols.len() - 1], i, j));
                assert forall|k: int| 0 <= k < d.len() implies !#[trigger] col_covers(d[k], i, j) by {
                    assert(d[k] == cols[k]);
                }
            }
            if v != 0 && v != 1 {
                assert(v == prev);
                if !(exists|k: int| 0 <= k < rows.len() && #[trigger] row_covers(rows[k], i, j) && end_tag(rows[k], v)) {
                    let k = choose|k: int| 0 <= k < d.len() && #[trigger] col_covers(d[k], i, j) && end_tag(d[k], v);
                    assert(d[k] == cols[k]);
                    assert(col_covers(cols[k], i, j) && end_tag(cols[k], v));
                }
            }
        }
    }
}

/// The vertical pass keeps the boundary tags of the horizontal pass: a cell
/// holding a tag `>= 2` after the row spans keeps it unless a column span
/// ends on it.
pub proof fn lemma_column_pass_keeps_tags(rows: Seq<Span>, cols: Seq<Span>, i: int, j: int)
    requires
        row_cell(rows, i, j) >= 2,
        forall|k: int|
            0 <= k < cols.len() ==> !(#[trigger] cols[k].line - 1 == i && (j == cols[k].lo - 1 || j
                == cols[k].hi - 1)),
    ensures
        grid_cell(rows, cols, i, j) == row_cell(rows, i, j),
    decreases cols.len(),
{
    if cols.len() > 0 {
        let d = cols.drop_last();
        assert forall|k: int| 0 <= k < d.len() implies !(#[trigger] d[k].line - 1 == i && (j == d[k].lo - 1
            || j == d[k].hi - 1)) by {
            assert(d[k] == cols[k]);
        }
        lemma_column_pass_keeps_tags(rows, d, i, j);
        assert(!(cols[cols.len() - 1].line - 1 == i && (j == cols[cols.len() - 1].lo - 1 || j
            == cols[cols.len() - 1].hi - 1)));
    }
}


// ---------------------------------------------------------------------------
// Quad-mesh connectivity
// ---------------------------------------------------------------------------

/// Quad mesh of the active cells.
///
/// Node `k` (1-based in `elements`) is the grid corner `corners[k - 1] =
/// (l1, l2)`; its coordinates are `(xmin + (l1 - 1.5)·dx, ymin + (l2 - 1.5)·dy)`.
#[derive(Debug, Clone)]
pub struct QuadMesh {
    /// 1-based grid corner of each node, in numbering order.
    pub corners: Vec<(usize, usize)>,
    /// Node numbers (1-based) of each element, in the order `n1, n2, n4, n3`.
    pub elements: Vec<[usize; 4]>,
    /// 1-based `(col, row)` of each element's cell.
    pub elem_ij: Vec<(usize, usize)>,
    /// Cell value (region tag) of each element.
    pub region_tags: Vec<i32>,
}

/// Active cells (value `> 0`) of rows `1..=r` of column `c`, 1-based.
pub open spec fn col_active(m: Seq<Seq<i32>>, c: int, r: nat) -> Seq<(usize, usize)>
    decreases r,
{
    if r == 0 {
        seq![]
    } else {
        let prev = col_active(m, c, (r - 1) as nat);
        if m[c - 1][r - 1] > 0 {
            prev.push((c as usize, r as usize))
        } else {
            prev
        }
    }
}

/// Active cells of columns `1..=c` in column-major order.
pub open spec fn active_cells(m: Seq<Seq<i32>>, ny: nat, c: nat) -> Seq<(usize, usize)>
    decreases c,
{
    if c == 0 {
        seq![]
    } else {
        active_cells(m, ny, (c - 1) as nat) + col_active(m, c as int, ny)
    }
}

/// The four corners of a cell in visiting order: `(c,r), (c,r+1), (c+1,r), (c+1,r+1)`.
pub open spec fn quad(cell: (usize, usize)) -> Seq<(usize, usize)> {
    let (c, r) = cell;
    seq![(c, r), (c, (r + 1) as usize), ((c + 1) as usize, r), ((c + 1) as usize, (r + 1) as usize)]
}

/// Corners in visiting order, cell after cell.
pub open spec fn visits(cells: Seq<(usize, usize)>) -> Seq<(usize, usize)>
    decreases cells.len(),
{
    if cells.len() == 0 {
        seq![]
    } else {
        visits(cells.drop_last()) + quad(cells.last())
    }
}

/// `d` with `x` appended unless already present.
pub open spec fn see(d: Seq<(usize, usize)>, x: (usize, usize)) -> Seq<(usize, usize)> {
    if d.contains(x) {
        d
    } else {
        d.push(x)
    }
}

/// The distinct elements of `s` in order of first occurrence.
pub open spec fn first_seen(s: Seq<(usize, usize)>) -> Seq<(usize, usize)>
    decreases s.len(),
{
    if s.len() == 0 {
        seq![]
    } else {
        see(first_seen(s.drop_last()), s.last())
    }
}

/// Position in a cell's visiting order of the `k`-th node of its element.
pub open spec fn elem_corner(k: int) -> int {
    if k == 2 {
        3
    } else if k == 3 {
        2
    } else {
        k
    }
}

pub open spec fn grid_view(m: Seq<Vec<i32>>) -> Seq<Seq<i32>> {
    m.map_values(|c: Vec<i32>| c@)
}

proof fn lemma_first_seen_push4(d: Seq<(usize, usize)>, q: Seq<(usize, usize)>)
    requires
        q.len() == 4,
    ensures
        first_seen(d + q) == see(see(see(see(first_seen(d), q[0]), q[1]), q[2]), q[3]),
{
    let a1 = d.push(q[0]);
    let a2 = a1.push(q[1]);
    let a3 = a2.push(q[2]);
    let a4 = a3.push(q[3]);
    assert(a4 == d + q);
    assert(a4.drop_last() == a3);
    assert(a3.drop_last() == a2);
    assert(a2.drop_last() == a1);
    assert(a1.drop_last() == d);
    assert(first_seen(a1) == see(first_seen(d), q[0]));
    assert(first_seen(a2) == see(first_seen(a1), q[1]));
    assert(first_seen(a3) == see(first_seen(a2), q[2]));
    assert(first_seen(a4) == see(first_seen(a3), q[3]));
}

/// Numbers grid corner `(l1, l2)` (1-based), adding it when first seen.
fn visit(
    matp: &mut Vec<Vec<usize>>,
    corners: &mut Vec<(usize, usize)>,
    l1: usize,
    l2: usize,
    nx: usize,
    ny: usize,
) -> (id: usize)
    requires
        1 <= l1 <= nx + 1,
        1 <= l2 <= ny + 1,
        nx < usize::MAX,
        ny < usize::MAX,
        old(matp)@.len() == nx + 1,
        forall|a: int| 0 <= a <= nx ==> #[trigger] old(matp)@[a]@.len() == ny + 1,
        forall|a: int, b: int|
            0 <= a <= nx && 0 <= b <= ny ==> (#[trigger] old(matp)@[a]@[b] == 0 <==> !old(corners)@.contains(((a + 1) as usize, (b + 1) as usize))),
        forall|a: int, b: int|
            0 <= a <= nx && 0 <= b <= ny && #[trigger] old(matp)@[a]@[b] != 0 ==> old(matp)@[a]@[b] <= old(corners)@.len() && old(corners)@[old(matp)@[a]@[b] - 1] == ((a + 1) as usize, (b + 1) as usize),
        forall|k: int|
            0 <= k < old(corners)@.len() ==> 1 <= (#[trigger] old(corners)@[k]).0 <= nx + 1 && 1
                <= old(corners)@[k].1 <= ny + 1,
    ensures
        final(corners)@ == see(old(corners)@, (l1, l2)),
        1 <= id <= final(corners)@.len(),
        final(corners)@[id - 1] == (l1, l2),
        final(matp)@.len() == nx + 1,
        forall|a: int| 0 <= a <= nx ==> #[trigger] final(matp)@[a]@.len() == ny + 1,
        forall|a: int, b: int|
            0 <= a <= nx && 0 <= b <= ny ==> (#[trigger] final(matp)@[a]@[b] == 0 <==> !final(corners)@.contains(((a + 1) as usize, (b + 1) as usize))),
        forall|a: int, b: int|
            0 <= a <= nx && 0 <= b <= ny && #[trigger] final(matp)@[a]@[b] != 0 ==> final(matp)@[a]@[b]
                <= final(corners)@.len() && final(corners)@[final(matp)@[a]@[b] - 1] == (
                (a + 1) as usize,
                (b + 1) as usize,
            ),
        forall|k: int|
            0 <= k < final(corners)@.len() ==> 1 <= (#[trigger] final(corners)@[k]).0 <= nx + 1 && 1
                <= final(corners)@[k].1 <= ny + 1,
{
    let cur = matp[l1 - 1][l2 - 1];
    if cur != 0 {
        proof {
            assert(old(corners)@[cur - 1] == (l1, l2));
            assert(old(corners)@.contains((l1, l2)));
        }
        cur
    } else {
        let ghost before = corners@;
        corners.push((l1, l2));
        let id = corners.len();
        matp[l1 - 1][l2 - 1] = id;
        proof {
            assert(!before.contains((l1, l2)));
            assert forall|a: int, b: int| 0 <= a <= nx && 0 <= b <= ny implies (#[trigger] matp@[a]@[b] == 0
                <==> !corners@.contains(((a + 1) as usize, (b + 1) as usize))) by {
                if a == l1 - 1 && b == l2 - 1 {
                    assert(corners@[corners@.len() - 1] == (l1, l2));
                } else {
                    if corners@.contains(((a + 1) as usize, (b + 1) as usize)) {
                        let w = choose|w: int| 0 <= w < corners@.len() && corners@[w] == ((a + 1) as usize, (b + 1) as usize);
                        if w < before.len() {
                            assert(before[w] == corners@[w]);
                        }
                    }
                    if before.contains(((a + 1) as usize, (b + 1) as usize)) {
                        let w = choose|w: int| 0 <= w < before.len() && before[w] == ((a + 1) as usize, (b + 1) as usize);
                        assert(corners@[w] == before[w]);
                    }
                }
            }
        }
        id
    }
}

/// `q` is the quad mesh of grid `m` (`nx` columns of `ny` cells): one element
/// per active cell in column-major order ([`active_cells`]) with that cell's
/// value as its region tag; nodes numbered by first visit of the cells'
/// corners ([`first_seen`]), no corner twice; each element's four node
/// numbers are distinct and name its cell's corners in the order
/// `n1, n2, n4, n3`.
pub open spec fn quad_mesh_of(q: QuadMesh, m: Seq<Seq<i32>>, ny: nat, nx: nat) -> bool {
    let cells = active_cells(m, ny, nx);
    &&& q.elem_ij@ == cells
    &&& q.corners@ == first_seen(visits(cells))
    &&& q.elements@.len() == cells.len()
    &&& q.region_tags@.len() == cells.len()
    &&& forall|e: int| 0 <= e < cells.len() ==> #[trigger] q.region_tags@[e] == m[cells[e].0 - 1][cells[e].1 - 1]
    &&& forall|e: int, k: int|
        0 <= e < cells.len() && 0 <= k < 4 ==> {
            let id = #[trigger] q.elements@[e]@[k];
            &&& 1 <= id <= q.corners@.len()
            &&& q.corners@[id - 1] == quad(cells[e])[elem_corner(k)]
        }
    &&& q.corners@.no_duplicates()
    &&& forall|e: int, k1: int, k2: int|
        0 <= e < q.elements@.len() && 0 <= k1 < k2 < 4 ==> #[trigger] q.elements@[e]@[k1]
            != #[trigger] q.elements@[e]@[k2]
}

/// Builds the quad mesh of the active cells of a filled grid.
///
/// Cells are visited column by column, bottom to top; each active cell
/// (value `> 0`) becomes one element and its four corners are numbered in
/// order of first visit.
#[verifier::spinoff_prover]
#[verifier::rlimit(50)]
pub fn build_quad_mesh(raster: &Raster) -> (q: QuadMesh)
    requires
        grid_dims(raster.matr@, raster.nx as int, raster.ny as int),
        raster.nx < usize::MAX,
        raster.ny < usize::MAX,
    ensures
        quad_mesh_of(q, grid_view(raster.matr@), raster.ny as nat, raster.nx as nat),
{
    let nx = raster.nx;
    let ny = raster.ny;
    let ghost m = grid_view(raster.matr@);
    // matp[l1-1][l2-1]: node number of corner (l1, l2), 0 when not yet seen.
    let mut matp: Vec<Vec<usize>> = Vec::new();
    let mut a: usize = 0;
    while a <= nx
        invariant
            a <= nx + 1,
            nx < usize::MAX,
            ny < usize::MAX,
            matp@.len() == a,
            forall|x: int| 0 <= x < a ==> #[trigger] matp@[x]@.len() == ny + 1,
            forall|x: int, y: int| 0 <= x < a && 0 <= y <= ny ==> #[trigger] matp@[x]@[y] == 0,
        decreases nx + 1 - a,
    {
        let mut col: Vec<usize> = Vec::new();
        let mut b: usize = 0;
        while b <= ny
            invariant
                b <= ny + 1,
                ny < usize::MAX,
                col@.len() == b,
                forall|y: int| 0 <= y < b ==> #[trigger] col@[y] == 0,
            decreases ny + 1 - b,
        {
            col.push(0);
            b = b + 1;
        }
        matp.push(col);
        a = a + 1;
    }
    let mut corners: Vec<(usize, usize)> = Vec::new();
    let mut elements: Vec<[usize; 4]> = Vec::new();
    let mut elem_ij: Vec<(usize, usize)> = Vec::new();
    let mut region_tags: Vec<i32> = Vec::new();
    let mut col: usize = 1;
    while col <= nx
        invariant
            1 <= col <= nx + 1,
            nx == raster.nx,
            ny == raster.ny,
            nx < usize::MAX,
            ny < usize::MAX,
            grid_dims(raster.matr@, nx as int, ny as int),
            m == grid_view(raster.matr@),
            elem_ij@ == active_cells(m, ny as nat, (col - 1) as nat),
            corners@ == first_seen(visits(elem_ij@)),
            elements@.len() == elem_ij@.len(),
            region_tags@.len() == elem_ij@.len(),
            forall|e: int|
                0 <= e < elem_ij@.len() ==> #[trigger] region_tags@[e] == m[elem_ij@[e].0 - 1][elem_ij@[e].1
                    - 1],
            forall|e: int, k: int|
                0 <= e < elem_ij@.len() && 0 <= k < 4 ==> {
                    let id = #[trigger] elements@[e]@[k];
                    &&& 1 <= id <= corners@.len()
                    &&& corners@[id - 1] == quad(elem_ij@[e])[elem_corner(k)]
                },
            forall|e: int| 0 <= e < elem_ij@.len() ==> 1 <= (#[trigger] elem_ij@[e]).0 < col && 1 <= elem_ij@[e].1 <= ny,
            matp@.len() == nx + 1,
            forall|x: int| 0 <= x <= nx ==> #[trigger] matp@[x]@.len() == ny + 1,
            forall|x: int, y: int|
                0 <= x <= nx && 0 <= y <= ny ==> (#[trigger] matp@[x]@[y] == 0 <==> !corners@.contains(
                    ((x + 1) as usize, (y + 1) as usize),
                )),
            forall|x: int, y: int|
                0 <= x <= nx && 0 <= y <= ny && #[trigger] matp@[x]@[y] != 0 ==> matp@[x]@[y] <= corners@.len()
                    && corners@[matp@[x]@[y] - 1] == ((x + 1) as usize, (y + 1) as usize),
            forall|k: int|
                0 <= k < corners@.len() ==> 1 <= (#[trigger] corners@[k]).0 <= nx + 1 && 1 <= corners@[k].1
                    <= ny + 1,
        decreases nx + 1 - col,
    {
        let ghost done_before = elem_ij@;
        let mut row: usize = 1;
        while row <= ny
            invariant
                1 <= col <= nx,
                1 <= row <= ny + 1,
                nx == raster.nx,
                ny == raster.ny,
                nx < usize::MAX,
                ny < usize::MAX,
                grid_dims(raster.matr@, nx as int, ny as int),
                m == grid_view(raster.matr@),
                done_before == active_cells(m, ny as nat, (col - 1) as nat),
                elem_ij@ == done_before + col_active(m, col as int, (row - 1) as nat),
                corners@ == first_seen(visits(elem_ij@)),
                elements@.len() == elem_ij@.len(),
                region_tags@.len() == elem_ij@.len(),
                forall|e: int|
                    0 <= e < elem_ij@.len() ==> #[trigger] region_tags@[e] == m[elem_ij@[e].0 - 1][elem_ij@[e].1
                        - 1],
                forall|e: int, k: int|
                    0 <= e < elem_ij@.len() && 0 <= k < 4 ==> {
                        let id = #[trigger] elements@[e]@[k];
                        &&& 1 <= id <= corners@.len()
                        &&& corners@[id - 1] == quad(elem_ij@[e])[elem_corner(k)]
                    },
                forall|e: int| 0 <= e < elem_ij@.len() ==> 1 <= (#[trigger] elem_ij@[e]).0 <= col && 1 <= elem_ij@[e].1 <= ny,
                matp@.len() == nx + 1,
                forall|x: int| 0 <= x <= nx ==> #[trigger] matp@[x]@.len() == ny + 1,
                forall|x: int, y: int|
                    0 <= x <= nx && 0 <= y <= ny ==> (#[trigger] matp@[x]@[y] == 0 <==> !corners@.contains(
                        ((x + 1) as usize, (y + 1) as usize),
                    )),
                forall|x: int, y: int|
                    0 <= x <= nx && 0 <= y <= ny && #[trigger] matp@[x]@[y] != 0 ==> matp@[x]@[y] <= corners@.len()
                        && corners@[matp@[x]@[y] - 1] == ((x + 1) as usize, (y + 1) as usize),
                forall|k: int|
                    0 <= k < corners@.len() ==> 1 <= (#[trigger] corners@[k]).0 <= nx + 1 && 1 <= corners@[k].1
                        <= ny + 1,
            decreases ny + 1 - row,
        {
            let k0 = raster.matr[col - 1][row - 1];
            proof {
                assert(m[col - 1][row - 1] == k0);
            }
            if k0 > 0 {
                let ghost c0 = corners@;
                let n1 = visit(&mut matp, &mut corners, col, row, nx, ny);
                let ghost c1 = corners@;
                let n2 = visit(&mut matp, &mut corners, col, row + 1, nx, ny);
                let ghost c2 = corners@;
                let n3 = visit(&mut matp, &mut corners, col + 1, row, nx, ny);
                let ghost c3 = corners@;
                let n4 = visit(&mut matp, &mut corners, col + 1, row + 1, nx, ny);
                let ghost old_ij = elem_ij@;
                let ghost old_el = elements@;
                elements.push([n1, n2, n4, n3]);
                elem_ij.push((col, row));
                region_tags.push(k0);
                proof {
                    let cell = (col, row);
                    assert(elem_ij@.drop_last() == old_ij);
                    assert(visits(elem_ij@) == visits(old_ij) + quad(cell));
                    lemma_first_seen_push4(visits(old_ij), quad(cell));
                    // Earlier node numbers keep their corners: corners only grow.
                    assert(c0.is_prefix_of(corners@)) by {
                        assert forall|w: int| 0 <= w < c0.len() implies c0[w] == corners@[w] by {
                            assert(c1[w] == c0[w]);
                            assert(c2[w] == c1[w]);
                            assert(c3[w] == c2[w]);
                        }
                    }
                    assert(c1.is_prefix_of(corners@)) by {
                        assert forall|w: int| 0 <= w < c1.len() implies c1[w] == corners@[w] by {
                            assert(c2[w] == c1[w]);
                            assert(c3[w] == c2[w]);
                        }
                    }
                    assert(c2.is_prefix_of(corners@)) by {
                        assert forall|w: int| 0 <= w < c2.len() implies c2[w] == corners@[w] by {
                            assert(c3[w] == c2[w]);
                        }
                    }
                    assert(c3.is_prefix_of(corners@));
                    assert forall|e: int, k: int| 0 <= e < elem_ij@.len() && 0 <= k < 4 implies {
                        let id = #[trigger] elements@[e]@[k];
                        &&& 1 <= id <= corners@.len()
                        &&& corners@[id - 1] == quad(elem_ij@[e])[elem_corner(k)]
                    } by {
                        if e < old_ij.len() {
                            assert(elements@[e] == old_el[e]);
                            assert(elem_ij@[e] == old_ij[e]);
                        } else {
                            assert(elements@[e]@ == seq![n1, n2, n4, n3]);
                        }
                    }
                    assert(col_active(m, col as int, row as nat) == col_active(m, col as int, (row - 1) as nat).push(cell));
                    assert(elem_ij@ == done_before + col_active(m, col as int, row as nat));
                }
            } else {
                proof {
                    assert(col_active(m, col as int, row as nat) == col_active(m, col as int, (row - 1) as nat));
                }
            }
            row = row + 1;
        }
        proof {
            assert(active_cells(m, ny as nat, col as nat) == done_before + col_active(m, col as int, ny as nat));
        }
        col = col + 1;
    }
    proof {
        lemma_first_seen_distinct(visits(elem_ij@));
        assert forall|e: int, k1: int, k2: int|
            0 <= e < elements@.len() && 0 <= k1 < k2 < 4 implies #[trigger] elements@[e]@[k1]
                != #[trigger] elements@[e]@[k2] by {
            let q = quad(elem_ij@[e]);
            assert(corners@[elements@[e]@[k1] - 1] == q[elem_corner(k1)]);
            assert(corners@[elements@[e]@[k2] - 1] == q[elem_corner(k2)]);
            assert(q[elem_corner(k1)] != q[elem_corner(k2)]);
        }
    }
    QuadMesh { corners, elements, elem_ij, region_tags }
}

/// Numbering by first occurrence lists each element once, and exactly the
/// elements of the sequence.
pub proof fn lemma_first_seen_distinct(s: Seq<(usize, usize)>)
    ensures
        first_seen(s).no_duplicates(),
        forall|x: (usize, usize)| #[trigger] first_seen(s).contains(x) <==> s.contains(x),
    decreases s.len(),
{
    if s.len() > 0 {
        let d = s.drop_last();
        lemma_first_seen_distinct(d);
        let f = first_seen(d);
        let x = s.last();
        assert forall|y: (usize, usize)| #[trigger] first_seen(s).contains(y) <==> s.contains(y) by {
            if s.contains(y) && y != x {
                let w = choose|w: int| 0 <= w < s.len() && s[w] == y;
                assert(w < d.len());
                assert(d[w] == y);
                assert(d.contains(y));
            }
            if d.contains(y) {
                let w = choose|w: int| 0 <= w < d.len() && d[w] == y;
                assert(s[w] == y);
            }
            if !f.contains(x) {
                assert(f.push(x)[f.len() as int] == x);
                if f.push(x).contains(y) && y != x {
                    let w = choose|w: int| 0 <= w < f.push(x).len() && f.push(x)[w] == y;
                    assert(f[w] == y);
                }
                if f.contains(y) {
                    let w = choose|w: int| 0 <= w < f.len() && f[w] == y;
                    assert(f.push(x)[w] == y);
                }
            }
            assert(s[s.len() - 1] == x);
        }
        if !f.contains(x) {
            assert forall|a: int, b: int| 0 <= a < b < f.push(x).len() implies f.push(x)[a] != f.push(x)[b] by {
                if b == f.len() {
                    assert(f[a] == f.push(x)[a]);
                }
            }
        }
    }
}

} // verus!
