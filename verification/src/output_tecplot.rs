//! Tecplot ASCII outputs: the FEPOINT quadrilateral zone (`ch3`) and the
//! POINT main zone with one structured zone per span record (`ch4`).
//!
//! Coordinate lines are [`OutLine::Point`] markers; both files render them with
//! `'(2f11.4)'`.
use vstd::prelude::*;

use crate::output_text::{
    lemma_push_line, lines_view, push_point_lines, push_usize_field, OutLine, OutView,
};
use crate::scanline_rasterizer::{records_bounded, ColRecord, QuadMesh, Raster, RowRecord};
use crate::text::{int_field, push_str, string_of};

verus! {

pub open spec fn header_line() -> Seq<char> {
    "VARIABLES=X  Y"@
}

/// `ZONE T="main" N={:6} E={:6} F=FEPOINT ET=QUADRILATERAL`
pub open spec fn fepoint_zone_line(nnode: nat, nelem: nat) -> Seq<char> {
    "ZONE T=\"main\" N="@ + int_field(nnode as int, 6) + " E="@ + int_field(nelem as int, 6)
        + " F=FEPOINT ET=QUADRILATERAL"@
}

/// An element line of `ch3`: four node numbers in width 9.
pub open spec fn quad_line(el: [usize; 4]) -> Seq<char> {
    int_field(el@[0] as int, 9) + int_field(el@[1] as int, 9) + int_field(el@[2] as int, 9) + int_field(
        el@[3] as int,
        9,
    )
}

/// The lines of the FEPOINT output.
pub open spec fn ch3_lines(corners: Seq<(usize, usize)>, elements: Seq<[usize; 4]>) -> Seq<OutView> {
    seq![
        OutView::Text(header_line()),
        OutView::Text(fepoint_zone_line(corners.len(), elements.len())),
    ] + Seq::new(corners.len(), |k: int| OutView::Point(corners[k].0 as nat, corners[k].1 as nat))
        + Seq::new(elements.len(), |k: int| OutView::Text(quad_line(elements[k])))
}

/// The lines of the FEPOINT output of a mesh.
pub fn ch3_output(mesh: &QuadMesh) -> (out: Vec<OutLine>)
    ensures
        lines_view(out@) == ch3_lines(mesh.corners@, mesh.elements@),
{
    let mut out: Vec<OutLine> = Vec::new();
    out.push(OutLine::Text(string_of("VARIABLES=X  Y")));
    let mut z = string_of("ZONE T=\"main\" N=");
    push_usize_field(&mut z, mesh.corners.len(), 6);
    push_str(&mut z, " E=");
    push_usize_field(&mut z, mesh.elements.len(), 6);
    push_str(&mut z, " F=FEPOINT ET=QUADRILATERAL");
    out.push(OutLine::Text(z));
    proof {
        assert(lines_view(out@) =~= seq![
            OutView::Text(header_line()),
            OutView::Text(fepoint_zone_line(mesh.corners@.len(), mesh.elements@.len())),
        ]);
    }
    push_point_lines(&mut out, &mesh.corners);
    let ghost start = lines_view(out@);
    let mut k: usize = 0;
    while k < mesh.elements.len()
        invariant
            k <= mesh.elements@.len(),
            lines_view(out@) == start + Seq::new(
                k as nat,
                |i: int| OutView::Text(quad_line(mesh.elements@[i])),
            ),
        decreases mesh.elements.len() - k,
    {
        let el = mesh.elements[k];
        let mut s = String::new();
        push_usize_field(&mut s, el[0], 9);
        push_usize_field(&mut s, el[1], 9);
        push_usize_field(&mut s, el[2], 9);
        push_usize_field(&mut s, el[3], 9);
        let ghost before = out@;
        out.push(OutLine::Text(s));
        proof {
            lemma_push_line(before, out@.last());
            assert(lines_view(out@) =~= start + Seq::new(
                (k + 1) as nat,
                |i: int| OutView::Text(quad_line(mesh.elements@[i])),
            ));
        }
        k = k + 1;
    }
    proof {
        assert(lines_view(out@) =~= ch3_lines(mesh.corners@, mesh.elements@));
    }
    out
}

/// `ZONE T=" Main " I={:3} J={:3} F=POINT`
pub open spec fn main_zone_line(i: nat, j: nat) -> Seq<char> {
    "ZONE T=\" Main \" I="@ + int_field(i as int, 3) + " J="@ + int_field(j as int, 3) + " F=POINT"@
}

/// `ZONE T=" <tag> {:3}" I={:3} J={:3} F=POINT` for span zone number `n`.
pub open spec fn span_zone_line(tag: Seq<char>, n: nat, i: nat, j: nat) -> Seq<char> {
    "ZONE T=\" "@ + tag + " "@ + int_field(n as int, 3) + "\" I="@ + int_field(i as int, 3) + " J="@
        + int_field(j as int, 3) + " F=POINT"@
}

/// Corner points of the main zone, rows `1..=r` of `1..=w` corners each,
/// `x` varying fastest.
pub open spec fn grid_points(w: nat, r: nat) -> Seq<OutView>
    decreases r,
{
    if r == 0 {
        seq![]
    } else {
        grid_points(w, (r - 1) as nat) + Seq::new(w, |i: int| OutView::Point((i + 1) as nat, r))
    }
}

/// The zone of a row record: its corners `i1..=i2+1` along rows `j0` and `j0+1`.
pub open spec fn row_zone(n: nat, r: RowRecord) -> Seq<OutView> {
    let w = (r.i2 - r.i1 + 2) as nat;
    seq![OutView::Text(span_zone_line("NRO"@, n, w, 2))] + Seq::new(
        w,
        |t: int| OutView::Point((r.i1 + t) as nat, r.j0 as nat),
    ) + Seq::new(w, |t: int| OutView::Point((r.i1 + t) as nat, (r.j0 + 1) as nat))
}

/// The zone of a column record: its corners `j1..=j2+1` along columns `i0` and `i0+1`.
pub open spec fn col_zone(n: nat, c: ColRecord) -> Seq<OutView> {
    let h = (c.j2 - c.j1 + 2) as nat;
    seq![OutView::Text(span_zone_line("NCO"@, n, 2, h))] + Seq::new(
        h,
        |t: int| OutView::Point(c.i0 as nat, (c.j1 + t) as nat),
    ) + Seq::new(h, |t: int| OutView::Point((c.i0 + 1) as nat, (c.j1 + t) as nat))
}

pub open spec fn row_zones(rows: Seq<RowRecord>, k: nat) -> Seq<OutView>
    decreases k,
{
    if k == 0 {
        seq![]
    } else {
        row_zones(rows, (k - 1) as nat) + row_zone(k, rows[k - 1])
    }
}

pub open spec fn col_zones(cols: Seq<ColRecord>, k: nat) -> Seq<OutView>
    decreases k,
{
    if k == 0 {
        seq![]
    } else {
        col_zones(cols, (k - 1) as nat) + col_zone(k, cols[k - 1])
    }
}

/// The lines of the structured-zone output.
pub open spec fn ch4_lines(nx: nat, ny: nat, rows: Seq<RowRecord>, cols: Seq<ColRecord>) -> Seq<
    OutView,
> {
    seq![
        OutView::Text(header_line()),
        OutView::Text(main_zone_line(nx + 1, ny + 1)),
    ] + grid_points(nx + 1, ny + 1) + row_zones(rows, rows.len()) + col_zones(cols, cols.len())
}

/// The span records lie inside the grid and the grid has room for its
/// corner count.
pub open spec fn records_in_grid(r: Raster) -> bool {
    &&& r.nx < usize::MAX
    &&& r.ny < usize::MAX
    &&& records_bounded(r)
}

fn zone_header(tag: &str, n: usize, i: usize, j: usize) -> (s: String)
    ensures
        s@ == span_zone_line(tag@, n as nat, i as nat, j as nat),
{
    let mut s = string_of("ZONE T=\" ");
    push_str(&mut s, tag);
    push_str(&mut s, " ");
    push_usize_field(&mut s, n, 3);
    push_str(&mut s, "\" I=");
    push_usize_field(&mut s, i, 3);
    push_str(&mut s, " J=");
    push_usize_field(&mut s, j, 3);
    push_str(&mut s, " F=POINT");
    s
}

/// Appends points `(from + t, other)` (or `(other, from + t)` when `vertical`)
/// for `t` in `0..count`.
fn push_run(out: &mut Vec<OutLine>, from: usize, count: usize, other: usize, vertical: bool)
    requires
        from + count <= usize::MAX + 1,
    ensures
        lines_view(final(out)@) == lines_view(old(out)@) + Seq::new(
            count as nat,
            |t: int| if vertical {
                OutView::Point(other as nat, (from + t) as nat)
            } else {
                OutView::Point((from + t) as nat, other as nat)
            },
        ),
{
    let mut t: usize = 0;
    while t < count
        invariant
            t <= count,
            from + count <= usize::MAX + 1,
            lines_view(out@) == lines_view(old(out)@) + Seq::new(
                t as nat,
                |u: int| if vertical {
                    OutView::Point(other as nat, (from + u) as nat)
                } else {
                    OutView::Point((from + u) as nat, other as nat)
                },
            ),
        decreases count - t,
    {
        let ghost before = out@;
        if vertical {
            out.push(OutLine::Point(other, from + t));
        } else {
            out.push(OutLine::Point(from + t, other));
        }
        proof {
            lemma_push_line(before, out@.last());
            assert(lines_view(out@) =~= lines_view(old(out)@) + Seq::new(
                (t + 1) as nat,
                |u: int| if vertical {
                    OutView::Point(other as nat, (from + u) as nat)
                } else {
                    OutView::Point((from + u) as nat, other as nat)
                },
            ));
        }
        t = t + 1;
    }
}

/// The lines of the structured-zone output of a filled grid.
pub fn ch4_output(raster: &Raster) -> (out: Vec<OutLine>)
    requires
        records_in_grid(*raster),
    ensures
        lines_view(out@) == ch4_lines(
            raster.nx as nat,
            raster.ny as nat,
            raster.row_records@,
            raster.col_records@,
        ),
{
    let nx = raster.nx;
    let ny = raster.ny;
    let mut out: Vec<OutLine> = Vec::new();
    out.push(OutLine::Text(string_of("VARIABLES=X  Y")));
    let mut z = string_of("ZONE T=\" Main \" I=");
    push_usize_field(&mut z, nx + 1, 3);
    push_str(&mut z, " J=");
    push_usize_field(&mut z, ny + 1, 3);
    push_str(&mut z, " F=POINT");
    out.push(OutLine::Text(z));
    let ghost head = lines_view(out@);
    proof {
        assert(head =~= seq![
            OutView::Text(header_line()),
            OutView::Text(main_zone_line((nx + 1) as nat, (ny + 1) as nat)),
        ]);
    }
    // Main zone: every corner, row by row.
    let mut j: usize = 0;
    while j < ny + 1
        invariant
            j <= ny + 1,
            nx < usize::MAX,
            ny < usize::MAX,
            lines_view(out@) == head + grid_points((nx + 1) as nat, j as nat),
        decreases ny + 1 - j,
    {
        let ghost before = lines_view(out@);
        push_run(&mut out, 1, nx + 1, j + 1, false);
        proof {
            assert(Seq::new((nx + 1) as nat, |t: int| OutView::Point((1 + t) as nat, (j + 1) as nat)) =~= Seq::new(
                (nx + 1) as nat,
                |i: int| OutView::Point((i + 1) as nat, (j + 1) as nat),
            ));
            assert(grid_points((nx + 1) as nat, (j + 1) as nat) == grid_points((nx + 1) as nat, j as nat)
                + Seq::new((nx + 1) as nat, |i: int| OutView::Point((i + 1) as nat, (j + 1) as nat)));
        }
        j = j + 1;
    }
    let ghost mid = lines_view(out@);
    // One zone per row record.
    let mut k: usize = 0;
    while k < raster.row_records.len()
        invariant
            k <= raster.row_records@.len(),
            records_in_grid(*raster),
            nx == raster.nx,
            lines_view(out@) == mid + row_zones(raster.row_records@, k as nat),
        decreases raster.row_records.len() - k,
    {
        let r = raster.row_records[k];
        proof {
            assert(1 <= r.i1 <= r.i2 <= nx && 1 <= r.j0 <= raster.ny);
        }
        let w = r.i2 - r.i1 + 2;
        let ghost before = lines_view(out@);
        let ghost o = out@;
        out.push(OutLine::Text(zone_header("NRO", k + 1, w, 2)));
        proof {
            lemma_push_line(o, out@.last());
        }
        push_run(&mut out, r.i1, w, r.j0, false);
        push_run(&mut out, r.i1, w, r.j0 + 1, false);
        proof {
            assert(lines_view(out@) =~= before + row_zone((k + 1) as nat, r));
            assert(row_zones(raster.row_records@, (k + 1) as nat) == row_zones(raster.row_records@, k as nat)
                + row_zone((k + 1) as nat, raster.row_records@[k as int]));
        }
        k = k + 1;
    }
    let ghost mid2 = lines_view(out@);
    // One zone per column record.
    let mut k: usize = 0;
    while k < raster.col_records.len()
        invariant
            k <= raster.col_records@.len(),
            records_in_grid(*raster),
            ny == raster.ny,
            lines_view(out@) == mid2 + col_zones(raster.col_records@, k as nat),
        decreases raster.col_records.len() - k,
    {
        let c = raster.col_records[k];
        proof {
            assert(1 <= c.j1 <= c.j2 <= ny && 1 <= c.i0 <= raster.nx);
        }
        let h = c.j2 - c.j1 + 2;
        let ghost before = lines_view(out@);
        let ghost o = out@;
        out.push(OutLine::Text(zone_header("NCO", k + 1, 2, h)));
        proof {
            lemma_push_line(o, out@.last());
        }
        push_run(&mut out, c.j1, h, c.i0, true);
        push_run(&mut out, c.j1, h, c.i0 + 1, true);
        proof {
            assert(lines_view(out@) =~= before + col_zone((k + 1) as nat, c));
            assert(col_zones(raster.col_records@, (k + 1) as nat) == col_zones(raster.col_records@, k as nat)
                + col_zone((k + 1) as nat, raster.col_records@[k as int]));
        }
        k = k + 1;
    }
    proof {
        assert(lines_view(out@) =~= ch4_lines(
            nx as nat,
            ny as nat,
            raster.row_records@,
            raster.col_records@,
        ));
    }
    out
}

} // verus!
