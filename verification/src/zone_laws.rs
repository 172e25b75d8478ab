//! Laws of the structured-zone and legacy text outputs: how many lines the
//! zone output has, that every coordinate line it asks for is a corner of the
//! grid, what each span zone's header declares and which corners follow it,
//! and the fields of the record and element lines of the text output.
use vstd::prelude::*;

use crate::output_tecplot::{ch4_lines, col_zone, col_zones, grid_points, row_zone, row_zones};
use crate::output_text::{ch2_lines, OutView};
use crate::scanline_rasterizer::{ColRecord, RowRecord};
use crate::text::{fortran_field, int_field, nat_text};

verus! {

/// Every coordinate line of `v` names a corner `(a, b)` with
/// `1 <= a <= w` and `1 <= b <= h`.
pub open spec fn points_within(v: Seq<OutView>, w: nat, h: nat) -> bool {
    forall|t: int|
        0 <= t < v.len() ==> match #[trigger] v[t] {
            OutView::Point(a, b) => 1 <= a <= w && 1 <= b <= h,
            _ => true,
        }
}

/// The row records lie on an `nx × ny` grid.
pub open spec fn rows_on_grid(rows: Seq<RowRecord>, nx: nat, ny: nat) -> bool {
    forall|k: int| 0 <= k < rows.len() ==> 1 <= (#[trigger] rows[k]).i1 <= rows[k].i2 <= nx && 1 <= rows[k].j0 <= ny
}

/// The column records lie on an `nx × ny` grid.
pub open spec fn cols_on_grid(cols: Seq<ColRecord>, nx: nat, ny: nat) -> bool {
    forall|k: int| 0 <= k < cols.len() ==> 1 <= (#[trigger] cols[k]).j1 <= cols[k].j2 <= ny && 1 <= cols[k].i0 <= nx
}

/// Lines of the zones of the first `k` row records: a header and two rows
/// of `i2 - i1 + 2` corners each.
pub open spec fn row_zone_lines(rows: Seq<RowRecord>, k: nat) -> nat
    decreases k,
{
    if k == 0 {
        0
    } else {
        row_zone_lines(rows, (k - 1) as nat) + 1 + 2 * ((rows[k - 1].i2 - rows[k - 1].i1 + 2) as nat)
    }
}

/// Lines of the zones of the first `k` column records.
pub open spec fn col_zone_lines(cols: Seq<ColRecord>, k: nat) -> nat
    decreases k,
{
    if k == 0 {
        0
    } else {
        col_zone_lines(cols, (k - 1) as nat) + 1 + 2 * ((cols[k - 1].j2 - cols[k - 1].j1 + 2) as nat)
    }
}

proof fn lemma_points_within_add(a: Seq<OutView>, b: Seq<OutView>, w: nat, h: nat)
    requires
        points_within(a, w, h),
        points_within(b, w, h),
    ensures
        points_within(a + b, w, h),
{
    assert forall|t: int| 0 <= t < (a + b).len() implies match #[trigger] (a + b)[t] {
        OutView::Point(x, y) => 1 <= x <= w && 1 <= y <= h,
        _ => true,
    } by {
        if t < a.len() {
            assert((a + b)[t] == a[t]);
        } else {
            assert((a + b)[t] == b[t - a.len()]);
        }
    }
}

proof fn lemma_grid_points(w: nat, r: nat)
    ensures
        grid_points(w, r).len() == w * r,
        points_within(grid_points(w, r), w, r),
    decreases r,
{
    if r > 0 {
        lemma_grid_points(w, (r - 1) as nat);
        let row = Seq::new(w, |i: int| OutView::Point((i + 1) as nat, r));
        assert(points_within(grid_points(w, (r - 1) as nat), w, r)) by {
            assert forall|t: int| 0 <= t < grid_points(w, (r - 1) as nat).len() implies match #[trigger] grid_points(
                w,
                (r - 1) as nat,
            )[t] {
                OutView::Point(x, y) => 1 <= x <= w && 1 <= y <= r,
                _ => true,
            } by {}
        }
        lemma_points_within_add(grid_points(w, (r - 1) as nat), row, w, r);
        assert(w * ((r - 1) as nat) + w == w * r) by (nonlinear_arith)
            requires
                r > 0,
        ;
        assert(grid_points(w, r) == grid_points(w, (r - 1) as nat) + row);
    } else {
        assert(w * r == 0) by (nonlinear_arith)
            requires
                r == 0,
        ;
    }
}

proof fn lemma_row_zones(rows: Seq<RowRecord>, k: nat, nx: nat, ny: nat)
    requires
        k <= rows.len(),
        rows_on_grid(rows, nx, ny),
    ensures
        row_zones(rows, k).len() == row_zone_lines(rows, k),
        points_within(row_zones(rows, k), nx + 1, ny + 1),
    decreases k,
{
    if k > 0 {
        lemma_row_zones(rows, (k - 1) as nat, nx, ny);
        let r = rows[k - 1];
        let z = row_zone(k, r);
        assert(1 <= r.i1 <= r.i2 <= nx && 1 <= r.j0 <= ny);
        assert(points_within(z, nx + 1, ny + 1)) by {
            let w = (r.i2 - r.i1 + 2) as nat;
            let head = seq![OutView::Text(crate::output_tecplot::span_zone_line("NRO"@, k, w, 2))];
            let lo = Seq::new(w, |t: int| OutView::Point((r.i1 + t) as nat, r.j0 as nat));
            let hi = Seq::new(w, |t: int| OutView::Point((r.i1 + t) as nat, (r.j0 + 1) as nat));
            assert(z == head + lo + hi);
            assert forall|t: int| 0 <= t < z.len() implies match #[trigger] z[t] {
                OutView::Point(x, y) => 1 <= x <= nx + 1 && 1 <= y <= ny + 1,
                _ => true,
            } by {
                if t >= 1 && t < 1 + w {
                    assert(z[t] == lo[t - 1]);
                } else if t >= 1 + w {
                    assert(z[t] == hi[t - 1 - w]);
                }
            }
        }
        lemma_points_within_add(row_zones(rows, (k - 1) as nat), z, nx + 1, ny + 1);
    }
}

proof fn lemma_col_zones(cols: Seq<ColRecord>, k: nat, nx: nat, ny: nat)
    requires
        k <= cols.len(),
        cols_on_grid(cols, nx, ny),
    ensures
        col_zones(cols, k).len() == col_zone_lines(cols, k),
        points_within(col_zones(cols, k), nx + 1, ny + 1),
    decreases k,
{
    if k > 0 {
        lemma_col_zones(cols, (k - 1) as nat, nx, ny);
        let c = cols[k - 1];
        let z = col_zone(k, c);
        assert(1 <= c.j1 <= c.j2 <= ny && 1 <= c.i0 <= nx);
        assert(points_within(z, nx + 1, ny + 1)) by {
            let h = (c.j2 - c.j1 + 2) as nat;
            let head = seq![OutView::Text(crate::output_tecplot::span_zone_line("NCO"@, k, 2, h))];
            let lo = Seq::new(h, |t: int| OutView::Point(c.i0 as nat, (c.j1 + t) as nat));
            let hi = Seq::new(h, |t: int| OutView::Point((c.i0 + 1) as nat, (c.j1 + t) as nat));
            assert(z == head + lo + hi);
            assert forall|t: int| 0 <= t < z.len() implies match #[trigger] z[t] {
                OutView::Point(x, y) => 1 <= x <= nx + 1 && 1 <= y <= ny + 1,
                _ => true,
            } by {
                if t >= 1 && t < 1 + h {
                    assert(z[t] == lo[t - 1]);
                } else if t >= 1 + h {
                    assert(z[t] == hi[t - 1 - h]);
                }
            }
        }
        lemma_points_within_add(col_zones(cols, (k - 1) as nat), z, nx + 1, ny + 1);
    }
}

/// The structured-zone output of an `nx × ny` grid has a header line, the
/// main zone header and its `(nx + 1)(ny + 1)` corners, then one zone per
/// row record (a header and two rows of corners) and one per column record;
/// every coordinate line it asks for is a corner of the grid.
pub proof fn lemma_ch4_layout(nx: nat, ny: nat, rows: Seq<RowRecord>, cols: Seq<ColRecord>)
    requires
        rows_on_grid(rows, nx, ny),
        cols_on_grid(cols, nx, ny),
    ensures
        ch4_lines(nx, ny, rows, cols).len() == 2 + (nx + 1) * (ny + 1) + row_zone_lines(rows, rows.len())
            + col_zone_lines(cols, cols.len()),
        points_within(ch4_lines(nx, ny, rows, cols), nx + 1, ny + 1),
{
    lemma_grid_points(nx + 1, ny + 1);
    lemma_row_zones(rows, rows.len(), nx, ny);
    lemma_col_zones(cols, cols.len(), nx, ny);
    let head = seq![
        OutView::Text(crate::output_tecplot::header_line()),
        OutView::Text(crate::output_tecplot::main_zone_line(nx + 1, ny + 1)),
    ];
    assert(points_within(head, nx + 1, ny + 1)) by {
        assert forall|t: int| 0 <= t < head.len() implies match #[trigger] head[t] {
            OutView::Point(x, y) => 1 <= x <= nx + 1 && 1 <= y <= ny + 1,
            _ => true,
        } by {}
    }
    let g = grid_points(nx + 1, ny + 1);
    let rz = row_zones(rows, rows.len());
    let cz = col_zones(cols, cols.len());
    lemma_points_within_add(head, g, nx + 1, ny + 1);
    lemma_points_within_add(head + g, rz, nx + 1, ny + 1);
    lemma_points_within_add(head + g + rz, cz, nx + 1, ny + 1);
    assert(ch4_lines(nx, ny, rows, cols) == head + g + rz + cz);
}

proof fn lemma_row_zones_prefix(rows: Seq<RowRecord>, k: nat, m: nat)
    requires
        k <= m <= rows.len(),
    ensures
        row_zones(rows, k).len() <= row_zones(rows, m).len(),
        row_zones(rows, m).subrange(0, row_zones(rows, k).len() as int) == row_zones(rows, k),
    decreases m,
{
    if m > k {
        lemma_row_zones_prefix(rows, k, (m - 1) as nat);
        let a = row_zones(rows, (m - 1) as nat);
        let z = row_zone(m, rows[m - 1]);
        assert((a + z).subrange(0, row_zones(rows, k).len() as int) =~= a.subrange(
            0,
            row_zones(rows, k).len() as int,
        ));
    }
}

proof fn lemma_col_zones_prefix(cols: Seq<ColRecord>, k: nat, m: nat)
    requires
        k <= m <= cols.len(),
    ensures
        col_zones(cols, k).len() <= col_zones(cols, m).len(),
        col_zones(cols, m).subrange(0, col_zones(cols, k).len() as int) == col_zones(cols, k),
    decreases m,
{
    if m > k {
        lemma_col_zones_prefix(cols, k, (m - 1) as nat);
        let a = col_zones(cols, (m - 1) as nat);
        let z = col_zone(m, cols[m - 1]);
        assert((a + z).subrange(0, col_zones(cols, k).len() as int) =~= a.subrange(
            0,
            col_zones(cols, k).len() as int,
        ));
    }
}

/// The zone of row record `k` (0-based) in the structured-zone output: it
/// starts at line `2 + (nx + 1)(ny + 1)` plus the lines of the zones before
/// it, with the header `ZONE T=" NRO <k+1>" I=<i2 - i1 + 2> J=  2 F=POINT`
/// (each number right-justified in three columns), then the `i2 - i1 + 2`
/// corners `i1, i1 + 1, …` of row `j0`, then the same corners of row
/// `j0 + 1`: `I` counts the corners of each row, which come first, and `J`
/// the two rows.
pub proof fn lemma_ch4_row_zone(nx: nat, ny: nat, rows: Seq<RowRecord>, cols: Seq<ColRecord>, k: int)
    requires
        rows_on_grid(rows, nx, ny),
        cols_on_grid(cols, nx, ny),
        0 <= k < rows.len(),
    ensures
        ({
            let v = ch4_lines(nx, ny, rows, cols);
            let r = rows[k];
            let w = r.i2 - r.i1 + 2;
            let off = 2 + (nx + 1) * (ny + 1) + row_zone_lines(rows, k as nat);
            &&& off + 1 + 2 * w <= v.len()
            &&& v[off as int] == OutView::Text(
                "ZONE T=\" NRO "@ + int_field(k + 1, 3) + "\" I="@ + int_field(w, 3) + " J="@
                    + int_field(2, 3) + " F=POINT"@,
            )
            &&& forall|t: int|
                0 <= t < w ==> #[trigger] v[off + 1 + t] == OutView::Point((r.i1 + t) as nat, r.j0 as nat)
                    && v[off + 1 + w + t] == OutView::Point((r.i1 + t) as nat, (r.j0 + 1) as nat)
        }),
{
    let v = ch4_lines(nx, ny, rows, cols);
    let r = rows[k];
    let w = r.i2 - r.i1 + 2;
    lemma_ch4_layout(nx, ny, rows, cols);
    lemma_grid_points(nx + 1, ny + 1);
    lemma_row_zones(rows, k as nat, nx, ny);
    lemma_row_zones(rows, (k + 1) as nat, nx, ny);
    lemma_row_zones(rows, rows.len(), nx, ny);
    lemma_row_zones_prefix(rows, (k + 1) as nat, rows.len());
    let head = seq![
        OutView::Text(crate::output_tecplot::header_line()),
        OutView::Text(crate::output_tecplot::main_zone_line(nx + 1, ny + 1)),
    ];
    let g = grid_points(nx + 1, ny + 1);
    let rz = row_zones(rows, rows.len());
    let cz = col_zones(cols, cols.len());
    assert(v == head + g + rz + cz);
    let base = 2 + (nx + 1) * (ny + 1);
    let pre = row_zones(rows, k as nat);
    let z = row_zone((k + 1) as nat, r);
    assert(row_zones(rows, (k + 1) as nat) == pre + z);
    assert(pre.len() == row_zone_lines(rows, k as nat));
    let off = base + pre.len();
    assert forall|x: int| 0 <= x < z.len() implies v[off + x] == #[trigger] z[x] by {
        assert(v[off + x] == rz[pre.len() + x]);
        assert(rz[pre.len() + x] == row_zones(rows, (k + 1) as nat)[pre.len() + x]);
    }
    let lit = "ZONE T=\" NRO "@ + int_field(k + 1, 3) + "\" I="@ + int_field(w, 3) + " J="@ + int_field(2, 3)
        + " F=POINT"@;
    assert(crate::output_tecplot::span_zone_line("NRO"@, (k + 1) as nat, w as nat, 2) == lit) by {
        reveal_strlit("ZONE T=\" ");
        reveal_strlit("NRO");
        reveal_strlit(" ");
        reveal_strlit("ZONE T=\" NRO ");
        assert("ZONE T=\" "@ + "NRO"@ + " "@ =~= "ZONE T=\" NRO "@);
        assert(crate::output_tecplot::span_zone_line("NRO"@, (k + 1) as nat, w as nat, 2) =~= lit);
    }
    assert(v[off as int] == z[0]);
    assert forall|t: int| 0 <= t < w implies #[trigger] v[off + 1 + t] == OutView::Point(
        (r.i1 + t) as nat,
        r.j0 as nat,
    ) && v[off + 1 + w + t] == OutView::Point((r.i1 + t) as nat, (r.j0 + 1) as nat) by {
        assert(v[off + 1 + t] == z[1 + t]);
        assert(v[off + 1 + w + t] == z[1 + w + t]);
    }
}

/// The zone of column record `k` (0-based): after the main zone and all row
/// zones and the column zones before it, the header
/// `ZONE T=" NCO <k+1>" I=  2 J=<j2 - j1 + 2> F=POINT`, then the corners
/// `j1, j1 + 1, …` of column `i0`, then those of column `i0 + 1`.
pub proof fn lemma_ch4_col_zone(nx: nat, ny: nat, rows: Seq<RowRecord>, cols: Seq<ColRecord>, k: int)
    requires
        rows_on_grid(rows, nx, ny),
        cols_on_grid(cols, nx, ny),
        0 <= k < cols.len(),
    ensures
        ({
            let v = ch4_lines(nx, ny, rows, cols);
            let c = cols[k];
            let h = c.j2 - c.j1 + 2;
            let off = 2 + (nx + 1) * (ny + 1) + row_zone_lines(rows, rows.len()) + col_zone_lines(
                cols,
                k as nat,
            );
            &&& off + 1 + 2 * h <= v.len()
            &&& v[off as int] == OutView::Text(
                "ZONE T=\" NCO "@ + int_field(k + 1, 3) + "\" I="@ + int_field(2, 3) + " J="@
                    + int_field(h, 3) + " F=POINT"@,
            )
            &&& forall|t: int|
                0 <= t < h ==> #[trigger] v[off + 1 + t] == OutView::Point(c.i0 as nat, (c.j1 + t) as nat)
                    && v[off + 1 + h + t] == OutView::Point((c.i0 + 1) as nat, (c.j1 + t) as nat)
        }),
{
    let v = ch4_lines(nx, ny, rows, cols);
    let c = cols[k];
    let h = c.j2 - c.j1 + 2;
    lemma_ch4_layout(nx, ny, rows, cols);
    lemma_grid_points(nx + 1, ny + 1);
    lemma_row_zones(rows, rows.len(), nx, ny);
    lemma_col_zones(cols, k as nat, nx, ny);
    lemma_col_zones(cols, (k + 1) as nat, nx, ny);
    lemma_col_zones(cols, cols.len(), nx, ny);
    lemma_col_zones_prefix(cols, (k + 1) as nat, cols.len());
    let head = seq![
        OutView::Text(crate::output_tecplot::header_line()),
        OutView::Text(crate::output_tecplot::main_zone_line(nx + 1, ny + 1)),
    ];
    let g = grid_points(nx + 1, ny + 1);
    let rz = row_zones(rows, rows.len());
    let cz = col_zones(cols, cols.len());
    assert(v == head + g + rz + cz);
    let base = 2 + (nx + 1) * (ny + 1) + rz.len();
    let pre = col_zones(cols, k as nat);
    let z = col_zone((k + 1) as nat, c);
    assert(col_zones(cols, (k + 1) as nat) == pre + z);
    let off = base + pre.len();
    assert forall|x: int| 0 <= x < z.len() implies v[off + x] == #[trigger] z[x] by {
        assert(v[off + x] == cz[pre.len() + x]);
        assert(cz[pre.len() + x] == col_zones(cols, (k + 1) as nat)[pre.len() + x]);
    }
    let lit = "ZONE T=\" NCO "@ + int_field(k + 1, 3) + "\" I="@ + int_field(2, 3) + " J="@ + int_field(h, 3)
        + " F=POINT"@;
    assert(crate::output_tecplot::span_zone_line("NCO"@, (k + 1) as nat, 2, h as nat) == lit) by {
        reveal_strlit("ZONE T=\" ");
        reveal_strlit("NCO");
        reveal_strlit(" ");
        reveal_strlit("ZONE T=\" NCO ");
        assert("ZONE T=\" "@ + "NCO"@ + " "@ =~= "ZONE T=\" NCO "@);
        assert(crate::output_tecplot::span_zone_line("NCO"@, (k + 1) as nat, 2, h as nat) =~= lit);
    }
    assert(v[off as int] == z[0]);
    assert forall|t: int| 0 <= t < h implies #[trigger] v[off + 1 + t] == OutView::Point(
        c.i0 as nat,
        (c.j1 + t) as nat,
    ) && v[off + 1 + h + t] == OutView::Point((c.i0 + 1) as nat, (c.j1 + t) as nat) by {
        assert(v[off + 1 + t] == z[1 + t]);
        assert(v[off + 1 + h + t] == z[1 + h + t]);
    }
}

/// The lines of the legacy text output, field by field: the spacing, then
/// ` nx  ny`, ` <row record count>`, the row records, ` <column record
/// count>`, the column records, ` <nodes>  <elements>`, one coordinate line
/// per node in numbering order, then the elements. Row record `k` is line
/// `3 + k` with `i1, i2, j0, kn_left, kn_right` in
/// `I6` fields; column record `k` follows the row records and their count,
/// with `j1, j2, i0, kn_bot, kn_top`; element `k` comes after the node
/// coordinates, with its four node numbers, then the column `ik` and the row
/// `jk` of its cell, in `I9` fields.
pub proof fn lemma_ch2_fields(
    nx: nat,
    ny: nat,
    rows: Seq<RowRecord>,
    cols: Seq<ColRecord>,
    corners: Seq<(usize, usize)>,
    elements: Seq<[usize; 4]>,
    elem_ij: Seq<(usize, usize)>,
)
    requires
        elem_ij.len() == elements.len(),
    ensures
        ({
            let v = ch2_lines(nx, ny, rows, cols, corners, elements, elem_ij);
            let el0 = 3 + rows.len() + 1 + cols.len() + 1 + corners.len();
            &&& v.len() == el0 + elements.len()
            &&& v[0] == OutView::Spacing
            &&& v[1] == OutView::Text(" "@ + nat_text(nx) + "  "@ + nat_text(ny))
            &&& v[2] == OutView::Text(" "@ + nat_text(rows.len()))
            &&& v[3 + rows.len() as int] == OutView::Text(" "@ + nat_text(cols.len()))
            &&& v[4 + rows.len() + cols.len() as int] == OutView::Text(
                " "@ + nat_text(corners.len()) + "  "@ + nat_text(elements.len()),
            )
            &&& forall|k: int|
                0 <= k < corners.len() ==> #[trigger] v[5 + rows.len() + cols.len() + k] == OutView::Point(
                    corners[k].0 as nat,
                    corners[k].1 as nat,
                )
            &&& forall|k: int|
                0 <= k < rows.len() ==> #[trigger] v[3 + k] == OutView::Text(
                    fortran_field(rows[k].i1 as int, 6) + fortran_field(rows[k].i2 as int, 6)
                        + fortran_field(rows[k].j0 as int, 6) + fortran_field(rows[k].kn_left as int, 6)
                        + fortran_field(rows[k].kn_right as int, 6),
                )
            &&& forall|k: int|
                0 <= k < cols.len() ==> #[trigger] v[4 + rows.len() + k] == OutView::Text(
                    fortran_field(cols[k].j1 as int, 6) + fortran_field(cols[k].j2 as int, 6)
                        + fortran_field(cols[k].i0 as int, 6) + fortran_field(cols[k].kn_bot as int, 6)
                        + fortran_field(cols[k].kn_top as int, 6),
                )
            &&& forall|k: int|
                0 <= k < elements.len() ==> #[trigger] v[el0 + k] == OutView::Text(
                    fortran_field(elements[k]@[0] as int, 9) + fortran_field(elements[k]@[1] as int, 9)
                        + fortran_field(elements[k]@[2] as int, 9) + fortran_field(elements[k]@[3] as int, 9)
                        + fortran_field(elem_ij[k].0 as int, 9) + fortran_field(elem_ij[k].1 as int, 9),
                )
        }),
{
    let v = ch2_lines(nx, ny, rows, cols, corners, elements, elem_ij);
    let el0 = 3 + rows.len() + 1 + cols.len() + 1 + corners.len();
    assert forall|k: int| 0 <= k < rows.len() implies #[trigger] v[3 + k] == OutView::Text(
        fortran_field(rows[k].i1 as int, 6) + fortran_field(rows[k].i2 as int, 6) + fortran_field(
            rows[k].j0 as int,
            6,
        ) + fortran_field(rows[k].kn_left as int, 6) + fortran_field(rows[k].kn_right as int, 6),
    ) by {}
    assert forall|k: int| 0 <= k < cols.len() implies #[trigger] v[4 + rows.len() + k] == OutView::Text(
        fortran_field(cols[k].j1 as int, 6) + fortran_field(cols[k].j2 as int, 6) + fortran_field(
            cols[k].i0 as int,
            6,
        ) + fortran_field(cols[k].kn_bot as int, 6) + fortran_field(cols[k].kn_top as int, 6),
    ) by {}
    assert forall|k: int| 0 <= k < elements.len() implies #[trigger] v[el0 + k] == OutView::Text(
        fortran_field(elements[k]@[0] as int, 9) + fortran_field(elements[k]@[1] as int, 9) + fortran_field(
            elements[k]@[2] as int,
            9,
        ) + fortran_field(elements[k]@[3] as int, 9) + fortran_field(elem_ij[k].0 as int, 9)
            + fortran_field(elem_ij[k].1 as int, 9),
    ) by {}
}

proof fn lemma_grid_point_at(w: nat, r: nat, q: int, a: int)
    requires
        0 <= q < r,
        0 <= a < w,
    ensures
        q * w + a < grid_points(w, r).len(),
        grid_points(w, r)[q * w + a] == OutView::Point((a + 1) as nat, (q + 1) as nat),
    decreases r,
{
    lemma_grid_points(w, r);
    lemma_grid_points(w, (r - 1) as nat);
    let prev = grid_points(w, (r - 1) as nat);
    let row = Seq::new(w, |i: int| OutView::Point((i + 1) as nat, r));
    assert(grid_points(w, r) == prev + row);
    assert(q * w + a < r * w) by (nonlinear_arith)
        requires
            0 <= q < r,
            0 <= a < w,
    ;
    if q < r - 1 {
        lemma_grid_point_at(w, (r - 1) as nat, q, a);
        assert(q * w + a < (r - 1) * w) by (nonlinear_arith)
            requires
                0 <= q < r - 1,
                0 <= a < w,
        ;
    } else {
        assert(q * w == (r - 1) * w);
        assert(prev.len() == w * ((r - 1) as nat));
        assert((r - 1) * w == w * ((r - 1) as nat)) by (nonlinear_arith)
            requires
                r > 0,
        ;
    }
}

/// The head of the structured-zone output: the line `VARIABLES=X  Y`, the
/// main zone header `ZONE T=" Main " I=<nx+1> J=<ny+1> F=POINT`, then every
/// corner of the grid with the column varying fastest: corner `(a, b)`
/// (1-based) on line `2 + (b - 1)(nx + 1) + (a - 1)`.
pub proof fn lemma_ch4_main_zone(nx: nat, ny: nat, rows: Seq<RowRecord>, cols: Seq<ColRecord>)
    requires
        rows_on_grid(rows, nx, ny),
        cols_on_grid(cols, nx, ny),
    ensures
        ({
            let v = ch4_lines(nx, ny, rows, cols);
            &&& v[0] == OutView::Text("VARIABLES=X  Y"@)
            &&& v[1] == OutView::Text(
                "ZONE T=\" Main \" I="@ + int_field(nx + 1 as int, 3) + " J="@ + int_field(ny + 1 as int, 3) + " F=POINT"@,
            )
            &&& forall|a: int, b: int|
                0 <= a <= nx && 0 <= b <= ny ==> 2 + b * (nx + 1) + a < v.len() && #[trigger] v[2 + b * (nx + 1)
                    + a] == OutView::Point((a + 1) as nat, (b + 1) as nat)
        }),
{
    let v = ch4_lines(nx, ny, rows, cols);
    lemma_ch4_layout(nx, ny, rows, cols);
    let head = seq![
        OutView::Text(crate::output_tecplot::header_line()),
        OutView::Text(crate::output_tecplot::main_zone_line(nx + 1, ny + 1)),
    ];
    let g = grid_points(nx + 1, ny + 1);
    let rz = row_zones(rows, rows.len());
    let cz = col_zones(cols, cols.len());
    assert(v == head + g + rz + cz);
    lemma_grid_points(nx + 1, ny + 1);
    assert forall|a: int, b: int| 0 <= a <= nx && 0 <= b <= ny implies 2 + b * (nx + 1) + a < v.len()
        && #[trigger] v[2 + b * (nx + 1) + a] == OutView::Point((a + 1) as nat, (b + 1) as nat) by {
        lemma_grid_point_at(nx + 1, ny + 1, b, a);
        assert(v[2 + b * (nx + 1) + a] == g[b * (nx + 1) + a]);
    }
}

} // verus!
