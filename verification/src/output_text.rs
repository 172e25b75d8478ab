//! The legacy text output (`output_text.txt`), and the line model shared by
//! the text writers.
//!
//! The integer fields follow the Fortran FORMAT statements: `'(5i6)'` for span
//! records and `'(6i9)'` for element connectivity; a value too wide for its
//! field prints as asterisks, so every such line has a fixed length.  Lines that carry
//! floating-point values are left as markers — [`OutLine::Spacing`] for the
//! `dx dy` header and [`OutLine::Point`] for a grid-corner coordinate — which
//! the file writer renders with the format of the file.
//!
//! ```text
//! <dx> <dy>
//! <nx> <ny>
//! <nro>
//! i1 i2 j0 kn_left kn_right    ← nro lines, '(5i6)'
//! <nco>
//! j1 j2 i0 kn_bot  kn_top      ← nco lines, '(5i6)'
//! <nnode> <nelem>
//! x  y                          ← nnode lines, '(2f11.1)'
//! n1 n2 n4 n3 ik jk             ← nelem lines, '(6i9)'
//! ```
use vstd::prelude::*;

use crate::scanline_rasterizer::{ColRecord, QuadMesh, Raster, RowRecord};
use crate::text::{
    fortran_field, int_field, int_text, lemma_fortran_field_len,
    lemma_nat_text_len_bound, nat_text, pow10, push_fortran_field, push_nat, push_stars, push_str,
    string_of,
};

verus! {

/// One output line.
#[derive(Debug, Clone)]
pub enum OutLine {
    /// A finished line of text.
    Text(String),
    /// The `dx dy` header line.
    Spacing,
    /// The coordinates of grid corner `(l1, l2)`:
    /// `(xmin + (l1 - 1.5)·dx, ymin + (l2 - 1.5)·dy)`.
    Point(usize, usize),
}

/// What an output line holds.
pub enum OutView {
    Text(Seq<char>),
    Spacing,
    Point(nat, nat),
}

pub open spec fn out_view(l: OutLine) -> OutView {
    match l {
        OutLine::Text(s) => OutView::Text(s@),
        OutLine::Spacing => OutView::Spacing,
        OutLine::Point(a, b) => OutView::Point(a as nat, b as nat),
    }
}

pub open spec fn lines_view(v: Seq<OutLine>) -> Seq<OutView> {
    v.map_values(|l: OutLine| out_view(l))
}

/// Fortran `'(5i6)'`: five integers, each right-justified in width 6 (six
/// asterisks for one that does not fit).
pub open spec fn five_i6(a: int, b: int, c: int, d: int, e: int) -> Seq<char> {
    fortran_field(a, 6) + fortran_field(b, 6) + fortran_field(c, 6) + fortran_field(d, 6)
        + fortran_field(e, 6)
}

/// Fortran `'(6i9)'`: six integers, each right-justified in width 9 (nine
/// asterisks for one that does not fit).
pub open spec fn six_i9(a: int, b: int, c: int, d: int, e: int, f: int) -> Seq<char> {
    fortran_field(a, 9) + fortran_field(b, 9) + fortran_field(c, 9) + fortran_field(d, 9)
        + fortran_field(e, 9) + fortran_field(f, 9)
}

/// Fortran `'(5i6)'` — five integers, each right-justified in width 6;
/// always exactly 30 characters.
pub fn fmt_5i6(a: i64, b: i64, c: i64, d: i64, e: i64) -> (s: String)
    ensures
        s@ == five_i6(a as int, b as int, c as int, d as int, e as int),
{
    let mut s = String::new();
    push_fortran_field(&mut s, a, 6);
    push_fortran_field(&mut s, b, 6);
    push_fortran_field(&mut s, c, 6);
    push_fortran_field(&mut s, d, 6);
    push_fortran_field(&mut s, e, 6);
    s
}

/// Fortran `'(6i9)'` — six integers, each right-justified in width 9;
/// always exactly 54 characters.
pub fn fmt_6i9(a: i64, b: i64, c: i64, d: i64, e: i64, f: i64) -> (s: String)
    ensures
        s@ == six_i9(a as int, b as int, c as int, d as int, e as int, f as int),
{
    let mut s = String::new();
    push_fortran_field(&mut s, a, 9);
    push_fortran_field(&mut s, b, 9);
    push_fortran_field(&mut s, c, 9);
    push_fortran_field(&mut s, d, 9);
    push_fortran_field(&mut s, e, 9);
    push_fortran_field(&mut s, f, 9);
    s
}

/// An integer with fewer than `k` digits (a negative one, fewer than `k - 1`)
/// has a decimal text of at most `k` characters.
pub proof fn lemma_int_text_fits(v: int, k: nat)
    requires
        k >= 1,
        -(pow10((k - 1) as nat) as int) < v < pow10(k),
    ensures
        int_text(v).len() <= k,
{
    if v >= 0 {
        lemma_nat_text_len_bound(v as nat, k);
    } else {
        assert(k >= 2) by {
            if k == 1 {
                assert(pow10(0) == 1);
            }
        }
        lemma_nat_text_len_bound((-v) as nat, (k - 1) as nat);
    }
}

/// A `(5i6)` line is always exactly 30 characters.
pub proof fn lemma_five_i6_len(a: int, b: int, c: int, d: int, e: int)
    ensures
        five_i6(a, b, c, d, e).len() == 30,
{
    lemma_fortran_field_len(a, 6);
    lemma_fortran_field_len(b, 6);
    lemma_fortran_field_len(c, 6);
    lemma_fortran_field_len(d, 6);
    lemma_fortran_field_len(e, 6);
}

/// A `(6i9)` line is always exactly 54 characters.
pub proof fn lemma_six_i9_len(a: int, b: int, c: int, d: int, e: int, f: int)
    ensures
        six_i9(a, b, c, d, e, f).len() == 54,
{
    lemma_fortran_field_len(a, 9);
    lemma_fortran_field_len(b, 9);
    lemma_fortran_field_len(c, 9);
    lemma_fortran_field_len(d, 9);
    lemma_fortran_field_len(e, 9);
    lemma_fortran_field_len(f, 9);
}

/// Integers of at most six characters (`-99999..=999999`) print in full in
/// a `(5i6)` line: each field is the integer right-justified, with no
/// asterisks.
pub proof fn lemma_five_i6_fits(a: int, b: int, c: int, d: int, e: int)
    requires
        -99999 <= a <= 999999,
        -99999 <= b <= 999999,
        -99999 <= c <= 999999,
        -99999 <= d <= 999999,
        -99999 <= e <= 999999,
    ensures
        five_i6(a, b, c, d, e) == int_field(a, 6) + int_field(b, 6) + int_field(c, 6) + int_field(d, 6)
            + int_field(e, 6),
{
    reveal_with_fuel(pow10, 7);
    lemma_int_text_fits(a, 6);
    lemma_int_text_fits(b, 6);
    lemma_int_text_fits(c, 6);
    lemma_int_text_fits(d, 6);
    lemma_int_text_fits(e, 6);
}

/// Integers of at most nine characters (`-99999999..=999999999`) print in
/// full in a `(6i9)` line.
pub proof fn lemma_six_i9_fits(a: int, b: int, c: int, d: int, e: int, f: int)
    requires
        -99999999 <= a <= 999999999,
        -99999999 <= b <= 999999999,
        -99999999 <= c <= 999999999,
        -99999999 <= d <= 999999999,
        -99999999 <= e <= 999999999,
        -99999999 <= f <= 999999999,
    ensures
        six_i9(a, b, c, d, e, f) == int_field(a, 9) + int_field(b, 9) + int_field(c, 9) + int_field(d, 9)
            + int_field(e, 9) + int_field(f, 9),
{
    reveal_with_fuel(pow10, 10);
    lemma_int_text_fits(a, 9);
    lemma_int_text_fits(b, 9);
    lemma_int_text_fits(c, 9);
    lemma_int_text_fits(d, 9);
    lemma_int_text_fits(e, 9);
    lemma_int_text_fits(f, 9);
}

/// `" a  b"` (list-directed output of two integers).
pub open spec fn pair_line(a: nat, b: nat) -> Seq<char> {
    " "@ + nat_text(a) + "  "@ + nat_text(b)
}

/// `" a"` (list-directed output of one integer).
pub open spec fn count_line(a: nat) -> Seq<char> {
    " "@ + nat_text(a)
}

pub open spec fn row_line(r: RowRecord) -> Seq<char> {
    five_i6(r.i1 as int, r.i2 as int, r.j0 as int, r.kn_left as int, r.kn_right as int)
}

pub open spec fn col_line(c: ColRecord) -> Seq<char> {
    five_i6(c.j1 as int, c.j2 as int, c.i0 as int, c.kn_bot as int, c.kn_top as int)
}

pub open spec fn elem_line(el: [usize; 4], ij: (usize, usize)) -> Seq<char> {
    six_i9(el@[0] as int, el@[1] as int, el@[2] as int, el@[3] as int, ij.0 as int, ij.1 as int)
}

/// The lines of the legacy text output.
pub open spec fn ch2_lines(
    nx: nat,
    ny: nat,
    rows: Seq<RowRecord>,
    cols: Seq<ColRecord>,
    corners: Seq<(usize, usize)>,
    elements: Seq<[usize; 4]>,
    elem_ij: Seq<(usize, usize)>,
) -> Seq<OutView> {
    seq![OutView::Spacing, OutView::Text(pair_line(nx, ny)), OutView::Text(count_line(rows.len()))]
        + Seq::new(rows.len(), |k: int| OutView::Text(row_line(rows[k])))
        + seq![OutView::Text(count_line(cols.len()))]
        + Seq::new(cols.len(), |k: int| OutView::Text(col_line(cols[k])))
        + seq![OutView::Text(pair_line(corners.len(), elements.len()))]
        + Seq::new(corners.len(), |k: int| OutView::Point(corners[k].0 as nat, corners[k].1 as nat))
        + Seq::new(elements.len(), |k: int| OutView::Text(elem_line(elements[k], elem_ij[k])))
}

fn pair_text(a: usize, b: usize) -> (s: String)
    ensures
        s@ == pair_line(a as nat, b as nat),
{
    let mut s = string_of(" ");
    push_nat(&mut s, a as u64);
    push_str(&mut s, "  ");
    push_nat(&mut s, b as u64);
    s
}

fn count_text(a: usize) -> (s: String)
    ensures
        s@ == count_line(a as nat),
{
    let mut s = string_of(" ");
    push_nat(&mut s, a as u64);
    s
}

fn field5(a: usize, b: usize, c: usize, d: i32, e: i32) -> (s: String)
    ensures
        s@ == five_i6(a as int, b as int, c as int, d as int, e as int),
{
    let mut s = String::new();
    push_usize_fortran_field(&mut s, a, 6);
    push_usize_fortran_field(&mut s, b, 6);
    push_usize_fortran_field(&mut s, c, 6);
    push_fortran_field(&mut s, d as i64, 6);
    push_fortran_field(&mut s, e as i64, 6);
    s
}

/// Appends a non-negative integer as a Fortran `Iw` field of `width`.
fn push_usize_fortran_field(s: &mut String, v: usize, width: usize)
    ensures
        final(s)@ == old(s)@ + fortran_field(v as int, width as nat),
{
    assert(int_text(v as int) == nat_text(v as nat));
    if crate::text::nat_text_len(v as u64) <= width {
        push_usize_field(s, v, width);
    } else {
        push_stars(s, width);
    }
}

/// Appends a non-negative integer right-justified in `width`.
pub fn push_usize_field(s: &mut String, v: usize, width: usize)
    ensures
        final(s)@ == old(s)@ + int_field(v as int, width as nat),
{
    let n = crate::text::nat_text_len(v as u64);
    if n < width {
        crate::text::push_spaces(s, width - n);
    }
    push_nat(s, v as u64);
    assert(int_text(v as int) == nat_text(v as nat));
}

/// Appends a line and its view.
pub proof fn lemma_push_line(v: Seq<OutLine>, l: OutLine)
    ensures
        lines_view(v.push(l)) == lines_view(v).push(out_view(l)),
{
    assert(lines_view(v.push(l)) =~= lines_view(v).push(out_view(l)));
}

/// Appends the row-record lines.
fn push_row_lines(out: &mut Vec<OutLine>, rows: &Vec<RowRecord>)
    ensures
        lines_view(final(out)@) == lines_view(old(out)@) + Seq::new(
            rows@.len(),
            |k: int| OutView::Text(row_line(rows@[k])),
        ),
{
    let mut k: usize = 0;
    while k < rows.len()
        invariant
            k <= rows@.len(),
            lines_view(out@) == lines_view(old(out)@) + Seq::new(
                k as nat,
                |i: int| OutView::Text(row_line(rows@[i])),
            ),
        decreases rows.len() - k,
    {
        let r = rows[k];
        let ghost before = out@;
        out.push(OutLine::Text(field5(r.i1, r.i2, r.j0, r.kn_left, r.kn_right)));
        proof {
            lemma_push_line(before, out@.last());
            assert(lines_view(out@) =~= lines_view(old(out)@) + Seq::new(
                (k + 1) as nat,
                |i: int| OutView::Text(row_line(rows@[i])),
            ));
        }
        k = k + 1;
    }
}

/// Appends the column-record lines.
fn push_col_lines(out: &mut Vec<OutLine>, cols: &Vec<ColRecord>)
    ensures
        lines_view(final(out)@) == lines_view(old(out)@) + Seq::new(
            cols@.len(),
            |k: int| OutView::Text(col_line(cols@[k])),
        ),
{
    let mut k: usize = 0;
    while k < cols.len()
        invariant
            k <= cols@.len(),
            lines_view(out@) == lines_view(old(out)@) + Seq::new(
                k as nat,
                |i: int| OutView::Text(col_line(cols@[i])),
            ),
        decreases cols.len() - k,
    {
        let c = cols[k];
        let ghost before = out@;
        out.push(OutLine::Text(field5(c.j1, c.j2, c.i0, c.kn_bot, c.kn_top)));
        proof {
            lemma_push_line(before, out@.last());
            assert(lines_view(out@) =~= lines_view(old(out)@) + Seq::new(
                (k + 1) as nat,
                |i: int| OutView::Text(col_line(cols@[i])),
            ));
        }
        k = k + 1;
    }
}

/// Appends one point line per corner.
pub fn push_point_lines(out: &mut Vec<OutLine>, corners: &Vec<(usize, usize)>)
    ensures
        lines_view(final(out)@) == lines_view(old(out)@) + Seq::new(
            corners@.len(),
            |k: int| OutView::Point(corners@[k].0 as nat, corners@[k].1 as nat),
        ),
{
    let mut k: usize = 0;
    while k < corners.len()
        invariant
            k <= corners@.len(),
            lines_view(out@) == lines_view(old(out)@) + Seq::new(
                k as nat,
                |i: int| OutView::Point(corners@[i].0 as nat, corners@[i].1 as nat),
            ),
        decreases corners.len() - k,
    {
        let c = corners[k];
        let ghost before = out@;
        out.push(OutLine::Point(c.0, c.1));
        proof {
            lemma_push_line(before, out@.last());
            assert(lines_view(out@) =~= lines_view(old(out)@) + Seq::new(
                (k + 1) as nat,
                |i: int| OutView::Point(corners@[i].0 as nat, corners@[i].1 as nat),
            ));
        }
        k = k + 1;
    }
}

/// The lines of the legacy text output of a filled grid and its mesh.
pub fn ch2_output(raster: &Raster, mesh: &QuadMesh) -> (out: Vec<OutLine>)
    requires
        mesh.elem_ij@.len() == mesh.elements@.len(),
    ensures
        lines_view(out@) == ch2_lines(
            raster.nx as nat,
            raster.ny as nat,
            raster.row_records@,
            raster.col_records@,
            mesh.corners@,
            mesh.elements@,
            mesh.elem_ij@,
        ),
{
    let mut out: Vec<OutLine> = Vec::new();
    out.push(OutLine::Spacing);
    out.push(OutLine::Text(pair_text(raster.nx, raster.ny)));
    out.push(OutLine::Text(count_text(raster.row_records.len())));
    let ghost a = lines_view(out@);
    push_row_lines(&mut out, &raster.row_records);
    let ghost b = lines_view(out@);
    let ghost o1 = out@;
    out.push(OutLine::Text(count_text(raster.col_records.len())));
    proof {
        lemma_push_line(o1, out@.last());
    }
    let ghost c = lines_view(out@);
    push_col_lines(&mut out, &raster.col_records);
    let ghost o2 = out@;
    out.push(OutLine::Text(pair_text(mesh.corners.len(), mesh.elements.len())));
    proof {
        lemma_push_line(o2, out@.last());
    }
    push_point_lines(&mut out, &mesh.corners);
    let mut k: usize = 0;
    let ghost start = lines_view(out@);
    while k < mesh.elements.len()
        invariant
            k <= mesh.elements@.len(),
            mesh.elem_ij@.len() == mesh.elements@.len(),
            lines_view(out@) == start + Seq::new(
                k as nat,
                |i: int| OutView::Text(elem_line(mesh.elements@[i], mesh.elem_ij@[i])),
            ),
        decreases mesh.elements.len() - k,
    {
        let el = mesh.elements[k];
        let ij = mesh.elem_ij[k];
        let mut s = String::new();
        push_usize_fortran_field(&mut s, el[0], 9);
        push_usize_fortran_field(&mut s, el[1], 9);
        push_usize_fortran_field(&mut s, el[2], 9);
        push_usize_fortran_field(&mut s, el[3], 9);
        push_usize_fortran_field(&mut s, ij.0, 9);
        push_usize_fortran_field(&mut s, ij.1, 9);
        let ghost before = out@;
        out.push(OutLine::Text(s));
        proof {
            lemma_push_line(before, out@.last());
            assert(lines_view(out@) =~= start + Seq::new(
                (k + 1) as nat,
                |i: int| OutView::Text(elem_line(mesh.elements@[i], mesh.elem_ij@[i])),
            ));
        }
        k = k + 1;
    }
    proof {
        assert(lines_view(out@) =~= ch2_lines(
            raster.nx as nat,
            raster.ny as nat,
            raster.row_records@,
            raster.col_records@,
            mesh.corners@,
            mesh.elements@,
            mesh.elem_ij@,
        ));
    }
    out
}

} // verus!
