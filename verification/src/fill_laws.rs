//! Laws of the scanline fill over sorted crossings: spans of one scanline
//! do not overlap, every cell value is `0`, `1` or the tag of a crossing,
//! and with all tags at least `2` the ends of every row span keep a tag
//! through the column pass.
use vstd::prelude::*;

use crate::scanline_rasterizer::{
    grid_cell, line_spans, pair_span, pair_spans, row_cell, scan_spans, Span,
};

verus! {

/// The crossings of a scanline are in ascending cell order.
pub open spec fn sorted_line(l: Seq<(usize, i32)>) -> bool {
    forall|a: int, b: int| 0 <= a <= b < l.len() ==> #[trigger] l[a].0 <= #[trigger] l[b].0
}

/// Every scanline's crossings are in ascending order.
pub open spec fn sorted_lines(lines: Seq<Seq<(usize, i32)>>) -> bool {
    forall|r: int| 0 <= r < lines.len() ==> #[trigger] sorted_line(lines[r])
}

/// `t` is the tag of some crossing of some scanline.
pub open spec fn crossing_tag(lines: Seq<Seq<(usize, i32)>>, t: i32) -> bool {
    exists|a: int, b: int| 0 <= a < lines.len() && 0 <= b < lines[a].len() && #[trigger] lines[a][b].1 == t
}

/// `v` is a value a cell of the fill can hold: `0`, `1`, or the tag of a
/// crossing of a row or column scanline.
pub open spec fn cell_from(rows: Seq<Seq<(usize, i32)>>, cols: Seq<Seq<(usize, i32)>>, v: i32) -> bool {
    v == 0 || v == 1 || crossing_tag(rows, v) || crossing_tag(cols, v)
}

/// Every crossing has a tag of at least `2`.
pub open spec fn tags_at_least_two(lines: Seq<Seq<(usize, i32)>>) -> bool {
    forall|a: int, b: int| 0 <= a < lines.len() && 0 <= b < lines[a].len() ==> #[trigger] lines[a][b].1 >= 2
}

/// Spans that share a scanline come in order and do not overlap.
pub open spec fn spans_apart(s: Seq<Span>) -> bool {
    forall|a: int, b: int|
        0 <= a < b < s.len() && #[trigger] s[a].line == #[trigger] s[b].line ==> s[a].hi < s[b].lo
}

/// Both end tags of every span are crossing tags.
pub open spec fn tags_from(s: Seq<Span>, lines: Seq<Seq<(usize, i32)>>) -> bool {
    forall|k: int| 0 <= k < s.len() ==> crossing_tag(lines, (#[trigger] s[k]).tlo) && crossing_tag(lines, s[k].thi)
}

proof fn lemma_pair_spans_facts(
    lines: Seq<Seq<(usize, i32)>>,
    r: int,
    line: int,
    bound: int,
    p: nat,
)
    requires
        0 <= r < lines.len(),
        2 * p <= lines[r].len(),
        sorted_line(lines[r]),
    ensures
        ({
            let ps = pair_spans(lines[r], line, bound, p);
            &&& forall|k: int| 0 <= k < ps.len() ==> (#[trigger] ps[k]).line == line && ps[k].lo <= ps[k].hi
            &&& p > 0 ==> forall|k: int| 0 <= k < ps.len() ==> (#[trigger] ps[k]).hi <= lines[r][2 * p - 1].0 + 1
            &&& spans_apart(ps)
            &&& tags_from(ps, lines)
        }),
    decreases p,
{
    let l = lines[r];
    if p > 0 {
        lemma_pair_spans_facts(lines, r, line, bound, (p - 1) as nat);
        let prev = pair_spans(l, line, bound, (p - 1) as nat);
        let a = l[2 * p - 2];
        let b = l[2 * p - 1];
        assert(l[2 * p - 2].0 <= l[2 * p - 1].0);
        if p > 1 {
            assert(l[2 * p - 3].0 <= l[2 * p - 2].0);
            assert(l[2 * p - 3].0 <= l[2 * p - 1].0);
        }
        match pair_span(a, b, line, bound) {
            Some(sp) => {
                let ps = prev.push(sp);
                assert(crossing_tag(lines, sp.tlo)) by {
                    assert(lines[r][2 * p - 2].1 == sp.tlo);
                }
                assert(crossing_tag(lines, sp.thi)) by {
                    assert(lines[r][2 * p - 1].1 == sp.thi);
                }
                assert forall|k: int| 0 <= k < ps.len() implies (#[trigger] ps[k]).hi <= l[2 * p - 1].0 + 1 by {
                    if k < prev.len() {
                        assert(ps[k] == prev[k]);
                    }
                }
                assert forall|x: int, y: int|
                    0 <= x < y < ps.len() && #[trigger] ps[x].line == #[trigger] ps[y].line implies ps[x].hi
                    < ps[y].lo by {
                    if y < prev.len() {
                        assert(ps[x] == prev[x] && ps[y] == prev[y]);
                    } else {
                        assert(ps[x] == prev[x]);
                    }
                }
                assert forall|k: int| 0 <= k < ps.len() implies crossing_tag(lines, (#[trigger] ps[k]).tlo)
                    && crossing_tag(lines, ps[k].thi) by {
                    if k < prev.len() {
                        assert(ps[k] == prev[k]);
                    }
                }
                assert forall|k: int| 0 <= k < ps.len() implies (#[trigger] ps[k]).line == line && ps[k].lo
                    <= ps[k].hi by {
                    if k < prev.len() {
                        assert(ps[k] == prev[k]);
                    }
                }
            },
            None => {},
        }
    }
}

proof fn lemma_scan_spans_facts(lines: Seq<Seq<(usize, i32)>>, bound: int, r: nat)
    requires
        r <= lines.len(),
        sorted_lines(lines),
    ensures
        ({
            let s = scan_spans(lines, bound, r);
            &&& forall|k: int| 0 <= k < s.len() ==> 1 <= (#[trigger] s[k]).line <= r && s[k].lo <= s[k].hi
            &&& spans_apart(s)
            &&& tags_from(s, lines)
        }),
    decreases r,
{
    if r > 0 {
        lemma_scan_spans_facts(lines, bound, (r - 1) as nat);
        let prev = scan_spans(lines, bound, (r - 1) as nat);
        let l = lines[r - 1];
        let tail = line_spans(l, r as int, bound);
        assert(sorted_line(lines[r - 1]));
        if l.len() % 2 == 0 {
            lemma_pair_spans_facts(lines, r - 1, r as int, bound, l.len() / 2);
        }
        let s = prev + tail;
        assert(scan_spans(lines, bound, r) == s);
        assert forall|k: int| 0 <= k < s.len() implies 1 <= (#[trigger] s[k]).line <= r && s[k].lo <= s[k].hi by {
            if k < prev.len() {
                assert(s[k] == prev[k]);
            } else {
                assert(s[k] == tail[k - prev.len()]);
            }
        }
        assert forall|x: int, y: int|
            0 <= x < y < s.len() && #[trigger] s[x].line == #[trigger] s[y].line implies s[x].hi < s[y].lo by {
            if y < prev.len() {
                assert(s[x] == prev[x] && s[y] == prev[y]);
            } else if x < prev.len() {
                assert(s[x] == prev[x] && s[y] == tail[y - prev.len()]);
                assert(prev[x].line <= r - 1);
            } else {
                assert(s[x] == tail[x - prev.len()] && s[y] == tail[y - prev.len()]);
            }
        }
        assert forall|k: int| 0 <= k < s.len() implies crossing_tag(lines, (#[trigger] s[k]).tlo) && crossing_tag(
            lines,
            s[k].thi,
        ) by {
            if k < prev.len() {
                assert(s[k] == prev[k]);
            } else {
                assert(s[k] == tail[k - prev.len()]);
            }
        }
    }
}

proof fn lemma_row_cell_is_tag(rows: Seq<Span>, lines: Seq<Seq<(usize, i32)>>, i: int, j: int)
    requires
        tags_from(rows, lines),
    ensures
        row_cell(rows, i, j) == 0 || row_cell(rows, i, j) == 1 || crossing_tag(lines, row_cell(rows, i, j)),
    decreases rows.len(),
{
    if rows.len() > 0 {
        let d = rows.drop_last();
        assert forall|k: int| 0 <= k < d.len() implies crossing_tag(lines, (#[trigger] d[k]).tlo) && crossing_tag(
            lines,
            d[k].thi,
        ) by {
            assert(d[k] == rows[k]);
        }
        lemma_row_cell_is_tag(d, lines, i, j);
        assert(crossing_tag(lines, rows[rows.len() - 1].tlo));
    }
}

proof fn lemma_grid_cell_is_tag(
    rows: Seq<Span>,
    cols: Seq<Span>,
    rl: Seq<Seq<(usize, i32)>>,
    cl: Seq<Seq<(usize, i32)>>,
    i: int,
    j: int,
)
    requires
        tags_from(rows, rl),
        tags_from(cols, cl),
    ensures
        ({
            let v = grid_cell(rows, cols, i, j);
            v == 0 || v == 1 || crossing_tag(rl, v) || crossing_tag(cl, v)
        }),
    decreases cols.len(),
{
    if cols.len() == 0 {
        lemma_row_cell_is_tag(rows, rl, i, j);
    } else {
        let d = cols.drop_last();
        assert forall|k: int| 0 <= k < d.len() implies crossing_tag(cl, (#[trigger] d[k]).tlo) && crossing_tag(
            cl,
            d[k].thi,
        ) by {
            assert(d[k] == cols[k]);
        }
        lemma_grid_cell_is_tag(rows, d, rl, cl, i, j);
        assert(crossing_tag(cl, cols[cols.len() - 1].tlo));
    }
}

proof fn lemma_pair_spans_tags(lines: Seq<Seq<(usize, i32)>>, r: int, line: int, bound: int, p: nat)
    requires
        0 <= r < lines.len(),
        2 * p <= lines[r].len(),
    ensures
        tags_from(pair_spans(lines[r], line, bound, p), lines),
    decreases p,
{
    let l = lines[r];
    if p > 0 {
        lemma_pair_spans_tags(lines, r, line, bound, (p - 1) as nat);
        let prev = pair_spans(l, line, bound, (p - 1) as nat);
        match pair_span(l[2 * p - 2], l[2 * p - 1], line, bound) {
            Some(sp) => {
                let ps = prev.push(sp);
                assert(crossing_tag(lines, sp.tlo)) by {
                    assert(lines[r][2 * p - 2].1 == sp.tlo);
                }
                assert(crossing_tag(lines, sp.thi)) by {
                    assert(lines[r][2 * p - 1].1 == sp.thi);
                }
                assert forall|k: int| 0 <= k < ps.len() implies crossing_tag(lines, (#[trigger] ps[k]).tlo)
                    && crossing_tag(lines, ps[k].thi) by {
                    if k < prev.len() {
                        assert(ps[k] == prev[k]);
                    }
                }
            },
            None => {},
        }
    }
}

proof fn lemma_scan_spans_tags(lines: Seq<Seq<(usize, i32)>>, bound: int, r: nat)
    requires
        r <= lines.len(),
    ensures
        tags_from(scan_spans(lines, bound, r), lines),
    decreases r,
{
    if r > 0 {
        lemma_scan_spans_tags(lines, bound, (r - 1) as nat);
        let prev = scan_spans(lines, bound, (r - 1) as nat);
        let l = lines[r - 1];
        let tail = line_spans(l, r as int, bound);
        if l.len() % 2 == 0 {
            lemma_pair_spans_tags(lines, r - 1, r as int, bound, l.len() / 2);
        }
        let s = prev + tail;
        assert(scan_spans(lines, bound, r) == s);
        assert forall|k: int| 0 <= k < s.len() implies crossing_tag(lines, (#[trigger] s[k]).tlo) && crossing_tag(
            lines,
            s[k].thi,
        ) by {
            if k < prev.len() {
                assert(s[k] == prev[k]);
            } else {
                assert(s[k] == tail[k - prev.len()]);
            }
        }
    }
}

/// Every cell of the fill holds `0`, `1`, or the tag of a crossing of a
/// row or column scanline.
pub proof fn lemma_cells_hold_crossing_tags(
    rows: Seq<Seq<(usize, i32)>>,
    cols: Seq<Seq<(usize, i32)>>,
    nx: nat,
    ny: nat,
    i: int,
    j: int,
)
    requires
        rows.len() == ny,
        cols.len() == nx,
    ensures
        cell_from(rows, cols, grid_cell(scan_spans(rows, nx as int, ny), scan_spans(cols, ny as int, nx), i, j)),
{
    lemma_scan_spans_tags(rows, nx as int, ny);
    lemma_scan_spans_tags(cols, ny as int, nx);
    lemma_grid_cell_is_tag(scan_spans(rows, nx as int, ny), scan_spans(cols, ny as int, nx), rows, cols, i, j);
}

proof fn lemma_row_end_value(s: Seq<Span>, k: int, i: int, j: int)
    requires
        0 <= k < s.len(),
        s[k].line - 1 == j,
        i == s[k].lo - 1 || i == s[k].hi - 1,
        s[k].lo <= s[k].hi,
        forall|m: int| k < m < s.len() ==> !(#[trigger] s[m].line - 1 == j && s[m].lo - 1 <= i <= s[m].hi - 1),
    ensures
        row_cell(s, i, j) == s[k].tlo || row_cell(s, i, j) == s[k].thi,
    decreases s.len(),
{
    if k < s.len() - 1 {
        let d = s.drop_last();
        assert(!(s[s.len() - 1].line - 1 == j && s[s.len() - 1].lo - 1 <= i <= s[s.len() - 1].hi - 1));
        assert forall|m: int| k < m < d.len() implies !(#[trigger] d[m].line - 1 == j && d[m].lo - 1 <= i <= d[m].hi
            - 1) by {
            assert(d[m] == s[m]);
        }
        assert(d[k] == s[k]);
        lemma_row_end_value(d, k, i, j);
    }
}

proof fn lemma_tag_stays(rows: Seq<Span>, cols: Seq<Span>, i: int, j: int)
    requires
        row_cell(rows, i, j) >= 2,
        forall|k: int| 0 <= k < cols.len() ==> (#[trigger] cols[k]).tlo >= 2 && cols[k].thi >= 2,
    ensures
        grid_cell(rows, cols, i, j) >= 2,
    decreases cols.len(),
{
    if cols.len() > 0 {
        let d = cols.drop_last();
        assert forall|k: int| 0 <= k < d.len() implies (#[trigger] d[k]).tlo >= 2 && d[k].thi >= 2 by {
            assert(d[k] == cols[k]);
        }
        lemma_tag_stays(rows, d, i, j);
        assert(cols[cols.len() - 1].tlo >= 2);
    }
}

/// With sorted crossings whose tags are all at least `2`, both end cells of
/// every row span still hold a tag (`>= 2`) after the column pass: the
/// vertical pass never turns a boundary cell into an interior one.
pub proof fn lemma_row_ends_keep_tags(
    rows: Seq<Seq<(usize, i32)>>,
    cols: Seq<Seq<(usize, i32)>>,
    nx: nat,
    ny: nat,
    k: int,
)
    requires
        rows.len() == ny,
        cols.len() == nx,
        sorted_lines(rows),
        sorted_lines(cols),
        tags_at_least_two(rows),
        tags_at_least_two(cols),
        0 <= k < scan_spans(rows, nx as int, ny).len(),
    ensures
        ({
            let rs = scan_spans(rows, nx as int, ny);
            let cs = scan_spans(cols, ny as int, nx);
            let s = rs[k];
            &&& grid_cell(rs, cs, s.lo - 1, s.line - 1) >= 2
            &&& grid_cell(rs, cs, s.hi - 1, s.line - 1) >= 2
        }),
{
    let rs = scan_spans(rows, nx as int, ny);
    let cs = scan_spans(cols, ny as int, nx);
    lemma_scan_spans_facts(rows, nx as int, ny);
    lemma_scan_spans_facts(cols, ny as int, nx);
    let s = rs[k];
    assert(crossing_tag(rows, s.tlo) && crossing_tag(rows, s.thi));
    let (a1, b1) = choose|a: int, b: int| 0 <= a < rows.len() && 0 <= b < rows[a].len() && #[trigger] rows[a][b].1 == s.tlo;
    let (a2, b2) = choose|a: int, b: int| 0 <= a < rows.len() && 0 <= b < rows[a].len() && #[trigger] rows[a][b].1 == s.thi;
    assert(rows[a1][b1].1 >= 2 && rows[a2][b2].1 >= 2);
    assert forall|m: int| 0 <= m < cs.len() implies (#[trigger] cs[m]).tlo >= 2 && cs[m].thi >= 2 by {
        assert(crossing_tag(cols, cs[m].tlo) && crossing_tag(cols, cs[m].thi));
        let (c1, d1) = choose|a: int, b: int| 0 <= a < cols.len() && 0 <= b < cols[a].len() && #[trigger] cols[a][b].1 == cs[m].tlo;
        let (c2, d2) = choose|a: int, b: int| 0 <= a < cols.len() && 0 <= b < cols[a].len() && #[trigger] cols[a][b].1 == cs[m].thi;
        assert(cols[c1][d1].1 >= 2 && cols[c2][d2].1 >= 2);
    }
    assert forall|m: int| k < m < rs.len() implies !(#[trigger] rs[m].line - 1 == s.line - 1 && rs[m].lo - 1
        <= s.lo - 1 <= rs[m].hi - 1) by {
        if rs[m].line == rs[k].line {
            assert(rs[k].hi < rs[m].lo);
        }
    }
    lemma_row_end_value(rs, k, s.lo - 1, s.line - 1);
    assert forall|m: int| k < m < rs.len() implies !(#[trigger] rs[m].line - 1 == s.line - 1 && rs[m].lo - 1
        <= s.hi - 1 <= rs[m].hi - 1) by {
        if rs[m].line == rs[k].line {
            assert(rs[k].hi < rs[m].lo);
        }
    }
    lemma_row_end_value(rs, k, s.hi - 1, s.line - 1);
    lemma_tag_stays(rs, cs, s.lo - 1, s.line - 1);
    lemma_tag_stays(rs, cs, s.hi - 1, s.line - 1);
}

} // verus!
