//! Laws of the quad mesh: its elements are exactly the active cells in
//! increasing (column, row) order, and every numbered node is a corner of
//! some element.
use vstd::prelude::*;

use crate::scanline_rasterizer::{
    active_cells, col_active, elem_corner, first_seen, lemma_first_seen_distinct, quad, quad_mesh_of,
    visits, QuadMesh,
};

verus! {

/// Cell `a` comes before cell `b` in column-major order.
pub open spec fn cell_before(a: (usize, usize), b: (usize, usize)) -> bool {
    a.0 < b.0 || (a.0 == b.0 && a.1 < b.1)
}

/// Cell `x` (1-based) lies on the `nx × ny` grid `m` and is active.
pub open spec fn is_active(m: Seq<Seq<i32>>, ny: nat, nx: nat, x: (usize, usize)) -> bool {
    1 <= x.0 <= nx && 1 <= x.1 <= ny && m[x.0 - 1][x.1 - 1] > 0
}

proof fn lemma_col_active(m: Seq<Seq<i32>>, c: nat, r: nat)
    requires
        c < usize::MAX,
        r < usize::MAX,
    ensures
        ({
            let s = col_active(m, c as int, r);
            &&& forall|k: int| 0 <= k < s.len() ==> (#[trigger] s[k]).0 == c && 1 <= s[k].1 <= r
            &&& forall|a: int, b: int| 0 <= a < b < s.len() ==> (#[trigger] s[a]).1 < (#[trigger] s[b]).1
            &&& forall|x: (usize, usize)|
                x.0 == c ==> (#[trigger] s.contains(x) <==> 1 <= x.1 <= r && m[c - 1][x.1 - 1] > 0)
        }),
    decreases r,
{
    if r > 0 {
        lemma_col_active(m, c, (r - 1) as nat);
        let prev = col_active(m, c as int, (r - 1) as nat);
        let s = col_active(m, c as int, r);
        if m[c - 1][r - 1] > 0 {
            let y = (c as usize, r as usize);
            assert(s == prev.push(y));
            assert forall|k: int| 0 <= k < s.len() implies (#[trigger] s[k]).0 == c && 1 <= s[k].1 <= r by {
                if k < prev.len() {
                    assert(s[k] == prev[k]);
                }
            }
            assert forall|a: int, b: int| 0 <= a < b < s.len() implies (#[trigger] s[a]).1 < (#[trigger] s[b]).1 by {
                assert(s[a] == prev[a]);
                if b < prev.len() {
                    assert(s[b] == prev[b]);
                }
            }
            assert forall|x: (usize, usize)| x.0 == c implies (#[trigger] s.contains(x) <==> 1 <= x.1 <= r
                && m[c - 1][x.1 - 1] > 0) by {
                if s.contains(x) && x != y {
                    let w = choose|w: int| 0 <= w < s.len() && s[w] == x;
                    assert(prev[w] == x);
                }
                if prev.contains(x) {
                    let w = choose|w: int| 0 <= w < prev.len() && prev[w] == x;
                    assert(s[w] == x);
                }
                if x == y {
                    assert(s[s.len() - 1] == x);
                }
            }
        } else {
            assert forall|x: (usize, usize)| x.0 == c implies (#[trigger] s.contains(x) <==> 1 <= x.1 <= r
                && m[c - 1][x.1 - 1] > 0) by {
                if x.1 == r && s.contains(x) {
                    let w = choose|w: int| 0 <= w < s.len() && s[w] == x;
                    assert(s[w].1 <= r - 1);
                }
            }
        }
    }
}

/// The active cells of columns `1..=c` are in strictly increasing
/// (column, row) order, and are exactly the active cells of those columns.
pub proof fn lemma_active_cells(m: Seq<Seq<i32>>, ny: nat, c: nat)
    requires
        c < usize::MAX,
        ny < usize::MAX,
    ensures
        ({
            let s = active_cells(m, ny, c);
            &&& forall|a: int, b: int| 0 <= a < b < s.len() ==> cell_before(#[trigger] s[a], #[trigger] s[b])
            &&& forall|x: (usize, usize)| #[trigger] s.contains(x) <==> is_active(m, ny, c, x)
        }),
    decreases c,
{
    if c > 0 {
        lemma_active_cells(m, ny, (c - 1) as nat);
        lemma_col_active(m, c, ny);
        let prev = active_cells(m, ny, (c - 1) as nat);
        let col = col_active(m, c as int, ny);
        let s = prev + col;
        assert(active_cells(m, ny, c) == s);
        assert forall|a: int, b: int| 0 <= a < b < s.len() implies cell_before(#[trigger] s[a], #[trigger] s[b]) by {
            if b < prev.len() {
                assert(s[a] == prev[a] && s[b] == prev[b]);
            } else if a < prev.len() {
                assert(s[a] == prev[a] && s[b] == col[b - prev.len()]);
                assert(prev.contains(prev[a]));
                assert(col[b - prev.len()].0 == c);
            } else {
                assert(s[a] == col[a - prev.len()] && s[b] == col[b - prev.len()]);
            }
        }
        assert forall|x: (usize, usize)| #[trigger] s.contains(x) <==> is_active(m, ny, c, x) by {
            if s.contains(x) {
                let w = choose|w: int| 0 <= w < s.len() && s[w] == x;
                if w < prev.len() {
                    assert(prev[w] == x);
                    assert(prev.contains(x));
                } else {
                    assert(col[w - prev.len()] == x);
                    assert(col.contains(x));
                }
            }
            if is_active(m, ny, c, x) {
                if x.0 < c {
                    assert(prev.contains(x));
                    let w = choose|w: int| 0 <= w < prev.len() && prev[w] == x;
                    assert(s[w] == x);
                } else {
                    assert(col.contains(x));
                    let w = choose|w: int| 0 <= w < col.len() && col[w] == x;
                    assert(s[prev.len() + w] == x);
                }
            }
        }
    }
}

proof fn lemma_visits_member(cells: Seq<(usize, usize)>, x: (usize, usize))
    requires
        visits(cells).contains(x),
    ensures
        exists|e: int, k: int| 0 <= e < cells.len() && 0 <= k < 4 && #[trigger] quad(cells[e])[k] == x,
    decreases cells.len(),
{
    let d = cells.drop_last();
    let v = visits(cells);
    let pv = visits(d);
    let q = quad(cells.last());
    assert(v == pv + q);
    let w = choose|w: int| 0 <= w < v.len() && v[w] == x;
    if w < pv.len() {
        assert(pv[w] == x);
        lemma_visits_member(d, x);
        let (e, k) = choose|e: int, k: int| 0 <= e < d.len() && 0 <= k < 4 && #[trigger] quad(d[e])[k] == x;
        assert(d[e] == cells[e]);
        assert(quad(cells[e])[k] == x);
    } else {
        assert(q[w - pv.len()] == x);
        assert(quad(cells[cells.len() - 1])[w - pv.len()] == x);
    }
}

/// Node `n` (0-based) is one of the four nodes of some element.
pub open spec fn node_used(q: QuadMesh, n: int) -> bool {
    exists|e: int, k: int| 0 <= e < q.elements@.len() && 0 <= k < 4 && #[trigger] q.elements@[e]@[k] == n + 1
}

/// The quad mesh of a grid has one element per active cell, listed in
/// increasing (column, row) order with no cell missing or repeated, and
/// every node it numbers is a corner of some element.
pub proof fn lemma_quad_mesh_laws(q: QuadMesh, m: Seq<Seq<i32>>, ny: nat, nx: nat)
    requires
        quad_mesh_of(q, m, ny, nx),
        nx < usize::MAX,
        ny < usize::MAX,
    ensures
        q.elements@.len() == q.elem_ij@.len() == q.region_tags@.len(),
        forall|a: int, b: int|
            0 <= a < b < q.elem_ij@.len() ==> cell_before(#[trigger] q.elem_ij@[a], #[trigger] q.elem_ij@[b]),
        forall|x: (usize, usize)| #[trigger] q.elem_ij@.contains(x) <==> is_active(m, ny, nx, x),
        forall|n: int| 0 <= n < q.corners@.len() ==> #[trigger] node_used(q, n),
{
    let cells = active_cells(m, ny, nx);
    lemma_active_cells(m, ny, nx);
    lemma_first_seen_distinct(visits(cells));
    assert forall|n: int| 0 <= n < q.corners@.len() implies #[trigger] node_used(q, n) by {
        let x = q.corners@[n];
        assert(first_seen(visits(cells)).contains(x));
        lemma_visits_member(cells, x);
        let (e, c) = choose|e: int, k: int| 0 <= e < cells.len() && 0 <= k < 4 && #[trigger] quad(cells[e])[k] == x;
        let k = elem_corner(c);
        assert(elem_corner(k) == c);
        let id = q.elements@[e]@[k];
        assert(q.corners@[id - 1] == x);
        assert(id - 1 == n) by {
            assert(q.corners@.no_duplicates());
        }
        assert(q.elements@[e]@[k] == n + 1);
    }
}

} // verus!
