//! Winding-order classification and the assignment of holes to outer
//! boundaries.
//!
//! - **CCW** (positive signed area) → outer boundary
//! - **CW** (negative signed area) → hole
//!
//! Each hole is assigned to the smallest-area outer boundary that contains
//! its centroid; a hole that no outer boundary contains is an error.  The
//! geometric facts (winding, containment of a hole's centroid, the order of
//! the boundaries' areas) are measured in floating point by the caller and
//! given here as plain values; this module makes the assignment.
use vstd::prelude::*;

use crate::error::MeshError;

verus! {

/// Orientation of a closed boundary.
#[derive(Debug, Clone, Copy, PartialEq, Eq, Structural)]
pub enum WindingOrder {
    /// Counter-clockwise — positive signed area.
    CCW,
    /// Clockwise — negative signed area.
    CW,
    /// Degenerate polygon (collinear vertices or zero area).
    Degenerate,
}

/// What is known of one boundary.
#[derive(Debug, Clone, Copy, PartialEq, Eq, Structural)]
pub struct BoundaryFacts {
    /// Its winding order.
    pub winding: WindingOrder,
    /// Its mesh region tag.
    pub region_tag: i32,
    /// The rank of its absolute area among all boundaries (smaller area,
    /// smaller rank; equal areas, equal ranks), or `None` when the area is
    /// not a finite number.
    pub area_rank: Option<u64>,
}

/// An outer boundary and the holes assigned to it, as boundary indices.
#[derive(Debug, Clone)]
pub struct HoleGroup {
    pub outer: usize,
    pub holes: Vec<usize>,
}

/// Indices `< k` of the boundaries with winding `w`, in order.
pub open spec fn with_winding(f: Seq<BoundaryFacts>, w: WindingOrder, k: nat) -> Seq<usize>
    decreases k,
{
    if k == 0 {
        seq![]
    } else if f[k - 1].winding == w {
        with_winding(f, w, (k - 1) as nat).push((k - 1) as usize)
    } else {
        with_winding(f, w, (k - 1) as nat)
    }
}

pub open spec fn outer_list(f: Seq<BoundaryFacts>) -> Seq<usize> {
    with_winding(f, WindingOrder::CCW, f.len())
}

pub open spec fn hole_list(f: Seq<BoundaryFacts>) -> Seq<usize> {
    with_winding(f, WindingOrder::CW, f.len())
}

/// Outer boundary `o` may take hole `h`: it contains the hole's centroid
/// and its area is finite.
pub open spec fn eligible(f: Seq<BoundaryFacts>, inside: Seq<Seq<bool>>, h: int, o: int) -> bool {
    inside[h][o] && f[o].area_rank is Some
}

/// The slot (in `outers`) of the smallest eligible outer boundary among the
/// first `k`, the earliest on a tie.
pub open spec fn best_slot(
    f: Seq<BoundaryFacts>,
    inside: Seq<Seq<bool>>,
    h: int,
    outers: Seq<usize>,
    k: nat,
) -> Option<int>
    decreases k,
{
    if k == 0 {
        None
    } else {
        let b = best_slot(f, inside, h, outers, (k - 1) as nat);
        let o = outers[k - 1] as int;
        if eligible(f, inside, h, o) && (b is None || f[o].area_rank->Some_0
            < f[outers[b->Some_0] as int].area_rank->Some_0) {
            Some(k - 1)
        } else {
            b
        }
    }
}

/// The slot of the outer boundary that takes hole `h`.
pub open spec fn home(f: Seq<BoundaryFacts>, inside: Seq<Seq<bool>>, h: int) -> Option<int> {
    best_slot(f, inside, h, outer_list(f), outer_list(f).len())
}

/// The first hole, among the first `k`, that no outer boundary takes.
pub open spec fn first_orphan(f: Seq<BoundaryFacts>, inside: Seq<Seq<bool>>, k: nat) -> Option<int>
    decreases k,
{
    if k == 0 {
        None
    } else {
        match first_orphan(f, inside, (k - 1) as nat) {
            Some(h) => Some(h),
            None => if home(f, inside, hole_list(f)[k - 1] as int) is None {
                Some(hole_list(f)[k - 1] as int)
            } else {
                None
            },
        }
    }
}

/// The holes, among the first `k`, that outer slot `s` takes, in order.
pub open spec fn holes_of(f: Seq<BoundaryFacts>, inside: Seq<Seq<bool>>, s: int, k: nat) -> Seq<usize>
    decreases k,
{
    if k == 0 {
        seq![]
    } else {
        let h = hole_list(f)[k - 1];
        let prev = holes_of(f, inside, s, (k - 1) as nat);
        if home(f, inside, h as int) == Some(s) {
            prev.push(h)
        } else {
            prev
        }
    }
}

proof fn lemma_with_winding_bounds(f: Seq<BoundaryFacts>, w: WindingOrder, k: nat)
    requires
        k <= f.len(),
        f.len() <= usize::MAX,
    ensures
        forall|i: int|
            0 <= i < with_winding(f, w, k).len() ==> #[trigger] with_winding(f, w, k)[i] < k && f[with_winding(
                f,
                w,
                k,
            )[i] as int].winding == w,
    decreases k,
{
    if k > 0 {
        lemma_with_winding_bounds(f, w, (k - 1) as nat);
        assert(((k - 1) as usize) as int == k - 1);
    }
}

fn boundaries_with(facts: &Vec<BoundaryFacts>, w: WindingOrder) -> (r: Vec<usize>)
    ensures
        r@ == with_winding(facts@, w, facts@.len()),
{
    let mut r: Vec<usize> = Vec::new();
    let mut k: usize = 0;
    while k < facts.len()
        invariant
            k <= facts@.len(),
            r@ == with_winding(facts@, w, k as nat),
        decreases facts.len() - k,
    {
        if facts[k].winding == w {
            r.push(k);
        }
        k = k + 1;
    }
    r
}

/// The rows of a table of flags.
pub open spec fn rows_view(t: Seq<Vec<bool>>) -> Seq<Seq<bool>> {
    t.map_values(|row: Vec<bool>| row@)
}

/// Assigns every CW boundary (hole) to the CCW boundary (outer) of smallest
/// area that contains its centroid; degenerate boundaries are ignored.
///
/// `inside[h][o]` says whether the centroid of boundary `h` lies inside
/// boundary `o`.  Returns one group per outer boundary, in boundary order,
/// each with its holes in boundary order — or `OrphanedHole` with the tag of
/// the first hole that no outer boundary contains.
pub fn assign_holes(facts: &Vec<BoundaryFacts>, inside: &Vec<Vec<bool>>) -> (r: Result<
    Vec<HoleGroup>,
    MeshError,
>)
    requires
        inside@.len() == facts@.len(),
        forall|h: int| 0 <= h < inside@.len() ==> #[trigger] inside@[h]@.len() == facts@.len(),
    ensures
        ({
            let f = facts@;
            let ins = rows_view(inside@);
            match first_orphan(f, ins, hole_list(f).len()) {
                Some(h) => r is Err && r->Err_0 == MeshError::OrphanedHole { hole_region_tag: f[h].region_tag },
                None => r is Ok && {
                    let g = r->Ok_0;
                    &&& g@.len() == outer_list(f).len()
                    &&& forall|s: int|
                        0 <= s < g@.len() ==> #[trigger] g@[s].outer == outer_list(f)[s] && g@[s].holes@
                            == holes_of(f, ins, s, hole_list(f).len())
                },
            }
        }),
{
    let ghost f = facts@;
    let ghost ins = rows_view(inside@);
    let outers = boundaries_with(facts, WindingOrder::CCW);
    let holes = boundaries_with(facts, WindingOrder::CW);
    proof {
        assert(f.len() == facts.len());
        lemma_with_winding_bounds(f, WindingOrder::CCW, f.len());
        lemma_with_winding_bounds(f, WindingOrder::CW, f.len());
    }
    // home[k]: slot of the outer that takes holes[k].
    let mut homes: Vec<usize> = Vec::new();
    let mut k: usize = 0;
    while k < holes.len()
        invariant
            k <= holes@.len(),
            f == facts@,
            ins == rows_view(inside@),
            inside@.len() == facts@.len(),
            forall|h: int| 0 <= h < inside@.len() ==> #[trigger] inside@[h]@.len() == facts@.len(),
            outers@ == outer_list(f),
            holes@ == hole_list(f),
            forall|i: int| 0 <= i < outers@.len() ==> #[trigger] outers@[i] < f.len(),
            forall|i: int| 0 <= i < holes@.len() ==> #[trigger] holes@[i] < f.len(),
            first_orphan(f, ins, k as nat) is None,
            homes@.len() == k,
            forall|i: int| 0 <= i < k ==> home(f, ins, holes@[i] as int) == Some(#[trigger] homes@[i] as int),
        decreases holes.len() - k,
    {
        let h = holes[k];
        let mut best: Option<usize> = None;
        let mut s: usize = 0;
        while s < outers.len()
            invariant
                s <= outers@.len(),
                f == facts@,
                ins == rows_view(inside@),
                inside@.len() == facts@.len(),
                forall|hh: int| 0 <= hh < inside@.len() ==> #[trigger] inside@[hh]@.len() == facts@.len(),
                forall|i: int| 0 <= i < outers@.len() ==> #[trigger] outers@[i] < f.len(),
                h < f.len(),
                match best {
                    Some(b) => best_slot(f, ins, h as int, outers@, s as nat) == Some(b as int) && b < s
                        && f[outers@[b as int] as int].area_rank is Some,
                    None => best_slot(f, ins, h as int, outers@, s as nat) is None,
                },
            decreases outers.len() - s,
        {
            let o = outers[s];
            proof {
                assert(ins[h as int] == inside@[h as int]@);
            }
            if inside[h][o] {
                match facts[o].area_rank {
                    Some(rank) => {
                        let better = match best {
                            None => true,
                            Some(b) => match facts[outers[b]].area_rank {
                                Some(rb) => rank < rb,
                                None => false,
                            },
                        };
                        if better {
                            best = Some(s);
                        }
                    },
                    None => {},
                }
            }
            s = s + 1;
        }
        match best {
            Some(b) => {
                homes.push(b);
            },
            None => {
                proof {
                    assert(first_orphan(f, ins, (k + 1) as nat) == Some(h as int));
                    assert(first_orphan(f, ins, hole_list(f).len()) == Some(h as int)) by {
                        lemma_first_orphan_stays(f, ins, (k + 1) as nat, hole_list(f).len());
                    }
                }
                return Err(MeshError::OrphanedHole { hole_region_tag: facts[h].region_tag });
            },
        }
        k = k + 1;
    }
    assert(first_orphan(f, ins, hole_list(f).len()) is None);
    let mut groups: Vec<HoleGroup> = Vec::new();
    let mut s: usize = 0;
    while s < outers.len()
        invariant
            s <= outers@.len(),
            outers@ == outer_list(f),
            holes@ == hole_list(f),
            homes@.len() == holes@.len(),
            forall|i: int| 0 <= i < holes@.len() ==> home(f, ins, holes@[i] as int) == Some(#[trigger] homes@[i] as int),
            groups@.len() == s,
            forall|t: int|
                0 <= t < s ==> #[trigger] groups@[t].outer == outer_list(f)[t] && groups@[t].holes@ == holes_of(
                    f,
                    ins,
                    t,
                    hole_list(f).len(),
                ),
        decreases outers.len() - s,
    {
        let mut mine: Vec<usize> = Vec::new();
        let mut k: usize = 0;
        while k < holes.len()
            invariant
                k <= holes@.len(),
                holes@ == hole_list(f),
                homes@.len() == holes@.len(),
                forall|i: int| 0 <= i < holes@.len() ==> home(f, ins, holes@[i] as int) == Some(#[trigger] homes@[i] as int),
                mine@ == holes_of(f, ins, s as int, k as nat),
            decreases holes.len() - k,
        {
            if homes[k] == s {
                mine.push(holes[k]);
            }
            k = k + 1;
        }
        assert(mine@ == holes_of(f, ins, s as int, hole_list(f).len()));
        let ghost old_groups = groups@;
        groups.push(HoleGroup { outer: outers[s], holes: mine });
        assert(forall|t: int| 0 <= t < s ==> groups@[t] == old_groups[t]);
        s = s + 1;
    }
    assert(first_orphan(f, ins, hole_list(f).len()) is None);
    assert(groups@.len() == outer_list(f).len());
    Ok(groups)
}

proof fn lemma_first_orphan_stays(f: Seq<BoundaryFacts>, ins: Seq<Seq<bool>>, k: nat, n: nat)
    requires
        k <= n,
        first_orphan(f, ins, k) is Some,
    ensures
        first_orphan(f, ins, n) == first_orphan(f, ins, k),
    decreases n - k,
{
    if k < n {
        lemma_first_orphan_stays(f, ins, k, (n - 1) as nat);
    }
}

// ---------------------------------------------------------------------------
// Laws of the assignment
// ---------------------------------------------------------------------------

/// The area rank of boundary `o`.
pub open spec fn rank(f: Seq<BoundaryFacts>, o: int) -> u64 {
    f[o].area_rank->Some_0
}

proof fn lemma_best_slot(
    f: Seq<BoundaryFacts>,
    inside: Seq<Seq<bool>>,
    h: int,
    outers: Seq<usize>,
    k: nat,
)
    requires
        k <= outers.len(),
    ensures
        match best_slot(f, inside, h, outers, k) {
            Some(b) => {
                &&& 0 <= b < k
                &&& eligible(f, inside, h, outers[b] as int)
                &&& forall|t: int|
                    0 <= t < k && #[trigger] eligible(f, inside, h, outers[t] as int) ==> rank(
                        f,
                        outers[b] as int,
                    ) <= rank(f, outers[t] as int)
            },
            None => forall|t: int| 0 <= t < k ==> !#[trigger] eligible(f, inside, h, outers[t] as int),
        },
    decreases k,
{
    if k > 0 {
        lemma_best_slot(f, inside, h, outers, (k - 1) as nat);
    }
}

proof fn lemma_homes_when_no_orphan(f: Seq<BoundaryFacts>, inside: Seq<Seq<bool>>, k: nat)
    requires
        k <= hole_list(f).len(),
        first_orphan(f, inside, k) is None,
    ensures
        forall|i: int| 0 <= i < k ==> #[trigger] home(f, inside, hole_list(f)[i] as int) is Some,
    decreases k,
{
    if k > 0 {
        lemma_homes_when_no_orphan(f, inside, (k - 1) as nat);
    }
}

proof fn lemma_orphan_is_homeless(f: Seq<BoundaryFacts>, inside: Seq<Seq<bool>>, k: nat)
    requires
        k <= hole_list(f).len(),
        first_orphan(f, inside, k) is Some,
    ensures
        exists|i: int|
            0 <= i < k && #[trigger] hole_list(f)[i] as int == first_orphan(f, inside, k)->Some_0
                && home(f, inside, hole_list(f)[i] as int) is None && forall|j: int|
                0 <= j < i ==> #[trigger] home(f, inside, hole_list(f)[j] as int) is Some,
    decreases k,
{
    if first_orphan(f, inside, (k - 1) as nat) is Some {
        lemma_orphan_is_homeless(f, inside, (k - 1) as nat);
        let i = choose|i: int|
            0 <= i < k - 1 && #[trigger] hole_list(f)[i] as int == first_orphan(f, inside, (k - 1) as nat)->Some_0
                && home(f, inside, hole_list(f)[i] as int) is None && forall|j: int|
                0 <= j < i ==> #[trigger] home(f, inside, hole_list(f)[j] as int) is Some;
        assert(hole_list(f)[i] as int == first_orphan(f, inside, k)->Some_0);
    } else {
        lemma_homes_when_no_orphan(f, inside, (k - 1) as nat);
        assert(hole_list(f)[k - 1] as int == first_orphan(f, inside, k)->Some_0);
    }
}

proof fn lemma_holes_of_contains(
    f: Seq<BoundaryFacts>,
    inside: Seq<Seq<bool>>,
    s: int,
    k: nat,
    h: usize,
)
    requires
        k <= hole_list(f).len(),
    ensures
        holes_of(f, inside, s, k).contains(h) <==> (exists|j: int|
            0 <= j < k && #[trigger] hole_list(f)[j] == h) && home(f, inside, h as int) == Some(s),
    decreases k,
{
    if k > 0 {
        lemma_holes_of_contains(f, inside, s, (k - 1) as nat, h);
        let prev = holes_of(f, inside, s, (k - 1) as nat);
        let x = hole_list(f)[k - 1];
        if home(f, inside, x as int) == Some(s) {
            assert(prev.push(x)[prev.len() as int] == x);
            if prev.push(x).contains(h) && h != x {
                let w = choose|w: int| 0 <= w < prev.push(x).len() && prev.push(x)[w] == h;
                assert(prev[w] == h);
            }
            if prev.contains(h) {
                let w = choose|w: int| 0 <= w < prev.len() && prev[w] == h;
                assert(prev.push(x)[w] == h);
            }
        }
        if (exists|j: int| 0 <= j < k && #[trigger] hole_list(f)[j] == h) && h != x {
            let j = choose|j: int| 0 <= j < k && #[trigger] hole_list(f)[j] == h;
            assert(j < k - 1);
        }
    }
}

/// Hole `h` belongs to the group of outer slot `s`, and to no other: `s` is
/// a CCW boundary of smallest area rank among those that contain the hole's
/// centroid and have a finite area.
pub open spec fn assigned_to(f: Seq<BoundaryFacts>, inside: Seq<Seq<bool>>, h: usize, s: int) -> bool {
    let outers = outer_list(f);
    let n = hole_list(f).len();
    &&& home(f, inside, h as int) == Some(s)
    &&& 0 <= s < outers.len()
    &&& f[outers[s] as int].winding == WindingOrder::CCW
    &&& holes_of(f, inside, s, n).contains(h)
    &&& eligible(f, inside, h as int, outers[s] as int)
    &&& forall|t: int|
        0 <= t < outers.len() && #[trigger] eligible(f, inside, h as int, outers[t] as int) ==> rank(
            f,
            outers[s] as int,
        ) <= rank(f, outers[t] as int)
    &&& forall|t: int|
        0 <= t < outers.len() && t != s ==> !(#[trigger] holes_of(f, inside, t, n)).contains(h)
}

/// When no hole is orphaned, every hole belongs to exactly one group: that
/// of the outer boundary (CCW) of smallest area rank among those that
/// contain its centroid and have a finite area.
pub proof fn lemma_hole_assignment(f: Seq<BoundaryFacts>, inside: Seq<Seq<bool>>, i: int)
    requires
        f.len() <= usize::MAX,
        0 <= i < hole_list(f).len(),
        first_orphan(f, inside, hole_list(f).len()) is None,
    ensures
        exists|s: int| #[trigger] assigned_to(f, inside, hole_list(f)[i], s),
{
    let h = hole_list(f)[i];
    let outers = outer_list(f);
    let n = hole_list(f).len();
    lemma_homes_when_no_orphan(f, inside, n);
    assert(home(f, inside, h as int) is Some);
    lemma_best_slot(f, inside, h as int, outers, outers.len());
    let s = home(f, inside, h as int)->Some_0;
    lemma_with_winding_bounds(f, WindingOrder::CCW, f.len());
    assert(f[outers[s] as int].winding == WindingOrder::CCW);
    lemma_holes_of_contains(f, inside, s, n, h);
    assert(hole_list(f)[i] == h);
    assert forall|t: int| 0 <= t < outers.len() && t != s implies !(#[trigger] holes_of(
        f,
        inside,
        t,
        n,
    )).contains(h) by {
        lemma_holes_of_contains(f, inside, t, n, h);
    }
    assert(assigned_to(f, inside, h, s));
}

/// A hole reported as orphaned is a CW boundary that no outer boundary
/// takes (none of them contains its centroid with a finite area), and it is
/// the first such hole in input order: every hole before it has an outer.
pub proof fn lemma_orphan_has_no_outer(f: Seq<BoundaryFacts>, inside: Seq<Seq<bool>>)
    requires
        f.len() <= usize::MAX,
        first_orphan(f, inside, hole_list(f).len()) is Some,
    ensures
        ({
            let h = first_orphan(f, inside, hole_list(f).len())->Some_0;
            &&& 0 <= h < f.len()
            &&& f[h].winding == WindingOrder::CW
            &&& forall|t: int|
                0 <= t < outer_list(f).len() ==> !#[trigger] eligible(f, inside, h, outer_list(f)[t] as int)
            &&& forall|j: int|
                0 <= j < hole_list(f).len() && hole_list(f)[j] < h ==> #[trigger] home(
                    f,
                    inside,
                    hole_list(f)[j] as int,
                ) is Some
        }),
{
    let n = hole_list(f).len();
    lemma_orphan_is_homeless(f, inside, n);
    let h = first_orphan(f, inside, n)->Some_0;
    let i = choose|i: int|
        0 <= i < n && #[trigger] hole_list(f)[i] as int == h && home(f, inside, hole_list(f)[i] as int) is None
            && forall|j: int| 0 <= j < i ==> #[trigger] home(f, inside, hole_list(f)[j] as int) is Some;
    lemma_with_winding_bounds(f, WindingOrder::CW, f.len());
    lemma_with_winding_increasing(f, WindingOrder::CW, f.len());
    assert forall|j: int| 0 <= j < n && hole_list(f)[j] < h implies #[trigger] home(
        f,
        inside,
        hole_list(f)[j] as int,
    ) is Some by {
        if j >= i {
            if j > i {
                assert(hole_list(f)[i] < hole_list(f)[j]);
            }
        }
    }
    assert(hole_list(f)[i] < f.len());
    lemma_best_slot(f, inside, h, outer_list(f), outer_list(f).len());
}

proof fn lemma_with_winding_increasing(f: Seq<BoundaryFacts>, w: WindingOrder, k: nat)
    requires
        k <= f.len(),
        f.len() <= usize::MAX,
    ensures
        forall|a: int, b: int|
            0 <= a < b < with_winding(f, w, k).len() ==> #[trigger] with_winding(f, w, k)[a]
                < #[trigger] with_winding(f, w, k)[b],
    decreases k,
{
    if k > 0 {
        lemma_with_winding_increasing(f, w, (k - 1) as nat);
        lemma_with_winding_bounds(f, w, (k - 1) as nat);
        assert(((k - 1) as usize) as int == k - 1);
    }
}

proof fn lemma_holes_of_order(f: Seq<BoundaryFacts>, inside: Seq<Seq<bool>>, s: int, k: nat)
    requires
        k <= hole_list(f).len(),
        f.len() <= usize::MAX,
    ensures
        ({
            let hs = holes_of(f, inside, s, k);
            &&& forall|a: int, b: int| 0 <= a < b < hs.len() ==> #[trigger] hs[a] < #[trigger] hs[b]
            &&& forall|a: int| 0 <= a < hs.len() ==> (#[trigger] hs[a]) < f.len() && f[hs[a] as int].winding
                == WindingOrder::CW
            &&& k > 0 ==> forall|a: int| 0 <= a < hs.len() ==> #[trigger] hs[a] <= hole_list(f)[k - 1]
        }),
    decreases k,
{
    lemma_with_winding_bounds(f, WindingOrder::CW, f.len());
    lemma_with_winding_increasing(f, WindingOrder::CW, f.len());
    if k > 0 {
        lemma_holes_of_order(f, inside, s, (k - 1) as nat);
        let hl = hole_list(f);
        let prev = holes_of(f, inside, s, (k - 1) as nat);
        let hs = holes_of(f, inside, s, k);
        if k > 1 {
            assert(hl[k - 2] < hl[k - 1]);
        }
        assert(hl[k - 1] < f.len());
        if hs.len() > prev.len() {
            assert(hs == prev.push(hl[k - 1]));
            assert forall|a: int, b: int| 0 <= a < b < hs.len() implies #[trigger] hs[a] < #[trigger] hs[b] by {
                assert(hs[a] == prev[a]);
                if b < prev.len() {
                    assert(hs[b] == prev[b]);
                }
            }
            assert forall|a: int| 0 <= a < hs.len() implies (#[trigger] hs[a]) < f.len() && f[hs[a] as int].winding
                == WindingOrder::CW by {
                if a < prev.len() {
                    assert(hs[a] == prev[a]);
                }
            }
            assert forall|a: int| 0 <= a < hs.len() implies #[trigger] hs[a] <= hl[k - 1] by {
                if a < prev.len() {
                    assert(hs[a] == prev[a]);
                }
            }
        }
    }
}

/// The groups partition the boundaries as the winding says: the outer
/// boundaries are the CCW ones in input order; each group's holes are CW
/// boundaries in input order; a degenerate boundary is in no group, as
/// outer or as hole.
pub proof fn lemma_hole_groups_partition(f: Seq<BoundaryFacts>, inside: Seq<Seq<bool>>, s: int)
    requires
        f.len() <= usize::MAX,
    ensures
        forall|a: int| 0 <= a < outer_list(f).len() ==> f[(#[trigger] outer_list(f)[a]) as int].winding
            == WindingOrder::CCW,
        forall|a: int, b: int|
            0 <= a < b < outer_list(f).len() ==> #[trigger] outer_list(f)[a] < #[trigger] outer_list(f)[b],
        ({
            let hs = holes_of(f, inside, s, hole_list(f).len());
            &&& forall|a: int, b: int| 0 <= a < b < hs.len() ==> #[trigger] hs[a] < #[trigger] hs[b]
            &&& forall|a: int| 0 <= a < hs.len() ==> f[(#[trigger] hs[a]) as int].winding == WindingOrder::CW
        }),
        forall|i: int|
            0 <= i < f.len() && #[trigger] f[i].winding == WindingOrder::Degenerate ==> !outer_list(f).contains(
                i as usize,
            ) && !holes_of(f, inside, s, hole_list(f).len()).contains(i as usize),
{
    lemma_with_winding_bounds(f, WindingOrder::CCW, f.len());
    lemma_with_winding_increasing(f, WindingOrder::CCW, f.len());
    lemma_holes_of_order(f, inside, s, hole_list(f).len());
    let hs = holes_of(f, inside, s, hole_list(f).len());
    assert forall|i: int| 0 <= i < f.len() && #[trigger] f[i].winding == WindingOrder::Degenerate implies !outer_list(
        f,
    ).contains(i as usize) && !hs.contains(i as usize) by {
        if outer_list(f).contains(i as usize) {
            let w = choose|w: int| 0 <= w < outer_list(f).len() && outer_list(f)[w] == i as usize;
            assert(f[outer_list(f)[w] as int].winding == WindingOrder::CCW);
        }
        if hs.contains(i as usize) {
            let w = choose|w: int| 0 <= w < hs.len() && hs[w] == i as usize;
            assert(f[hs[w] as int].winding == WindingOrder::CW);
        }
    }
}

} // verus!
