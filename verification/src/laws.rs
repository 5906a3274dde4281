//! Proved laws of the extent computation.
//!
//! Each public proof function here states one property of the extent:
//! the bounds hold and are ordered, the result depends only on the
//! multiset of outer-ring coordinates, duplicates and holes change
//! nothing, and an empty outer ring keeps the sentinel start value.

use vstd::prelude::*;

use crate::bbox::{high, low, polygon_extent, ring_extent};
use crate::binary64::{
    key, lemma_infinities_not_nan, lemma_key_above_neg_infinity, lemma_key_below_pos_infinity,
    spec_is_nan, spec_le, spec_lt, NEG_INFINITY, POS_INFINITY,
};

verus! {

/// Do two patterns encode the same non-NaN value? Distinct patterns
/// can: positive and negative zero share a key.
pub open spec fn same_encoded_value(a: u64, b: u64) -> bool {
    &&& !spec_is_nan(a)
    &&& !spec_is_nan(b)
    &&& key(a) == key(b)
}

/// Do two extents agree, bound for bound, as encoded values?
pub open spec fn extent_equiv(e1: Seq<u64>, e2: Seq<u64>) -> bool {
    &&& e1.len() == 4
    &&& e2.len() == 4
    &&& forall|j: int| 0 <= j < 4 ==> same_encoded_value(#[trigger] e1[j], e2[j])
}

/// A lower bound is never NaN: it starts at an infinity and is only
/// ever replaced by a pattern that won a strict comparison.
pub proof fn lemma_low_not_nan(ring: Seq<Seq<u64>>, axis: int)
    ensures
        !spec_is_nan(low(ring, axis)),
    decreases ring.len(),
{
    lemma_infinities_not_nan();
    if ring.len() > 0 {
        lemma_low_not_nan(ring.drop_last(), axis);
    }
}

/// An upper bound is never NaN.
pub proof fn lemma_high_not_nan(ring: Seq<Seq<u64>>, axis: int)
    ensures
        !spec_is_nan(high(ring, axis)),
    decreases ring.len(),
{
    lemma_infinities_not_nan();
    if ring.len() > 0 {
        lemma_high_not_nan(ring.drop_last(), axis);
    }
}

/// The lower bound lies at or below every non-NaN component it scanned.
pub proof fn lemma_low_bound(ring: Seq<Seq<u64>>, axis: int)
    ensures
        forall|i: int|
            0 <= i < ring.len() && !spec_is_nan((#[trigger] ring[i])[axis])
                ==> key(low(ring, axis)) <= key(ring[i][axis]),
    decreases ring.len(),
{
    if ring.len() > 0 {
        let dl = ring.drop_last();
        lemma_low_bound(dl, axis);
        lemma_low_not_nan(dl, axis);
        assert forall|i: int|
            0 <= i < ring.len() && !spec_is_nan((#[trigger] ring[i])[axis])
                implies key(low(ring, axis)) <= key(ring[i][axis]) by {
            if i < ring.len() - 1 {
                assert(dl[i] == ring[i]);
            }
        }
    }
}

/// The upper bound lies at or above every non-NaN component it scanned.
pub proof fn lemma_high_bound(ring: Seq<Seq<u64>>, axis: int)
    ensures
        forall|i: int|
            0 <= i < ring.len() && !spec_is_nan((#[trigger] ring[i])[axis])
                ==> key(high(ring, axis)) >= key(ring[i][axis]),
    decreases ring.len(),
{
    if ring.len() > 0 {
        let dl = ring.drop_last();
        lemma_high_bound(dl, axis);
        lemma_high_not_nan(dl, axis);
        assert forall|i: int|
            0 <= i < ring.len() && !spec_is_nan((#[trigger] ring[i])[axis])
                implies key(high(ring, axis)) >= key(ring[i][axis]) by {
            if i < ring.len() - 1 {
                assert(dl[i] == ring[i]);
            }
        }
    }
}

/// With no non-NaN component on the axis, the lower bound keeps its
/// start value; with one, the bound is such a component of the ring.
pub proof fn lemma_low_attained(ring: Seq<Seq<u64>>, axis: int)
    ensures
        (forall|i: int| 0 <= i < ring.len() ==> spec_is_nan((#[trigger] ring[i])[axis]))
            ==> low(ring, axis) == POS_INFINITY,
        (exists|i: int| 0 <= i < ring.len() && !spec_is_nan((#[trigger] ring[i])[axis]))
            ==> (exists|i: int|
                0 <= i < ring.len() && !spec_is_nan((#[trigger] ring[i])[axis])
                    && low(ring, axis) == ring[i][axis]),
    decreases ring.len(),
{
    lemma_infinities_not_nan();
    if ring.len() > 0 {
        let dl = ring.drop_last();
        let v = ring.last()[axis];
        let prev = low(dl, axis);
        lemma_low_attained(dl, axis);
        lemma_low_not_nan(dl, axis);
        assert(ring.last() == ring[ring.len() - 1]);
        assert(forall|i: int| 0 <= i < dl.len() ==> #[trigger] dl[i] == ring[i]);
        if spec_lt(v, prev) {
            assert(!spec_is_nan(v) && low(ring, axis) == v);
        } else {
            assert(low(ring, axis) == prev);
            if exists|i: int| 0 <= i < ring.len() && !spec_is_nan((#[trigger] ring[i])[axis]) {
                if exists|i: int| 0 <= i < dl.len() && !spec_is_nan((#[trigger] dl[i])[axis]) {
                    let j = choose|i: int|
                        0 <= i < dl.len() && !spec_is_nan((#[trigger] dl[i])[axis])
                            && low(dl, axis) == dl[i][axis];
                    assert(!spec_is_nan(ring[j][axis]) && low(ring, axis) == ring[j][axis]);
                } else {
                    // the only non-NaN component is the last one, and it
                    // failed to move a bound that still holds its start
                    // value: it can only be that start value itself
                    let w = choose|i: int|
                        0 <= i < ring.len() && !spec_is_nan((#[trigger] ring[i])[axis]);
                    assert(w == ring.len() - 1) by {
                        if w < ring.len() - 1 {
                            assert(dl[w] == ring[w]);
                        }
                    }
                    assert(!spec_is_nan(v));
                    assert(prev == POS_INFINITY);
                    lemma_key_below_pos_infinity(v);
                    assert(v == POS_INFINITY);
                    assert(low(ring, axis) == ring[ring.len() - 1][axis]);
                }
            }
        }
    }
}

/// With no non-NaN component on the axis, the upper bound keeps its
/// start value; with one, the bound is such a component of the ring.
pub proof fn lemma_high_attained(ring: Seq<Seq<u64>>, axis: int)
    ensures
        (forall|i: int| 0 <= i < ring.len() ==> spec_is_nan((#[trigger] ring[i])[axis]))
            ==> high(ring, axis) == NEG_INFINITY,
        (exists|i: int| 0 <= i < ring.len() && !spec_is_nan((#[trigger] ring[i])[axis]))
            ==> (exists|i: int|
                0 <= i < ring.len() && !spec_is_nan((#[trigger] ring[i])[axis])
                    && high(ring, axis) == ring[i][axis]),
    decreases ring.len(),
{
    lemma_infinities_not_nan();
    if ring.len() > 0 {
        let dl = ring.drop_last();
        let v = ring.last()[axis];
        let prev = high(dl, axis);
        lemma_high_attained(dl, axis);
        lemma_high_not_nan(dl, axis);
        assert(ring.last() == ring[ring.len() - 1]);
        assert(forall|i: int| 0 <= i < dl.len() ==> #[trigger] dl[i] == ring[i]);
        if spec_lt(prev, v) {
            assert(!spec_is_nan(v) && high(ring, axis) == v);
        } else {
            assert(high(ring, axis) == prev);
            if exists|i: int| 0 <= i < ring.len() && !spec_is_nan((#[trigger] ring[i])[axis]) {
                if exists|i: int| 0 <= i < dl.len() && !spec_is_nan((#[trigger] dl[i])[axis]) {
                    let j = choose|i: int|
                        0 <= i < dl.len() && !spec_is_nan((#[trigger] dl[i])[axis])
                            && high(dl, axis) == dl[i][axis];
                    assert(!spec_is_nan(ring[j][axis]) && high(ring, axis) == ring[j][axis]);
                } else {
                    let w = choose|i: int|
                        0 <= i < ring.len() && !spec_is_nan((#[trigger] ring[i])[axis]);
                    assert(w == ring.len() - 1) by {
                        if w < ring.len() - 1 {
                            assert(dl[w] == ring[w]);
                        }
                    }
                    assert(!spec_is_nan(v));
                    assert(prev == NEG_INFINITY);
                    lemma_key_above_neg_infinity(v);
                    assert(v == NEG_INFINITY);
                    assert(high(ring, axis) == ring[ring.len() - 1][axis]);
                }
            }
        }
    }
}

/// A value contained in one of two sequences with equal multisets is
/// contained in the other.
proof fn lemma_multiset_contains_transfer(r1: Seq<Seq<u64>>, r2: Seq<Seq<u64>>, c: Seq<u64>)
    requires
        r1.to_multiset() == r2.to_multiset(),
        r1.contains(c),
    ensures
        r2.contains(c),
{
    broadcast use vstd::seq_lib::group_to_multiset_ensures;

    assert(r1.to_multiset().count(c) > 0);
    assert(r2.to_multiset().count(c) > 0);
}

/// Scanning a ring that holds every coordinate of another ring takes
/// the lower bound at least as far down.
proof fn lemma_low_le_of_contained(sub: Seq<Seq<u64>>, sup: Seq<Seq<u64>>, axis: int)
    requires
        forall|i: int| 0 <= i < sub.len() ==> sup.contains(#[trigger] sub[i]),
    ensures
        key(low(sup, axis)) <= key(low(sub, axis)),
{
    lemma_low_not_nan(sup, axis);
    if exists|i: int| 0 <= i < sub.len() && !spec_is_nan((#[trigger] sub[i])[axis]) {
        lemma_low_attained(sub, axis);
        let i1 = choose|i: int|
            0 <= i < sub.len() && !spec_is_nan((#[trigger] sub[i])[axis])
                && low(sub, axis) == sub[i][axis];
        assert(sup.contains(sub[i1]));
        let j = choose|j: int| 0 <= j < sup.len() && sup[j] == sub[i1];
        lemma_low_bound(sup, axis);
        assert(key(low(sup, axis)) <= key(sup[j][axis]));
    } else {
        lemma_low_attained(sub, axis);
        assert(low(sub, axis) == POS_INFINITY);
        lemma_key_below_pos_infinity(low(sup, axis));
    }
}

/// Scanning a ring that holds every coordinate of another ring takes
/// the upper bound at least as far up.
proof fn lemma_high_ge_of_contained(sub: Seq<Seq<u64>>, sup: Seq<Seq<u64>>, axis: int)
    requires
        forall|i: int| 0 <= i < sub.len() ==> sup.contains(#[trigger] sub[i]),
    ensures
        key(high(sup, axis)) >= key(high(sub, axis)),
{
    lemma_high_not_nan(sup, axis);
    if exists|i: int| 0 <= i < sub.len() && !spec_is_nan((#[trigger] sub[i])[axis]) {
        lemma_high_attained(sub, axis);
        let i1 = choose|i: int|
            0 <= i < sub.len() && !spec_is_nan((#[trigger] sub[i])[axis])
                && high(sub, axis) == sub[i][axis];
        assert(sup.contains(sub[i1]));
        let j = choose|j: int| 0 <= j < sup.len() && sup[j] == sub[i1];
        lemma_high_bound(sup, axis);
        assert(key(high(sup, axis)) >= key(sup[j][axis]));
    } else {
        lemma_high_attained(sub, axis);
        assert(high(sub, axis) == NEG_INFINITY);
        lemma_key_above_neg_infinity(high(sup, axis));
    }
}

/// Two rings, each containing every coordinate of the other, have the
/// same extent, bound for bound, as encoded values.
proof fn lemma_extent_equiv_of_mutual_containment(r1: Seq<Seq<u64>>, r2: Seq<Seq<u64>>)
    requires
        forall|i: int| 0 <= i < r1.len() ==> r2.contains(#[trigger] r1[i]),
        forall|i: int| 0 <= i < r2.len() ==> r1.contains(#[trigger] r2[i]),
    ensures
        extent_equiv(ring_extent(r1), ring_extent(r2)),
{
    assert forall|axis: int| 0 <= axis < 2 implies key(low(r1, axis)) == key(low(r2, axis))
        && key(high(r1, axis)) == key(high(r2, axis)) by {
        lemma_low_le_of_contained(r1, r2, axis);
        lemma_low_le_of_contained(r2, r1, axis);
        lemma_high_ge_of_contained(r1, r2, axis);
        lemma_high_ge_of_contained(r2, r1, axis);
    }
    assert forall|axis: int| 0 <= axis < 2 implies !spec_is_nan(low(r1, axis))
        && !spec_is_nan(low(r2, axis)) && !spec_is_nan(high(r1, axis))
        && !spec_is_nan(high(r2, axis)) by {
        lemma_low_not_nan(r1, axis);
        lemma_low_not_nan(r2, axis);
        lemma_high_not_nan(r1, axis);
        lemma_high_not_nan(r2, axis);
    }
}

/// Whenever some coordinate has a non-NaN x and some coordinate has a
/// non-NaN y, the bounds are ordered: west at or below east, south at
/// or below north. (A non-empty ring whose components are all NaN on
/// an axis keeps both start values instead, and those sit in the
/// reverse order.)
pub proof fn lemma_extent_ordered(ring: Seq<Seq<u64>>)
    requires
        exists|i: int| 0 <= i < ring.len() && !spec_is_nan((#[trigger] ring[i])[0]),
        exists|i: int| 0 <= i < ring.len() && !spec_is_nan((#[trigger] ring[i])[1]),
    ensures
        spec_le(ring_extent(ring)[0], ring_extent(ring)[2]),
        spec_le(ring_extent(ring)[1], ring_extent(ring)[3]),
{
    assert forall|axis: int| 0 <= axis < 2 implies spec_le(low(ring, axis), high(ring, axis)) by {
        lemma_low_not_nan(ring, axis);
        lemma_high_not_nan(ring, axis);
        lemma_low_bound(ring, axis);
        lemma_high_bound(ring, axis);
        let i = choose|i: int| 0 <= i < ring.len() && !spec_is_nan((#[trigger] ring[i])[axis]);
        assert(key(low(ring, axis)) <= key(ring[i][axis]));
        assert(key(high(ring, axis)) >= key(ring[i][axis]));
    }
}

/// Every coordinate of the ring lies inside the extent: a non-NaN x
/// sits between west and east, a non-NaN y between south and north.
pub proof fn lemma_extent_bounds(ring: Seq<Seq<u64>>)
    ensures
        forall|i: int|
            0 <= i < ring.len() && !spec_is_nan((#[trigger] ring[i])[0])
                ==> spec_le(ring_extent(ring)[0], ring[i][0])
                    && spec_le(ring[i][0], ring_extent(ring)[2]),
        forall|i: int|
            0 <= i < ring.len() && !spec_is_nan((#[trigger] ring[i])[1])
                ==> spec_le(ring_extent(ring)[1], ring[i][1])
                    && spec_le(ring[i][1], ring_extent(ring)[3]),
{
    lemma_low_not_nan(ring, 0);
    lemma_low_not_nan(ring, 1);
    lemma_high_not_nan(ring, 0);
    lemma_high_not_nan(ring, 1);
    lemma_low_bound(ring, 0);
    lemma_low_bound(ring, 1);
    lemma_high_bound(ring, 0);
    lemma_high_bound(ring, 1);
}

/// Order invariance: rings holding the same coordinates in any order
/// (equal as multisets) have the same extent as encoded values.
pub proof fn lemma_extent_permutation(r1: Seq<Seq<u64>>, r2: Seq<Seq<u64>>)
    requires
        r1.to_multiset() == r2.to_multiset(),
    ensures
        extent_equiv(ring_extent(r1), ring_extent(r2)),
{
    assert forall|i: int| 0 <= i < r1.len() implies r2.contains(#[trigger] r1[i]) by {
        lemma_multiset_contains_transfer(r1, r2, r1[i]);
    }
    assert forall|i: int| 0 <= i < r2.len() implies r1.contains(#[trigger] r2[i]) by {
        lemma_multiset_contains_transfer(r2, r1, r2[i]);
    }
    lemma_extent_equiv_of_mutual_containment(r1, r2);
}

/// Duplicate invariance: appending coordinates that already occur in
/// the ring leaves the extent unchanged as encoded values.
pub proof fn lemma_extent_duplicates(ring: Seq<Seq<u64>>, extra: Seq<Seq<u64>>)
    requires
        forall|i: int| 0 <= i < extra.len() ==> ring.contains(#[trigger] extra[i]),
    ensures
        extent_equiv(ring_extent(ring + extra), ring_extent(ring)),
{
    let cat = ring + extra;
    assert forall|i: int| 0 <= i < cat.len() implies ring.contains(#[trigger] cat[i]) by {
        if i < ring.len() {
            assert(cat[i] == ring[i]);
        } else {
            assert(cat[i] == extra[i - ring.len()]);
        }
    }
    assert forall|i: int| 0 <= i < ring.len() implies cat.contains(#[trigger] ring[i]) by {
        assert(cat[i] == ring[i]);
    }
    lemma_extent_equiv_of_mutual_containment(cat, ring);
}

/// Hole invariance: rings after the first never move the extent; a
/// polygon's extent is its outer ring's extent.
pub proof fn lemma_extent_ignores_holes(rings: Seq<Seq<Seq<u64>>>, holes: Seq<Seq<Seq<u64>>>)
    requires
        rings.len() >= 1,
    ensures
        polygon_extent(rings + holes) == polygon_extent(rings),
{
    assert((rings + holes)[0] == rings[0]);
}

/// An empty ring keeps the sentinel start value
/// `[+inf, +inf, -inf, -inf]`.
pub proof fn lemma_extent_empty_ring()
    ensures
        ring_extent(Seq::empty()) == seq![POS_INFINITY, POS_INFINITY, NEG_INFINITY, NEG_INFINITY],
{
}

} // verus!
