//! The extent computation and its specification.
//!
//! The extent of a ring is the four-element sequence
//! `[west, south, east, north]`: the least x, least y, greatest x and
//! greatest y over the ring's coordinates, each axis scanned
//! independently. The scan starts from `[+inf, +inf, -inf, -inf]` and a
//! coordinate moves a bound only when it compares strictly beyond it,
//! so NaN components are skipped and an empty ring keeps the sentinel
//! start value. Of a polygon, only the outer ring (ring 0) is read:
//! holes never move the extent.

use vstd::prelude::*;

use crate::binary64::{lt, spec_lt, NEG_INFINITY, POS_INFINITY};
use crate::polygon::ring_wf;

verus! {

/// The least value of component `axis` over the ring, as the single
/// pass computes it: starting from positive infinity, a component
/// replaces the bound exactly when it compares strictly below it.
pub open spec fn low(ring: Seq<Seq<u64>>, axis: int) -> u64
    decreases ring.len(),
{
    if ring.len() == 0 {
        POS_INFINITY
    } else {
        let prev = low(ring.drop_last(), axis);
        let v = ring.last()[axis];
        if spec_lt(v, prev) {
            v
        } else {
            prev
        }
    }
}

/// The greatest value of component `axis` over the ring: starting from
/// negative infinity, a component replaces the bound exactly when it
/// compares strictly above it.
pub open spec fn high(ring: Seq<Seq<u64>>, axis: int) -> u64
    decreases ring.len(),
{
    if ring.len() == 0 {
        NEG_INFINITY
    } else {
        let prev = high(ring.drop_last(), axis);
        let v = ring.last()[axis];
        if spec_lt(prev, v) {
            v
        } else {
            prev
        }
    }
}

/// The extent of one ring, in WSEN order.
pub open spec fn ring_extent(ring: Seq<Seq<u64>>) -> Seq<u64> {
    seq![low(ring, 0), low(ring, 1), high(ring, 0), high(ring, 1)]
}

/// The extent of a polygon: the extent of its outer ring alone.
pub open spec fn polygon_extent(rings: Seq<Seq<Seq<u64>>>) -> Seq<u64> {
    ring_extent(rings[0])
}

/// Computes the extent of one ring of two-element coordinates.
pub fn extent_of_ring(ring: &Vec<Vec<u64>>) -> (r: Vec<u64>)
    requires
        ring_wf(ring.deep_view()),
    ensures
        r@ == ring_extent(ring.deep_view()),
{
    let ghost rv = ring.deep_view();
    let mut west: u64 = POS_INFINITY;
    let mut south: u64 = POS_INFINITY;
    let mut east: u64 = NEG_INFINITY;
    let mut north: u64 = NEG_INFINITY;
    let n = ring.len();
    assert(rv.take(0) =~= Seq::<Seq<u64>>::empty());
    for i in 0..n
        invariant
            n == ring.len(),
            rv == ring.deep_view(),
            ring_wf(rv),
            west == low(rv.take(i as int), 0),
            south == low(rv.take(i as int), 1),
            east == high(rv.take(i as int), 0),
            north == high(rv.take(i as int), 1),
    {
        let c = &ring[i];
        assert(c.deep_view() == rv[i as int]);
        let x = c[0];
        let y = c[1];
        if lt(x, west) {
            west = x;
        }
        if lt(y, south) {
            south = y;
        }
        if lt(east, x) {
            east = x;
        }
        if lt(north, y) {
            north = y;
        }
        proof {
            assert(rv.take(i + 1).drop_last() =~= rv.take(i as int));
            assert(rv.take(i + 1).last() == rv[i as int]);
        }
    }
    assert(rv.take(n as int) =~= rv);
    let mut r: Vec<u64> = Vec::new();
    r.push(west);
    r.push(south);
    r.push(east);
    r.push(north);
    assert(r@ =~= ring_extent(rv));
    r
}

} // verus!
