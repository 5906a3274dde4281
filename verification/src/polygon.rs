//! The polygon data type consumed by the extent calculator.
//!
//! A polygon is an ordered sequence of rings; ring 0 is the outer
//! boundary and any later rings are holes. A ring is an ordered
//! sequence of coordinates, and a coordinate is a two-element sequence
//! holding the binary64 bit patterns of x (longitude / easting) and y
//! (latitude / northing), in that order.
//!
//! A well-formed polygon has at least one (possibly empty) ring, and
//! every coordinate holds exactly two values. Construction demands
//! well-formedness up front, so that reading the outer ring is always
//! in bounds.

use vstd::prelude::*;

verus! {

/// A polygon: rings of two-element coordinates, outer ring first.
pub struct FeaturePolygon {
    rings: Vec<Vec<Vec<u64>>>,
}

/// Is the ring well-formed: is every coordinate in it a pair?
pub open spec fn ring_wf(ring: Seq<Seq<u64>>) -> bool {
    forall|j: int| 0 <= j < ring.len() ==> (#[trigger] ring[j]).len() == 2
}

/// Do the rings form a well-formed polygon: at least one ring, and
/// every ring well-formed?
pub open spec fn rings_wf(rings: Seq<Seq<Seq<u64>>>) -> bool {
    &&& rings.len() >= 1
    &&& forall|i: int| 0 <= i < rings.len() ==> ring_wf(#[trigger] rings[i])
}

impl View for FeaturePolygon {
    type V = Seq<Seq<Seq<u64>>>;

    closed spec fn view(&self) -> Seq<Seq<Seq<u64>>> {
        self.rings.deep_view()
    }
}

impl FeaturePolygon {
    /// Is the polygon well-formed?
    pub open spec fn wf(&self) -> bool {
        rings_wf(self@)
    }

    /// Builds a polygon from its rings. The caller owes a well-formed
    /// ring list: at least one ring, each coordinate a pair.
    pub fn new(rings: Vec<Vec<Vec<u64>>>) -> (p: FeaturePolygon)
        requires
            rings_wf(rings.deep_view()),
        ensures
            p@ == rings.deep_view(),
            p.wf(),
    {
        FeaturePolygon { rings }
    }

    /// Read-only access to the rings.
    pub fn coordinates(&self) -> (r: &Vec<Vec<Vec<u64>>>)
        ensures
            r.deep_view() == self@,
    {
        &self.rings
    }
}

} // verus!
