//! Axis-aligned bounding boxes (extents) for polygons.
//!
//! The extent of a polygon is the smallest axis-aligned rectangle that
//! contains every point of its outer ring, reported in WSEN order
//! (west, south, east, north).
//!
//! Coordinates are carried as the bit patterns of IEEE 754 binary64
//! values, so that the comparison logic itself is stated and proved over
//! plain integers; callers encode and decode with `to_bits`/`from_bits`.

pub mod bbox;
pub mod binary64;
pub mod laws;
pub mod polygon;

use vstd::prelude::*;

verus! {

use crate::bbox::{extent_of_ring, polygon_extent};
use crate::polygon::{rings_wf, FeaturePolygon};

/// Computes the extent of the polygon's outer ring, in WSEN order:
/// the bit patterns of west (least x), south (least y), east (greatest
/// x) and north (greatest y). Holes (rings after the first) are
/// ignored; NaN components never move a bound; an empty outer ring
/// yields the sentinel `[+inf, +inf, -inf, -inf]`.
pub fn extent(polygon: &FeaturePolygon) -> (r: Vec<u64>)
    requires
        polygon.wf(),
    ensures
        r@ == polygon_extent(polygon@),
{
    let rings = polygon.coordinates();
    let ring = &rings[0];
    assert(ring.deep_view() == polygon@[0]);
    extent_of_ring(ring)
}

/// The capability of yielding an extent: a type that models a ring
/// list can hand out the extent of its outer ring as a method.
pub trait Extent {
    /// The ring list that the extent is computed over.
    spec fn rings_model(&self) -> Seq<Seq<Seq<u64>>>;

    /// The extent of the outer ring of `rings_model`, in WSEN order;
    /// the method form of the free function `extent` and bound by the
    /// same contract.
    fn extent(&self) -> (r: Vec<u64>)
        requires
            rings_wf(self.rings_model()),
        ensures
            r@ == polygon_extent(self.rings_model()),
    ;
}

impl Extent for FeaturePolygon {
    open spec fn rings_model(&self) -> Seq<Seq<Seq<u64>>> {
        self@
    }

    fn extent(&self) -> (r: Vec<u64>) {
        extent(self)
    }
}

} // verus!
