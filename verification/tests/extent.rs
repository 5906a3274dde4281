use lodestone_extent::bbox::extent_of_ring;
use lodestone_extent::binary64::{is_nan, lt};
use lodestone_extent::extent;
use lodestone_extent::polygon::FeaturePolygon;
use lodestone_extent::Extent;

fn coord(x: f64, y: f64) -> Vec<u64> {
    vec![x.to_bits(), y.to_bits()]
}

fn decode(bits: Vec<u64>) -> Vec<f64> {
    bits.iter().map(|b| f64::from_bits(*b)).collect()
}

#[test]
fn test_polygon() {
    let ring = vec![
        coord(0.0, 0.0),
        coord(1.0, 2.0),
        coord(2.0, 0.0),
        coord(0.0, 0.0),
    ];
    let polygon = FeaturePolygon::new(vec![ring]);

    let expected = vec![0.0, 0.0, 2.0, 2.0];
    let bbox = extent(&polygon);

    assert_eq!(expected, decode(bbox));
    assert_eq!(expected, decode(polygon.extent()));
}

#[test]
fn single_point_ring() {
    let polygon = FeaturePolygon::new(vec![vec![coord(5.0, 5.0)]]);
    assert_eq!(vec![5.0, 5.0, 5.0, 5.0], decode(extent(&polygon)));
}

#[test]
fn negative_coordinates() {
    let ring = vec![coord(-3.0, -4.0), coord(-1.0, -1.0), coord(-3.0, -1.0)];
    let polygon = FeaturePolygon::new(vec![ring]);
    assert_eq!(vec![-3.0, -4.0, -1.0, -1.0], decode(extent(&polygon)));
}

#[test]
fn empty_outer_ring_keeps_sentinel() {
    let outer: Vec<Vec<u64>> = Vec::new();
    let polygon = FeaturePolygon::new(vec![outer]);
    let bbox = decode(extent(&polygon));
    assert_eq!(
        vec![f64::INFINITY, f64::INFINITY, f64::NEG_INFINITY, f64::NEG_INFINITY],
        bbox
    );
}

#[test]
fn method_form_matches_free_function() {
    let ring = vec![coord(7.5, -2.25), coord(-8.0, 3.5), coord(0.5, 9.0)];
    let hole = vec![coord(1.0, 1.0), coord(2.0, 2.0)];
    let polygon = FeaturePolygon::new(vec![ring, hole]);
    assert_eq!(extent(&polygon), polygon.extent());
}

#[test]
fn holes_do_not_move_the_extent() {
    let ring = vec![coord(0.0, 0.0), coord(4.0, 4.0), coord(4.0, 0.0)];
    let hole = vec![coord(-100.0, -100.0), coord(100.0, 100.0)];
    let without = FeaturePolygon::new(vec![ring.clone()]);
    let with = FeaturePolygon::new(vec![ring, hole]);
    assert_eq!(extent(&without), extent(&with));
}

#[test]
fn permuted_ring_same_extent() {
    let a = vec![coord(1.0, 2.0), coord(-5.0, 0.5), coord(3.0, -9.0)];
    let b = vec![coord(3.0, -9.0), coord(1.0, 2.0), coord(-5.0, 0.5)];
    let pa = FeaturePolygon::new(vec![a]);
    let pb = FeaturePolygon::new(vec![b]);
    assert_eq!(decode(extent(&pa)), decode(extent(&pb)));
}

#[test]
fn duplicates_same_extent() {
    let a = vec![coord(1.0, 2.0), coord(-5.0, 0.5), coord(3.0, -9.0)];
    let mut b = a.clone();
    b.push(coord(1.0, 2.0));
    b.push(coord(3.0, -9.0));
    let pa = FeaturePolygon::new(vec![a]);
    let pb = FeaturePolygon::new(vec![b]);
    assert_eq!(decode(extent(&pa)), decode(extent(&pb)));
}

#[test]
fn bounds_are_ordered_and_contain_all_coordinates() {
    let points = [(7.5, -2.25), (-8.0, 3.5), (0.5, 9.0), (7.5, 9.0)];
    let ring: Vec<Vec<u64>> = points.iter().map(|(x, y)| coord(*x, *y)).collect();
    let polygon = FeaturePolygon::new(vec![ring]);
    let bbox = decode(extent(&polygon));
    let (west, south, east, north) = (bbox[0], bbox[1], bbox[2], bbox[3]);
    assert!(west <= east);
    assert!(south <= north);
    for (x, y) in points {
        assert!(west <= x && x <= east);
        assert!(south <= y && y <= north);
    }
}

#[test]
fn nan_components_are_skipped() {
    let ring = vec![
        coord(f64::NAN, 1.0),
        coord(2.0, f64::NAN),
        coord(0.0, 3.0),
    ];
    let polygon = FeaturePolygon::new(vec![ring]);
    assert_eq!(vec![0.0, 1.0, 2.0, 3.0], decode(extent(&polygon)));
}

#[test]
fn all_nan_ring_keeps_sentinel() {
    let ring = vec![coord(f64::NAN, f64::NAN)];
    let polygon = FeaturePolygon::new(vec![ring]);
    let bbox = decode(extent(&polygon));
    assert_eq!(
        vec![f64::INFINITY, f64::INFINITY, f64::NEG_INFINITY, f64::NEG_INFINITY],
        bbox
    );
}

#[test]
fn negative_zero_first_occurrence_kept() {
    // the zero patterns compare equal, so neither displaces the other:
    // the first one seen settles both zero-valued bounds
    let ring = vec![coord(-0.0, 0.0), coord(0.0, 0.0)];
    let bbox = extent_of_ring(&ring);
    assert_eq!((-0.0f64).to_bits(), bbox[0]);
    assert_eq!((-0.0f64).to_bits(), bbox[2]);
    assert_eq!(0.0f64.to_bits(), bbox[1]);
    assert_eq!(0.0f64.to_bits(), bbox[3]);
}

#[test]
fn extent_of_ring_infinite_coordinates() {
    let ring = vec![coord(f64::NEG_INFINITY, 1.0), coord(f64::INFINITY, -1.0)];
    let bbox = decode(extent_of_ring(&ring));
    assert_eq!(vec![f64::NEG_INFINITY, -1.0, f64::INFINITY, 1.0], bbox);
}

#[test]
fn comparison_follows_ieee_order() {
    assert!(lt((-3.0f64).to_bits(), (-1.0f64).to_bits()));
    assert!(lt((-1.0f64).to_bits(), 2.0f64.to_bits()));
    assert!(lt(2.0f64.to_bits(), f64::INFINITY.to_bits()));
    assert!(lt(f64::NEG_INFINITY.to_bits(), (-1.0f64).to_bits()));
    assert!(!lt(2.0f64.to_bits(), 2.0f64.to_bits()));
    assert!(!lt((-0.0f64).to_bits(), 0.0f64.to_bits()));
    assert!(!lt(0.0f64.to_bits(), (-0.0f64).to_bits()));
    assert!(!lt(f64::NAN.to_bits(), 1.0f64.to_bits()));
    assert!(!lt(1.0f64.to_bits(), f64::NAN.to_bits()));
    // subnormals and extremes sit where the encoded values say
    assert!(lt(0.0f64.to_bits(), 5e-324f64.to_bits()));
    assert!(lt(5e-324f64.to_bits(), f64::MIN_POSITIVE.to_bits()));
    assert!(lt((-5e-324f64).to_bits(), 0.0f64.to_bits()));
    assert!(lt(f64::MAX.to_bits(), f64::INFINITY.to_bits()));
    assert!(lt(f64::NEG_INFINITY.to_bits(), f64::MIN.to_bits()));
}

#[test]
fn nan_detection_matches_std() {
    assert!(is_nan(f64::NAN.to_bits()));
    assert!(is_nan((-f64::NAN).to_bits()));
    assert!(!is_nan(0.0f64.to_bits()));
    assert!(!is_nan((-0.0f64).to_bits()));
    assert!(!is_nan(f64::INFINITY.to_bits()));
    assert!(!is_nan(f64::NEG_INFINITY.to_bits()));
    assert!(!is_nan(1.5f64.to_bits()));
    assert!(!is_nan(f64::MIN_POSITIVE.to_bits()));
}
