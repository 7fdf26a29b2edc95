//! The canonical shape data.

use std::collections::HashSet;

use socha::neutral::PieceShape;

#[test]
fn canonical_shape_coordinates_unique_and_nonneg() {
    for &shape in PieceShape::ALL.iter() {
        let coords = shape.coordinates();
        let set: HashSet<(i32, i32)> = coords.iter().copied().collect();
        assert_eq!(set.len(), coords.len(), "{}: canonical coords have duplicates: {coords:?}", shape.as_str());
        for &(x, y) in coords {
            assert!(x >= 0 && y >= 0, "{}: canonical coord has negative component ({x},{y})", shape.as_str());
        }
    }
}

#[test]
fn shape_sizes_match_expected_distribution() {
    let mut counts = [0usize; 6];
    for &shape in PieceShape::ALL.iter() {
        let size = shape.size();
        assert!(size >= 1 && size <= 5, "{}: out-of-range size {size}", shape.as_str());
        counts[size] += 1;
    }
    assert_eq!(counts[1], 1, "exactly one monomino");
    assert_eq!(counts[2], 1, "exactly one domino");
    assert_eq!(counts[3], 2, "exactly two triominoes");
    assert_eq!(counts[4], 5, "exactly five tetrominoes");
    assert_eq!(counts[5], 12, "exactly twelve pentominoes");

    let total: usize = PieceShape::ALL.iter().map(|s| s.size()).sum();
    assert_eq!(total, 89, "sum of shape sizes must be 89");
}

#[test]
fn variants_count_within_reasonable_bounds() {
    for &shape in PieceShape::ALL.iter() {
        let n = shape.variants().len();
        assert!(n >= 1 && n <= 8, "{} has {n} variants, expected 1..=8", shape.as_str());
    }
}

#[test]
fn monomino_has_one_variant() {
    let vs = PieceShape::Mono.variants();
    assert_eq!(vs.len(), 1, "MONO should have only one distinct variant");
    assert_eq!(vs[0].shape, vec![(0, 0)]);
}

#[test]
fn domino_has_two_variants() {
    let vs = PieceShape::Domino.variants();
    assert_eq!(vs.len(), 2, "DOMINO should have exactly 2 distinct variants");
    let mut sorted: Vec<(i32, i32)> = vs.iter().flat_map(|v| v.shape.clone()).collect();
    sorted.sort();
}

#[test]
fn bbox_matches_bounding_box_method() {
    for &shape in PieceShape::ALL.iter() {
        let (dx, dy) = shape.bounding_box();
        assert!(dx >= 0 && dy >= 0, "{}: bbox negative ({dx},{dy})", shape.as_str());
        let (mx, my) = socha::piece_shape::bbox(shape.coordinates());
        assert_eq!((mx + 1, my + 1), (dx, dy));
    }
}
