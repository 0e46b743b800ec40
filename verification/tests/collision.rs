//! Pairwise SAT scenarios with exact expected values.

use physics2d::polygon::Polygon2D;
use physics2d::sat::{sat_test, test_pair, PairResult};
use physics2d::vec2::Vec2r;

fn square32() -> Polygon2D {
    let verts = vec![
        Vec2r::from_ints(-32, 32),
        Vec2r::from_ints(-32, -32),
        Vec2r::from_ints(32, -32),
        Vec2r::from_ints(32, 32),
    ];
    Polygon2D::new(verts).unwrap()
}

#[test]
fn distant_squares_do_not_overlap() {
    // half-extent 32 at (0,0) and (100,0): gap of 36, no overlap
    let sq = square32();
    let r = sat_test(Vec2r::from_ints(0, 0), &sq, Vec2r::from_ints(100, 0), &sq);
    assert!(matches!(r, PairResult::NoOverlap));
}

#[test]
fn touching_squares_do_not_overlap() {
    // tangent contact (distance exactly 64) counts as no overlap
    let sq = square32();
    let r = sat_test(Vec2r::from_ints(0, 0), &sq, Vec2r::from_ints(64, 0), &sq);
    assert!(matches!(r, PairResult::NoOverlap));
}

#[test]
fn overlapping_squares_yield_the_minimum_translation() {
    // half-extent 32 at (0,0) and (40,0): x-overlap 64 - 40 = 24, so the
    // MTV pushes the first square 24 left
    let sq = square32();
    let r = sat_test(Vec2r::from_ints(0, 0), &sq, Vec2r::from_ints(40, 0), &sq);
    match r {
        PairResult::Overlap(v) => assert_eq!(v, Vec2r::from_ints(-24, 0)),
        _ => panic!("expected overlap"),
    }
}

#[test]
fn overlap_from_the_other_side_flips_the_translation() {
    let sq = square32();
    let r = sat_test(Vec2r::from_ints(40, 0), &sq, Vec2r::from_ints(0, 0), &sq);
    match r {
        PairResult::Overlap(v) => assert_eq!(v, Vec2r::from_ints(24, 0)),
        _ => panic!("expected overlap"),
    }
}

#[test]
fn vertical_overlap_resolves_along_y() {
    let sq = square32();
    let r = sat_test(Vec2r::from_ints(0, 0), &sq, Vec2r::from_ints(0, 50), &sq);
    match r {
        PairResult::Overlap(v) => assert_eq!(v, Vec2r::from_ints(0, -14)),
        _ => panic!("expected overlap"),
    }
}

#[test]
fn applying_the_translation_leaves_the_pair_tangent() {
    // pushing the mover by the MTV removes the overlap exactly
    let sq = square32();
    let p1 = Vec2r::from_ints(0, 0);
    let p2 = Vec2r::from_ints(40, 0);
    let v = match sat_test(p1, &sq, p2, &sq) {
        PairResult::Overlap(v) => v,
        _ => panic!("expected overlap"),
    };
    let corrected = p1.checked_add(v).unwrap();
    assert_eq!(corrected, Vec2r::from_ints(-24, 0));
    let after = sat_test(corrected, &sq, p2, &sq);
    assert!(matches!(after, PairResult::NoOverlap));
}

#[test]
fn trigger_obstacle_reports_no_overlap_to_resolution() {
    // test_pair skips a trigger obstacle, sat_test still sees the geometry
    let sq = square32();
    let zone = square32().set_trigger(true);
    let p1 = Vec2r::from_ints(0, 0);
    let p2 = Vec2r::from_ints(10, 0);
    assert!(matches!(test_pair(p1, &sq, p2, &zone), PairResult::NoOverlap));
    assert!(matches!(sat_test(p1, &sq, p2, &zone), PairResult::Overlap(_)));
    // a solid obstacle resists either way
    assert!(matches!(test_pair(p1, &sq, p2, &sq), PairResult::Overlap(_)));
}

#[test]
fn fully_contained_square_is_pushed_out_the_nearest_side() {
    // a small square just right of center inside a big one: the cheapest
    // exit is the right side
    let big_verts = vec![
        Vec2r::from_ints(-100, 100),
        Vec2r::from_ints(-100, -100),
        Vec2r::from_ints(100, -100),
        Vec2r::from_ints(100, 100),
    ];
    let big = Polygon2D::new(big_verts).unwrap();
    let small = square32();
    let r = sat_test(Vec2r::from_ints(60, 0), &small, Vec2r::from_ints(0, 0), &big);
    match r {
        // right faces at 92 and 100: pushing 72 right separates them
        PairResult::Overlap(v) => assert_eq!(v, Vec2r::from_ints(72, 0)),
        _ => panic!("expected overlap"),
    }
}
