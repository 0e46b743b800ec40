//! Exact scalar, vector and polygon construction behaviour.

use physics2d::polygon::{GeometryError, Polygon2D};
use physics2d::rat::Rat;
use physics2d::vec2::Vec2r;

fn ri(n: i32) -> Rat {
    Rat::from_int(n)
}

fn square32() -> Polygon2D {
    let verts = vec![
        Vec2r::from_ints(-32, 32),
        Vec2r::from_ints(-32, -32),
        Vec2r::from_ints(32, -32),
        Vec2r::from_ints(32, 32),
    ];
    Polygon2D::new(verts).unwrap()
}

#[test]
fn rat_addition_is_exact() {
    let half = Rat::new(1, 2).unwrap();
    let third = Rat::new(1, 3).unwrap();
    let sum = half.checked_add(third).unwrap();
    assert_eq!(sum, Rat { num: 5, den: 6 });
}

#[test]
fn rat_results_are_reduced() {
    let a = Rat::new(1, 4).unwrap();
    let sum = a.checked_add(a).unwrap();
    assert_eq!(sum, Rat { num: 1, den: 2 });
    let prod = Rat::new(2, 3).unwrap().checked_mul(Rat::new(3, 2).unwrap()).unwrap();
    assert_eq!(prod, Rat { num: 1, den: 1 });
}

#[test]
fn rat_value_equality_ignores_representation() {
    let a = Rat::new(2, 4).unwrap();
    let b = Rat::new(1, 2).unwrap();
    assert!(a.eq_val(b));
    assert!(a.le(b));
    assert!(!a.lt(b));
    assert!(Rat::new(-1, 2).unwrap().lt(b));
}

#[test]
fn rat_division_is_exact() {
    let q = ri(24).checked_div(ri(-4)).unwrap();
    assert_eq!(q, Rat { num: -6, den: 1 });
}

#[test]
fn rat_overflow_is_reported() {
    let big = Rat::new(i64::MAX, 1).unwrap();
    assert!(big.checked_add(big).is_none());
    assert!(big.checked_mul(big).is_none());
}

#[test]
fn rat_rejects_bad_fields() {
    assert!(Rat::new(1, 0).is_none());
    assert!(Rat::new(1, -3).is_none());
    assert!(Rat::new(i64::MIN, 1).is_none());
}

#[test]
fn vector_arithmetic_is_componentwise() {
    let a = Vec2r::from_ints(3, -4);
    let b = Vec2r::from_ints(-1, 10);
    assert_eq!(a.checked_add(b).unwrap(), Vec2r::from_ints(2, 6));
    assert_eq!(a.checked_sub(b).unwrap(), Vec2r::from_ints(4, -14));
    assert_eq!(a.perp(), Vec2r::from_ints(4, 3));
    assert_eq!(a.dot(b).unwrap(), Rat { num: -43, den: 1 });
}

#[test]
fn square_normals_are_edge_perpendiculars() {
    // one normal per vertex, each the exact perpendicular of its edge
    let p = square32();
    assert_eq!(p.verts.len(), 4);
    assert_eq!(p.normals.len(), 4);
    assert_eq!(p.normals[0], Vec2r::from_ints(-64, 0));
    assert_eq!(p.normals[1], Vec2r::from_ints(0, -64));
    assert_eq!(p.normals[2], Vec2r::from_ints(64, 0));
    assert_eq!(p.normals[3], Vec2r::from_ints(0, -64));
    assert!(!p.is_trigger);
}

#[test]
fn triangle_normals_are_perpendicular_and_nonzero() {
    let verts = vec![
        Vec2r::from_ints(0, 0),
        Vec2r::from_ints(10, 0),
        Vec2r::from_ints(0, 10),
    ];
    let p = Polygon2D::new(verts).unwrap();
    assert_eq!(p.normals.len(), 3);
    for i in 0..3 {
        let a = p.verts[i];
        let b = if i + 1 < 3 { p.verts[i + 1] } else { p.verts[i] };
        let edge = if i + 1 < 3 {
            a.checked_sub(b).unwrap()
        } else {
            p.verts[0].checked_sub(p.verts[2]).unwrap()
        };
        let n = p.normals[i];
        // orthogonal: exact dot product is zero
        assert_eq!(n.dot(edge).unwrap(), Rat { num: 0, den: 1 });
        // nonzero
        assert!(!n.is_zero());
    }
}

#[test]
fn too_few_vertices_is_rejected() {
    let verts = vec![Vec2r::from_ints(0, 0), Vec2r::from_ints(1, 0)];
    assert_eq!(Polygon2D::new(verts).unwrap_err(), GeometryError::TooFewVertices);
    assert_eq!(Polygon2D::new(Vec::new()).unwrap_err(), GeometryError::TooFewVertices);
}

#[test]
fn degenerate_edge_is_rejected() {
    let verts = vec![
        Vec2r::from_ints(0, 0),
        Vec2r::from_ints(0, 0),
        Vec2r::from_ints(1, 1),
    ];
    assert_eq!(Polygon2D::new(verts).unwrap_err(), GeometryError::DegenerateEdge);
    // the wrap-around edge counts too
    let verts = vec![
        Vec2r::from_ints(0, 0),
        Vec2r::from_ints(5, 0),
        Vec2r::from_ints(0, 0),
    ];
    assert_eq!(Polygon2D::new(verts).unwrap_err(), GeometryError::DegenerateEdge);
}

#[test]
fn set_trigger_replaces_only_the_flag() {
    let p = square32();
    let verts_before = p.verts.clone();
    let t = p.set_trigger(true);
    assert!(t.is_trigger);
    assert_eq!(t.verts, verts_before);
    let back = t.set_trigger(false);
    assert!(!back.is_trigger);
}

#[test]
fn horizontal_line_builds_a_thin_rectangle() {
    let p = Polygon2D::new_line(Vec2r::from_ints(0, 0), Vec2r::from_ints(100, 0), ri(8)).unwrap();
    assert_eq!(p.verts.len(), 4);
    assert_eq!(p.verts[0], Vec2r::from_ints(-8, 8));
    assert_eq!(p.verts[1], Vec2r::from_ints(-8, -8));
    assert_eq!(p.verts[2], Vec2r::from_ints(108, -8));
    assert_eq!(p.verts[3], Vec2r::from_ints(108, 8));
    assert!(!p.is_trigger);
}

#[test]
fn vertical_line_builds_a_thin_rectangle() {
    let p = Polygon2D::new_line(Vec2r::from_ints(0, 0), Vec2r::from_ints(0, 50), ri(4)).unwrap();
    assert_eq!(p.verts.len(), 4);
    // direction (0, 1): corners sit 4 out on each side of both endpoints
    assert_eq!(p.verts[0], Vec2r::from_ints(-4, -4));
    assert_eq!(p.verts[1], Vec2r::from_ints(4, -4));
    assert_eq!(p.verts[2], Vec2r::from_ints(4, 54));
    assert_eq!(p.verts[3], Vec2r::from_ints(-4, 54));
}

#[test]
fn degenerate_line_is_rejected() {
    let e = Polygon2D::new_line(Vec2r::from_ints(3, 3), Vec2r::from_ints(3, 3), ri(8)).unwrap_err();
    assert_eq!(e, GeometryError::DegenerateEdge);
}

#[test]
fn slanted_line_is_rejected() {
    let e = Polygon2D::new_line(Vec2r::from_ints(0, 0), Vec2r::from_ints(10, 10), ri(8))
        .unwrap_err();
    assert_eq!(e, GeometryError::SlantedSegment);
}

#[test]
fn zero_thickness_line_is_degenerate() {
    let e = Polygon2D::new_line(Vec2r::from_ints(0, 0), Vec2r::from_ints(10, 0), ri(0))
        .unwrap_err();
    assert_eq!(e, GeometryError::DegenerateEdge);
}
