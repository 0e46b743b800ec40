//! Move resolution against walls, triggers, and the scan budget.

use physics2d::polygon::Polygon2D;
use physics2d::rat::Rat;
use physics2d::sat::{sat_test, PairResult};
use physics2d::vec2::Vec2r;
use physics2d::world::PhysicsWorld;

fn square32() -> Polygon2D {
    let verts = vec![
        Vec2r::from_ints(-32, 32),
        Vec2r::from_ints(-32, -32),
        Vec2r::from_ints(32, -32),
        Vec2r::from_ints(32, 32),
    ];
    Polygon2D::new(verts).unwrap()
}

#[test]
fn entities_get_dense_ids_and_keep_their_positions() {
    let mut w = PhysicsWorld::new();
    let a = w.new_entity(Vec2r::from_ints(1, 2), square32());
    let b = w.new_entity(Vec2r::from_ints(3, 4), square32());
    assert_eq!(a, 0);
    assert_eq!(b, 1);
    assert_eq!(w.len(), 2);
    assert_eq!(w.position(0), Vec2r::from_ints(1, 2));
    assert_eq!(w.position(1), Vec2r::from_ints(3, 4));
}

#[test]
fn unobstructed_move_lands_on_the_target() {
    let mut w = PhysicsWorld::new();
    let id = w.new_entity(Vec2r::from_ints(0, 0), square32());
    w.move_entity_to(id, Vec2r::from_ints(500, -200));
    assert_eq!(w.position(id), Vec2r::from_ints(500, -200));
}

#[test]
fn move_by_adds_the_delta() {
    let mut w = PhysicsWorld::new();
    let id = w.new_entity(Vec2r::from_ints(10, 0), square32());
    w.move_entity_by(id, Vec2r::from_ints(5, 5));
    assert_eq!(w.position(id), Vec2r::from_ints(15, 5));
}

#[test]
fn penetrating_move_is_pushed_back_to_tangency() {
    // a wall at (100,0); the mover asks for (60,0), which overlaps by 24,
    // so it comes to rest at (36,0), exactly tangent to the wall
    let mut w = PhysicsWorld::new();
    let _wall = w.new_entity(Vec2r::from_ints(100, 0), square32());
    let mover = w.new_entity(Vec2r::from_ints(-200, 0), square32());
    w.move_entity_to(mover, Vec2r::from_ints(60, 0));
    assert_eq!(w.position(mover), Vec2r::from_ints(36, 0));
    // final position offset from the target by the MTV, zero overlap left
    let sq = square32();
    let after = sat_test(w.position(mover), &sq, w.position(0), &sq);
    assert!(matches!(after, PairResult::NoOverlap));
}

#[test]
fn trigger_zone_never_blocks_a_solid_mover() {
    // moving straight into a trigger zone lands exactly on the target,
    // and the zone is reported while inside and not after leaving
    let mut w = PhysicsWorld::new();
    let zone = w.new_entity(Vec2r::from_ints(0, 0), square32().set_trigger(true));
    let mover = w.new_entity(Vec2r::from_ints(100, 0), square32());
    w.move_entity_to(mover, Vec2r::from_ints(0, 0));
    assert_eq!(w.position(mover), Vec2r::from_ints(0, 0));
    assert_eq!(w.get_overlapping_triggers(mover), vec![zone]);
    w.move_entity_to(mover, Vec2r::from_ints(200, 0));
    assert_eq!(w.position(mover), Vec2r::from_ints(200, 0));
    assert_eq!(w.get_overlapping_triggers(mover), Vec::<usize>::new());
}

#[test]
fn trigger_mover_lands_on_its_target_even_inside_a_wall() {
    let mut w = PhysicsWorld::new();
    let _wall = w.new_entity(Vec2r::from_ints(0, 0), square32());
    let ghostly = w.new_entity(Vec2r::from_ints(200, 0), square32().set_trigger(true));
    w.move_entity_to(ghostly, Vec2r::from_ints(0, 0));
    assert_eq!(w.position(ghostly), Vec2r::from_ints(0, 0));
}

#[test]
fn overlapping_triggers_come_back_ascending() {
    let mut w = PhysicsWorld::new();
    let z0 = w.new_entity(Vec2r::from_ints(0, 0), square32().set_trigger(true));
    let z1 = w.new_entity(Vec2r::from_ints(20, 0), square32().set_trigger(true));
    let _far = w.new_entity(Vec2r::from_ints(500, 0), square32().set_trigger(true));
    let _solid = w.new_entity(Vec2r::from_ints(10, 20), square32());
    let mover = w.new_entity(Vec2r::from_ints(10, 0), square32());
    let hits = w.get_overlapping_triggers(mover);
    assert_eq!(hits, vec![z0, z1]);
}

#[test]
fn moving_twice_to_the_same_target_is_idempotent() {
    let mut w = PhysicsWorld::new();
    let _wall = w.new_entity(Vec2r::from_ints(100, 0), square32());
    let mover = w.new_entity(Vec2r::from_ints(-200, 0), square32());
    w.move_entity_to(mover, Vec2r::from_ints(60, 0));
    let first = w.position(mover);
    w.move_entity_to(mover, Vec2r::from_ints(60, 0));
    assert_eq!(w.position(mover), first);
}

#[test]
fn replaying_a_session_reproduces_every_position() {
    let run = || {
        let mut w = PhysicsWorld::new();
        let _wall = w.new_entity(Vec2r::from_ints(100, 0), square32());
        let _zone = w.new_entity(Vec2r::from_ints(-50, 0), square32().set_trigger(true));
        let mover = w.new_entity(Vec2r::from_ints(-200, 0), square32());
        let mut trace = Vec::new();
        for target in [
            Vec2r::from_ints(-50, 0),
            Vec2r::from_ints(60, 0),
            Vec2r::from_ints(90, 10),
            Vec2r::from_ints(-10, -5),
        ] {
            w.move_entity_to(mover, target);
            trace.push(w.position(mover));
        }
        trace
    };
    assert_eq!(run(), run());
}

#[test]
fn fractional_positions_resolve_exactly() {
    // the mover asks for x = 1/2 against a wall at 40: penetration is
    // 64 - 39.5 = 24.5, and 1/2 - 49/2 = -24, exactly tangent
    let mut w = PhysicsWorld::new();
    let _wall = w.new_entity(Vec2r::from_ints(40, 0), square32());
    let mover = w.new_entity(Vec2r::from_ints(-300, 0), square32());
    let half = Rat::new(1, 2).unwrap();
    w.move_entity_to(mover, Vec2r::new(half, Rat::from_int(0)));
    assert_eq!(w.position(mover), Vec2r::from_ints(-24, 0));
}

#[test]
fn wedged_move_is_rejected_whole() {
    // two walls 80 apart leave a 16-wide slot for a 64-wide mover; every
    // correction off one wall re-enters the other, so the scan budget runs
    // out and the move is abandoned with the position unchanged
    let mut w = PhysicsWorld::new();
    let _wall_a = w.new_entity(Vec2r::from_ints(0, 0), square32());
    let _wall_b = w.new_entity(Vec2r::from_ints(80, 0), square32());
    let mover = w.new_entity(Vec2r::from_ints(300, 300), square32());
    w.move_entity_to(mover, Vec2r::from_ints(40, 0));
    assert_eq!(w.position(mover), Vec2r::from_ints(300, 300));
}

#[test]
fn rejected_move_leaves_everything_unchanged() {
    let mut w = PhysicsWorld::new();
    let wall_a = w.new_entity(Vec2r::from_ints(0, 0), square32());
    let wall_b = w.new_entity(Vec2r::from_ints(80, 0), square32());
    let mover = w.new_entity(Vec2r::from_ints(300, 300), square32());
    w.move_entity_by(mover, Vec2r::from_ints(-260, -300));
    assert_eq!(w.position(mover), Vec2r::from_ints(300, 300));
    assert_eq!(w.position(wall_a), Vec2r::from_ints(0, 0));
    assert_eq!(w.position(wall_b), Vec2r::from_ints(80, 0));
}
