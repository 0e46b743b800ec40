//! The physics world: entities, their colliders, and move resolution.
//!
//! A world owns two parallel, index-aligned arrays: one position and one
//! collider per entity. An entity id is its insertion index; ids are never
//! reused or removed. A requested move is resolved by scanning all other
//! solid colliders; any overlap adds the pair's minimum translation vector
//! to the requested position and forces a full re-scan, since one
//! correction can create or remove overlap elsewhere. After a fixed budget
//! of scans the move is abandoned and the position left unchanged, trading
//! pathological configurations for guaranteed termination. A mover whose
//! own collider is a trigger is never blocked: it lands exactly on its
//! requested target.

use vstd::prelude::*;
use crate::vec2::{Vec2r, vec2_wf, vec2_add, lemma_vec2_add_wf};
use crate::polygon::{Polygon2D, poly_wf};
use crate::sat::{PairResult, check_pair, sat_pair, test_pair, sat_test, lemma_sat_from_wf};

verus! {

/// How many full scans one move may spend before it is abandoned.
pub const RESOLVE_BUDGET: u32 = 5;

/// What one full scan over the other entities found.
pub enum ScanStep {
    /// No solid collider overlaps the mover at this position.
    Clear,
    /// Some solid collider overlaps; the corrected position after adding
    /// the pair's minimum translation vector.
    Moved(Vec2r),
    /// An exact value left the machine range; the move is abandoned.
    Halted,
}

/// How a requested move ends.
pub enum ResolveOutcome {
    /// The position the mover comes to rest at.
    Resolved(Vec2r),
    /// The scan budget was exhausted or a value left the machine range;
    /// the stored position stays unchanged.
    Rejected,
}

/// One scan from entity `n` upward: the first other solid collider that
/// overlaps the mover (entity `skip`, tentatively at `p1`) decides the
/// step; trigger obstacles never resist.
pub open spec fn scan_from(
    positions: Seq<Vec2r>,
    colliders: Seq<Polygon2D>,
    skip: int,
    p1: Vec2r,
    n: int,
) -> ScanStep
    decreases positions.len() - n,
{
    if n >= positions.len() {
        ScanStep::Clear
    } else if n == skip {
        scan_from(positions, colliders, skip, p1, n + 1)
    } else {
        match check_pair(p1, colliders[skip], positions[n], colliders[n]) {
            PairResult::NoOverlap => scan_from(positions, colliders, skip, p1, n + 1),
            PairResult::OutOfRange => ScanStep::Halted,
            PairResult::Overlap(v) => match vec2_add(p1, v) {
                None => ScanStep::Halted,
                Some(q) => ScanStep::Moved(q),
            },
        }
    }
}

/// Repeated scans with a budget: each correction spends one scan and
/// restarts; a scan with no overlap resolves at the current position;
/// an exhausted budget or an out-of-range value rejects the move.
pub open spec fn iterate_scan(
    positions: Seq<Vec2r>,
    colliders: Seq<Polygon2D>,
    skip: int,
    p1: Vec2r,
    scans_left: nat,
) -> ResolveOutcome
    decreases scans_left,
{
    if scans_left == 0 {
        ResolveOutcome::Rejected
    } else {
        match scan_from(positions, colliders, skip, p1, 0) {
            ScanStep::Clear => ResolveOutcome::Resolved(p1),
            ScanStep::Halted => ResolveOutcome::Rejected,
            ScanStep::Moved(q) => iterate_scan(
                positions,
                colliders,
                skip,
                q,
                (scans_left - 1) as nat,
            ),
        }
    }
}

/// Where the move of entity `skip` toward `target` ends: a trigger mover
/// is never blocked and lands exactly on `target`; a solid mover runs the
/// budgeted scan loop.
pub open spec fn resolve_move(
    positions: Seq<Vec2r>,
    colliders: Seq<Polygon2D>,
    skip: int,
    target: Vec2r,
) -> ResolveOutcome {
    if colliders[skip].is_trigger {
        ResolveOutcome::Resolved(target)
    } else {
        iterate_scan(positions, colliders, skip, target, RESOLVE_BUDGET as nat)
    }
}

/// The position table after `move_entity_to(id, target)`: the resolved
/// position, or unchanged when the move was rejected.
pub open spec fn move_to_spec(
    positions: Seq<Vec2r>,
    colliders: Seq<Polygon2D>,
    id: int,
    target: Vec2r,
) -> Seq<Vec2r> {
    match resolve_move(positions, colliders, id, target) {
        ResolveOutcome::Resolved(q) => positions.update(id, q),
        ResolveOutcome::Rejected => positions,
    }
}

/// The position table after `move_entity_by(id, delta)`: the move toward
/// `position + delta`, or unchanged when that sum leaves the machine range.
pub open spec fn move_by_spec(
    positions: Seq<Vec2r>,
    colliders: Seq<Polygon2D>,
    id: int,
    delta: Vec2r,
) -> Seq<Vec2r> {
    match vec2_add(positions[id], delta) {
        None => positions,
        Some(target) => move_to_spec(positions, colliders, id, target),
    }
}

/// The ids, in ascending order, of the trigger colliders from `n` upward
/// that overlap entity `id` at the stored positions.
pub open spec fn overlapping_triggers_from(
    positions: Seq<Vec2r>,
    colliders: Seq<Polygon2D>,
    id: int,
    n: int,
) -> Seq<usize>
    decreases positions.len() - n,
{
    if n >= positions.len() {
        Seq::empty()
    } else {
        let rest = overlapping_triggers_from(positions, colliders, id, n + 1);
        if n != id && colliders[n].is_trigger && sat_pair(
            positions[id],
            colliders[id],
            positions[n],
            colliders[n],
        ) is Overlap {
            seq![n as usize] + rest
        } else {
            rest
        }
    }
}

/// A world of point entities with polygon colliders.
pub struct PhysicsWorld {
    positions: Vec<Vec2r>,
    colliders: Vec<Polygon2D>,
}

impl PhysicsWorld {
    /// The stored entity positions, by id.
    pub closed spec fn pos_seq(self) -> Seq<Vec2r> {
        self.positions@
    }

    /// The stored entity colliders, by id.
    pub closed spec fn col_seq(self) -> Seq<Polygon2D> {
        self.colliders@
    }

    /// The two tables stay index-aligned and hold only well-formed values.
    pub open spec fn wf(self) -> bool {
        &&& self.pos_seq().len() == self.col_seq().len()
        &&& forall|i: int| 0 <= i < self.pos_seq().len() ==> vec2_wf(#[trigger] self.pos_seq()[i])
        &&& forall|i: int| 0 <= i < self.col_seq().len() ==> poly_wf(#[trigger] self.col_seq()[i])
    }

    /// An empty world.
    pub fn new() -> (w: PhysicsWorld)
        ensures
            w.wf(),
            w.pos_seq() == Seq::<Vec2r>::empty(),
            w.col_seq() == Seq::<Polygon2D>::empty(),
    {
        PhysicsWorld { positions: Vec::new(), colliders: Vec::new() }
    }

    /// Registers an entity at `pos` with `collider`; its id is the number
    /// of entities registered before it.
    pub fn new_entity(&mut self, pos: Vec2r, collider: Polygon2D) -> (id: usize)
        requires
            old(self).wf(),
            vec2_wf(pos),
            poly_wf(collider),
        ensures
            final(self).wf(),
            id == old(self).pos_seq().len(),
            final(self).pos_seq() == old(self).pos_seq().push(pos),
            final(self).col_seq() == old(self).col_seq().push(collider),
    {
        let id = self.positions.len();
        self.positions.push(pos);
        self.colliders.push(collider);
        id
    }

    /// How many entities the world holds.
    pub fn len(&self) -> (n: usize)
        ensures
            n == self.pos_seq().len(),
    {
        self.positions.len()
    }

    /// The stored position of an entity. An id that was never issued is a
    /// caller bug, ruled out up front.
    pub fn position(&self, entity: usize) -> (p: Vec2r)
        requires
            entity < self.pos_seq().len(),
        ensures
            p == self.pos_seq()[entity as int],
    {
        self.positions[entity]
    }

    /// Moves an entity toward `target`, resolving against all other solid
    /// colliders; the stored position becomes exactly what `move_to_spec`
    /// says: the corrected target, the target itself for a trigger mover,
    /// or — when the scan budget runs out or a value leaves the machine
    /// range — the old position, unchanged.
    pub fn move_entity_to(&mut self, entity: usize, target: Vec2r)
        requires
            old(self).wf(),
            entity < old(self).pos_seq().len(),
            vec2_wf(target),
        ensures
            final(self).wf(),
            final(self).col_seq() == old(self).col_seq(),
            final(self).pos_seq() == move_to_spec(
                old(self).pos_seq(),
                old(self).col_seq(),
                entity as int,
                target,
            ),
            final(self).pos_seq().len() == old(self).pos_seq().len(),
            forall|j: int|
                0 <= j < old(self).pos_seq().len() && j != entity ==> final(self).pos_seq()[j]
                    == old(self).pos_seq()[j],
    {
        match resolve(&self.positions, &self.colliders, entity, target) {
            ResolveOutcome::Resolved(q) => {
                proof {
                    lemma_resolve_wf(self.positions@, self.colliders@, entity as int, target);
                }
                self.positions.set(entity, q);
            },
            ResolveOutcome::Rejected => {},
        }
    }

    /// Moves an entity by `delta`: the move toward `position + delta`.
    pub fn move_entity_by(&mut self, entity: usize, delta: Vec2r)
        requires
            old(self).wf(),
            entity < old(self).pos_seq().len(),
            vec2_wf(delta),
        ensures
            final(self).wf(),
            final(self).col_seq() == old(self).col_seq(),
            final(self).pos_seq() == move_by_spec(
                old(self).pos_seq(),
                old(self).col_seq(),
                entity as int,
                delta,
            ),
    {
        match self.positions[entity].checked_add(delta) {
            None => {},
            Some(target) => {
                proof {
                    lemma_vec2_add_wf(self.positions@[entity as int], delta);
                }
                self.move_entity_to(entity, target);
            },
        }
    }

    /// The ids of all trigger colliders that overlap this entity at the
    /// stored positions, ascending. Read-only: resolution never calls it,
    /// and it moves nothing.
    pub fn get_overlapping_triggers(&self, entity: usize) -> (r: Vec<usize>)
        requires
            self.wf(),
            entity < self.pos_seq().len(),
        ensures
            r@ == overlapping_triggers_from(self.pos_seq(), self.col_seq(), entity as int, 0),
    {
        let p1 = self.positions[entity];
        let n_total = self.positions.len();
        let ghost whole = overlapping_triggers_from(
            self.pos_seq(),
            self.col_seq(),
            entity as int,
            0,
        );
        let mut found: Vec<usize> = Vec::new();
        let mut n: usize = 0;
        proof {
            assert(Seq::<usize>::empty() + whole =~= whole);
        }
        while n < n_total
            invariant
                0 <= n <= n_total,
                n_total == self.pos_seq().len(),
                self.wf(),
                entity < self.pos_seq().len(),
                p1 == self.pos_seq()[entity as int],
                found@ + overlapping_triggers_from(
                    self.pos_seq(),
                    self.col_seq(),
                    entity as int,
                    n as int,
                ) == whole,
            decreases n_total - n,
        {
            if n != entity && self.colliders[n].is_trigger {
                let res = sat_test(
                    p1,
                    &self.colliders[entity],
                    self.positions[n],
                    &self.colliders[n],
                );
                if let PairResult::Overlap(_) = res {
                    proof {
                        assert(found@.push(n as usize) + overlapping_triggers_from(
                            self.pos_seq(),
                            self.col_seq(),
                            entity as int,
                            n + 1,
                        ) =~= found@ + (seq![n as usize] + overlapping_triggers_from(
                            self.pos_seq(),
                            self.col_seq(),
                            entity as int,
                            n + 1,
                        )));
                    }
                    found.push(n);
                }
            }
            n += 1;
        }
        proof {
            assert(found@ + Seq::<usize>::empty() =~= found@);
        }
        found
    }
}

/// One full scan over the other entities, from id 0 upward.
fn scan_once(positions: &Vec<Vec2r>, colliders: &Vec<Polygon2D>, skip: usize, p1: Vec2r) -> (r:
    ScanStep)
    requires
        positions@.len() == colliders@.len(),
        forall|i: int| 0 <= i < positions@.len() ==> vec2_wf(#[trigger] positions@[i]),
        forall|i: int| 0 <= i < colliders@.len() ==> poly_wf(#[trigger] colliders@[i]),
        skip < positions@.len(),
        vec2_wf(p1),
    ensures
        r == scan_from(positions@, colliders@, skip as int, p1, 0),
{
    let mut n: usize = 0;
    while n < positions.len()
        invariant
            0 <= n <= positions@.len(),
            positions@.len() == colliders@.len(),
            forall|i: int| 0 <= i < positions@.len() ==> vec2_wf(#[trigger] positions@[i]),
            forall|i: int| 0 <= i < colliders@.len() ==> poly_wf(#[trigger] colliders@[i]),
            skip < positions@.len(),
            vec2_wf(p1),
            scan_from(positions@, colliders@, skip as int, p1, n as int) == scan_from(
                positions@,
                colliders@,
                skip as int,
                p1,
                0,
            ),
        decreases positions@.len() - n,
    {
        if n != skip {
            match test_pair(p1, &colliders[skip], positions[n], &colliders[n]) {
                PairResult::NoOverlap => {},
                PairResult::OutOfRange => {
                    return ScanStep::Halted;
                },
                PairResult::Overlap(v) => {
                    proof {
                        lemma_check_pair_overlap_wf(
                            p1,
                            colliders@[skip as int],
                            positions@[n as int],
                            colliders@[n as int],
                        );
                    }
                    match p1.checked_add(v) {
                        None => {
                            return ScanStep::Halted;
                        },
                        Some(q) => {
                            return ScanStep::Moved(q);
                        },
                    }
                },
            }
        }
        n += 1;
    }
    ScanStep::Clear
}

/// The budgeted resolution loop.
fn resolve(positions: &Vec<Vec2r>, colliders: &Vec<Polygon2D>, skip: usize, target: Vec2r) -> (r:
    ResolveOutcome)
    requires
        positions@.len() == colliders@.len(),
        forall|i: int| 0 <= i < positions@.len() ==> vec2_wf(#[trigger] positions@[i]),
        forall|i: int| 0 <= i < colliders@.len() ==> poly_wf(#[trigger] colliders@[i]),
        skip < positions@.len(),
        vec2_wf(target),
    ensures
        r == resolve_move(positions@, colliders@, skip as int, target),
{
    if colliders[skip].is_trigger {
        return ResolveOutcome::Resolved(target);
    }
    let mut p1 = target;
    let mut scans_left: u32 = RESOLVE_BUDGET;
    loop
        invariant
            positions@.len() == colliders@.len(),
            forall|i: int| 0 <= i < positions@.len() ==> vec2_wf(#[trigger] positions@[i]),
            forall|i: int| 0 <= i < colliders@.len() ==> poly_wf(#[trigger] colliders@[i]),
            skip < positions@.len(),
            !colliders@[skip as int].is_trigger,
            vec2_wf(p1),
            scans_left <= RESOLVE_BUDGET,
            iterate_scan(positions@, colliders@, skip as int, p1, scans_left as nat)
                == iterate_scan(
                positions@,
                colliders@,
                skip as int,
                target,
                RESOLVE_BUDGET as nat,
            ),
        decreases scans_left,
    {
        if scans_left == 0 {
            return ResolveOutcome::Rejected;
        }
        match scan_once(positions, colliders, skip, p1) {
            ScanStep::Clear => {
                return ResolveOutcome::Resolved(p1);
            },
            ScanStep::Halted => {
                return ResolveOutcome::Rejected;
            },
            ScanStep::Moved(q) => {
                proof {
                    lemma_scan_moved_wf(positions@, colliders@, skip as int, p1, 0);
                }
                p1 = q;
                scans_left -= 1;
            },
        }
    }
}

/// An overlap vector that `check_pair` reports is well formed.
proof fn lemma_check_pair_overlap_wf(p1: Vec2r, c1: Polygon2D, p2: Vec2r, c2: Polygon2D)
    requires
        vec2_wf(p1),
        vec2_wf(p2),
        poly_wf(c1),
        poly_wf(c2),
    ensures
        check_pair(p1, c1, p2, c2) matches PairResult::Overlap(v) ==> vec2_wf(v),
{
    if !c2.is_trigger {
        lemma_sat_from_wf(
            p1,
            c1.verts@,
            p2,
            c2.verts@,
            c1.normals@ + c2.normals@,
            0,
            None::<(crate::rat::Rat, Vec2r, crate::rat::Rat)>,
        );
    }
}

/// A corrected position that a scan reports is well formed.
proof fn lemma_scan_moved_wf(
    positions: Seq<Vec2r>,
    colliders: Seq<Polygon2D>,
    skip: int,
    p1: Vec2r,
    n: int,
)
    requires
        positions.len() == colliders.len(),
        forall|i: int| 0 <= i < positions.len() ==> vec2_wf(#[trigger] positions[i]),
        forall|i: int| 0 <= i < colliders.len() ==> poly_wf(#[trigger] colliders[i]),
        0 <= skip < positions.len(),
        vec2_wf(p1),
        0 <= n,
    ensures
        scan_from(positions, colliders, skip, p1, n) matches ScanStep::Moved(q) ==> vec2_wf(q),
    decreases positions.len() - n,
{
    if n < positions.len() {
        if n == skip {
            lemma_scan_moved_wf(positions, colliders, skip, p1, n + 1);
        } else {
            match check_pair(p1, colliders[skip], positions[n], colliders[n]) {
                PairResult::NoOverlap => {
                    lemma_scan_moved_wf(positions, colliders, skip, p1, n + 1);
                },
                PairResult::OutOfRange => {},
                PairResult::Overlap(v) => {
                    lemma_check_pair_overlap_wf(p1, colliders[skip], positions[n], colliders[n]);
                    if vec2_add(p1, v) is Some {
                        lemma_vec2_add_wf(p1, v);
                    }
                },
            }
        }
    }
}

/// A resolved position is well formed.
proof fn lemma_iterate_wf(
    positions: Seq<Vec2r>,
    colliders: Seq<Polygon2D>,
    skip: int,
    p1: Vec2r,
    scans_left: nat,
)
    requires
        positions.len() == colliders.len(),
        forall|i: int| 0 <= i < positions.len() ==> vec2_wf(#[trigger] positions[i]),
        forall|i: int| 0 <= i < colliders.len() ==> poly_wf(#[trigger] colliders[i]),
        0 <= skip < positions.len(),
        vec2_wf(p1),
    ensures
        iterate_scan(positions, colliders, skip, p1, scans_left) matches
            ResolveOutcome::Resolved(q) ==> vec2_wf(q),
    decreases scans_left,
{
    if scans_left > 0 {
        match scan_from(positions, colliders, skip, p1, 0) {
            ScanStep::Clear => {},
            ScanStep::Halted => {},
            ScanStep::Moved(q) => {
                lemma_scan_moved_wf(positions, colliders, skip, p1, 0);
                lemma_iterate_wf(positions, colliders, skip, q, (scans_left - 1) as nat);
            },
        }
    }
}

/// What the trigger query returns, as a membership test: exactly the other
/// entities whose collider is a trigger and overlaps the queried one at
/// the stored positions.
pub proof fn lemma_overlapping_triggers_membership(
    positions: Seq<Vec2r>,
    colliders: Seq<Polygon2D>,
    id: int,
    n: int,
)
    requires
        positions.len() == colliders.len(),
        positions.len() <= usize::MAX,
        0 <= n,
    ensures
        forall|x: usize|
            #[trigger] overlapping_triggers_from(positions, colliders, id, n).contains(x) <==> (n
                <= x as int && (x as int) < positions.len() && x as int != id && colliders[
                x as int
            ].is_trigger && sat_pair(
                positions[id],
                colliders[id],
                positions[x as int],
                colliders[x as int],
            ) is Overlap),
    decreases positions.len() - n,
{
    let cur = overlapping_triggers_from(positions, colliders, id, n);
    if n >= positions.len() {
        assert(forall|x: usize| !cur.contains(x));
    } else {
        lemma_overlapping_triggers_membership(positions, colliders, id, n + 1);
        let rest = overlapping_triggers_from(positions, colliders, id, n + 1);
        if n != id && colliders[n].is_trigger && sat_pair(
            positions[id],
            colliders[id],
            positions[n],
            colliders[n],
        ) is Overlap {
            assert(cur == seq![n as usize] + rest);
            assert forall|x: usize| cur.contains(x) <==> (x == n as usize || rest.contains(x)) by {
                if cur.contains(x) {
                    let j = choose|j: int| 0 <= j < cur.len() && cur[j] == x;
                    if j > 0 {
                        assert(rest[j - 1] == x);
                    }
                }
                if x == n as usize {
                    assert(cur[0] == x);
                }
                if rest.contains(x) {
                    let j = choose|j: int| 0 <= j < rest.len() && rest[j] == x;
                    assert(cur[j + 1] == x);
                }
            }
        }
    }
}

/// A clear scan means clear everywhere: no other solid collider overlaps
/// the mover at `p1`.
pub proof fn lemma_scan_clear(
    positions: Seq<Vec2r>,
    colliders: Seq<Polygon2D>,
    skip: int,
    p1: Vec2r,
    n: int,
)
    requires
        positions.len() == colliders.len(),
        0 <= n,
        scan_from(positions, colliders, skip, p1, n) is Clear,
    ensures
        forall|m: int|
            n <= m < positions.len() && m != skip ==> #[trigger] check_pair(
                p1,
                colliders[skip],
                positions[m],
                colliders[m],
            ) is NoOverlap,
    decreases positions.len() - n,
{
    if n < positions.len() {
        lemma_scan_clear(positions, colliders, skip, p1, n + 1);
    }
}

/// The scan loop only resolves at a position whose scan is clear.
pub proof fn lemma_iterate_resolved_clear(
    positions: Seq<Vec2r>,
    colliders: Seq<Polygon2D>,
    skip: int,
    p1: Vec2r,
    scans_left: nat,
)
    requires
        iterate_scan(positions, colliders, skip, p1, scans_left) is Resolved,
    ensures
        iterate_scan(positions, colliders, skip, p1, scans_left) matches
            ResolveOutcome::Resolved(q) ==> scan_from(positions, colliders, skip, q, 0)
            is Clear,
    decreases scans_left,
{
    if scans_left > 0 {
        if let ScanStep::Moved(q) = scan_from(positions, colliders, skip, p1, 0) {
            lemma_iterate_resolved_clear(positions, colliders, skip, q, (scans_left - 1) as nat);
        }
    }
}

/// An applied move of a solid entity ends free of overlap: at its final
/// position the mover overlaps no other solid collider, so a mover pushed
/// out of a wall comes to rest exactly tangent to it.
pub proof fn lemma_applied_move_clear(
    positions: Seq<Vec2r>,
    colliders: Seq<Polygon2D>,
    id: int,
    target: Vec2r,
)
    requires
        positions.len() == colliders.len(),
        0 <= id < positions.len(),
        !colliders[id].is_trigger,
        resolve_move(positions, colliders, id, target) is Resolved,
    ensures
        resolve_move(positions, colliders, id, target) matches ResolveOutcome::Resolved(q) ==> {
            &&& move_to_spec(positions, colliders, id, target) == positions.update(id, q)
            &&& forall|m: int|
                0 <= m < positions.len() && m != id ==> #[trigger] check_pair(
                    q,
                    colliders[id],
                    positions[m],
                    colliders[m],
                ) is NoOverlap
        },
{
    lemma_iterate_resolved_clear(positions, colliders, id, target, RESOLVE_BUDGET as nat);
    if let ResolveOutcome::Resolved(q) = resolve_move(positions, colliders, id, target) {
        lemma_scan_clear(positions, colliders, id, q, 0);
    }
}

/// A trigger mover is never blocked: its stored position becomes exactly
/// the requested target, whatever it overlaps.
pub proof fn lemma_trigger_mover_lands_on_target(
    positions: Seq<Vec2r>,
    colliders: Seq<Polygon2D>,
    id: int,
    target: Vec2r,
)
    requires
        0 <= id < positions.len(),
        colliders[id].is_trigger,
    ensures
        move_to_spec(positions, colliders, id, target) == positions.update(id, target),
{
}

/// Scans see no trigger: when every other collider is a trigger, the first
/// scan is already clear.
pub proof fn lemma_scan_skips_triggers(
    positions: Seq<Vec2r>,
    colliders: Seq<Polygon2D>,
    skip: int,
    p1: Vec2r,
    n: int,
)
    requires
        positions.len() == colliders.len(),
        0 <= n,
        forall|m: int| 0 <= m < colliders.len() && m != skip ==> (#[trigger] colliders[m]).is_trigger,
    ensures
        scan_from(positions, colliders, skip, p1, n) is Clear,
    decreases positions.len() - n,
{
    if n < positions.len() {
        lemma_scan_skips_triggers(positions, colliders, skip, p1, n + 1);
    }
}

/// A trigger collider never alters a mover's resolved position: a solid
/// entity moving where only triggers stand lands exactly on its target.
pub proof fn lemma_triggers_never_block(
    positions: Seq<Vec2r>,
    colliders: Seq<Polygon2D>,
    id: int,
    target: Vec2r,
)
    requires
        positions.len() == colliders.len(),
        0 <= id < positions.len(),
        forall|m: int| 0 <= m < colliders.len() && m != id ==> (#[trigger] colliders[m]).is_trigger,
    ensures
        move_to_spec(positions, colliders, id, target) == positions.update(id, target),
{
    if !colliders[id].is_trigger {
        lemma_scan_skips_triggers(positions, colliders, id, target, 0);
    }
}

/// Two worlds that agree on the mover and on every solid collider scan
/// alike: what the trigger entries hold never matters.
pub proof fn lemma_scan_ignores_triggers(
    pos1: Seq<Vec2r>,
    col1: Seq<Polygon2D>,
    pos2: Seq<Vec2r>,
    col2: Seq<Polygon2D>,
    skip: int,
    p1: Vec2r,
    n: int,
)
    requires
        pos1.len() == col1.len(),
        pos2.len() == col2.len(),
        pos1.len() == pos2.len(),
        0 <= skip < pos1.len(),
        col1[skip] == col2[skip],
        forall|m: int|
            0 <= m < col1.len() && m != skip ==> ((#[trigger] col1[m]).is_trigger
                <==> col2[m].is_trigger),
        forall|m: int|
            0 <= m < col1.len() && m != skip && !(#[trigger] col1[m]).is_trigger ==> col1[m]
                == col2[m] && pos1[m] == pos2[m],
        0 <= n,
    ensures
        scan_from(pos1, col1, skip, p1, n) == scan_from(pos2, col2, skip, p1, n),
    decreases pos1.len() - n,
{
    if n < pos1.len() {
        lemma_scan_ignores_triggers(pos1, col1, pos2, col2, skip, p1, n + 1);
    }
}

/// Neither does the scan loop see triggers.
pub proof fn lemma_iterate_ignores_triggers(
    pos1: Seq<Vec2r>,
    col1: Seq<Polygon2D>,
    pos2: Seq<Vec2r>,
    col2: Seq<Polygon2D>,
    skip: int,
    p1: Vec2r,
    scans_left: nat,
)
    requires
        pos1.len() == col1.len(),
        pos2.len() == col2.len(),
        pos1.len() == pos2.len(),
        0 <= skip < pos1.len(),
        col1[skip] == col2[skip],
        forall|m: int|
            0 <= m < col1.len() && m != skip ==> ((#[trigger] col1[m]).is_trigger
                <==> col2[m].is_trigger),
        forall|m: int|
            0 <= m < col1.len() && m != skip && !(#[trigger] col1[m]).is_trigger ==> col1[m]
                == col2[m] && pos1[m] == pos2[m],
    ensures
        iterate_scan(pos1, col1, skip, p1, scans_left) == iterate_scan(
            pos2,
            col2,
            skip,
            p1,
            scans_left,
        ),
    decreases scans_left,
{
    if scans_left > 0 {
        lemma_scan_ignores_triggers(pos1, col1, pos2, col2, skip, p1, 0);
        if let ScanStep::Moved(q) = scan_from(pos1, col1, skip, p1, 0) {
            lemma_iterate_ignores_triggers(
                pos1,
                col1,
                pos2,
                col2,
                skip,
                q,
                (scans_left - 1) as nat,
            );
        }
    }
}

/// Trigger colliders never alter a mover's resolved position: two worlds
/// that agree on the mover and on every solid collider — the triggers may
/// differ arbitrarily in shape, position and number among the remaining
/// slots — resolve the same move to the same place.
pub proof fn lemma_triggers_do_not_affect_resolution(
    pos1: Seq<Vec2r>,
    col1: Seq<Polygon2D>,
    pos2: Seq<Vec2r>,
    col2: Seq<Polygon2D>,
    skip: int,
    target: Vec2r,
)
    requires
        pos1.len() == col1.len(),
        pos2.len() == col2.len(),
        pos1.len() == pos2.len(),
        0 <= skip < pos1.len(),
        col1[skip] == col2[skip],
        forall|m: int|
            0 <= m < col1.len() && m != skip ==> ((#[trigger] col1[m]).is_trigger
                <==> col2[m].is_trigger),
        forall|m: int|
            0 <= m < col1.len() && m != skip && !(#[trigger] col1[m]).is_trigger ==> col1[m]
                == col2[m] && pos1[m] == pos2[m],
    ensures
        resolve_move(pos1, col1, skip, target) == resolve_move(pos2, col2, skip, target),
{
    lemma_iterate_ignores_triggers(pos1, col1, pos2, col2, skip, target, RESOLVE_BUDGET as nat);
}

/// A scan never reads the mover's own stored position: tables that agree
/// everywhere but at `skip` scan alike.
pub proof fn lemma_scan_frame(
    pos1: Seq<Vec2r>,
    pos2: Seq<Vec2r>,
    colliders: Seq<Polygon2D>,
    skip: int,
    p1: Vec2r,
    n: int,
)
    requires
        pos1.len() == pos2.len(),
        forall|m: int| 0 <= m < pos1.len() && m != skip ==> pos1[m] == #[trigger] pos2[m],
        0 <= n,
    ensures
        scan_from(pos1, colliders, skip, p1, n) == scan_from(pos2, colliders, skip, p1, n),
    decreases pos1.len() - n,
{
    if n < pos1.len() {
        lemma_scan_frame(pos1, pos2, colliders, skip, p1, n + 1);
    }
}

/// Neither does the scan loop.
pub proof fn lemma_iterate_frame(
    pos1: Seq<Vec2r>,
    pos2: Seq<Vec2r>,
    colliders: Seq<Polygon2D>,
    skip: int,
    p1: Vec2r,
    scans_left: nat,
)
    requires
        pos1.len() == pos2.len(),
        forall|m: int| 0 <= m < pos1.len() && m != skip ==> pos1[m] == #[trigger] pos2[m],
    ensures
        iterate_scan(pos1, colliders, skip, p1, scans_left) == iterate_scan(
            pos2,
            colliders,
            skip,
            p1,
            scans_left,
        ),
    decreases scans_left,
{
    if scans_left > 0 {
        lemma_scan_frame(pos1, pos2, colliders, skip, p1, 0);
        if let ScanStep::Moved(q) = scan_from(pos1, colliders, skip, p1, 0) {
            lemma_iterate_frame(pos1, pos2, colliders, skip, q, (scans_left - 1) as nat);
        }
    }
}

/// Where a move ends depends only on the target and the other entities'
/// positions, never on the mover's own stored position.
pub proof fn lemma_resolve_frame(
    pos1: Seq<Vec2r>,
    pos2: Seq<Vec2r>,
    colliders: Seq<Polygon2D>,
    skip: int,
    target: Vec2r,
)
    requires
        pos1.len() == pos2.len(),
        forall|m: int| 0 <= m < pos1.len() && m != skip ==> pos1[m] == #[trigger] pos2[m],
    ensures
        resolve_move(pos1, colliders, skip, target) == resolve_move(pos2, colliders, skip, target),
{
    lemma_iterate_frame(pos1, pos2, colliders, skip, target, RESOLVE_BUDGET as nat);
}

/// Moving an entity to the same target twice in a row, with nothing else
/// moving in between, leaves it exactly where the first move put it.
pub proof fn lemma_move_idempotent(
    positions: Seq<Vec2r>,
    colliders: Seq<Polygon2D>,
    id: int,
    target: Vec2r,
)
    requires
        positions.len() == colliders.len(),
        0 <= id < positions.len(),
    ensures
        move_to_spec(
            move_to_spec(positions, colliders, id, target),
            colliders,
            id,
            target,
        ) == move_to_spec(positions, colliders, id, target),
{
    let once = move_to_spec(positions, colliders, id, target);
    match resolve_move(positions, colliders, id, target) {
        ResolveOutcome::Rejected => {
            assert(once == positions);
        },
        ResolveOutcome::Resolved(q) => {
            assert(once == positions.update(id, q));
            lemma_resolve_frame(positions, once, colliders, id, target);
            assert(resolve_move(once, colliders, id, target) == ResolveOutcome::Resolved(q));
            assert(once.update(id, q) =~= once);
        },
    }
}

/// The engine is a pure function of its inputs: equal tables and an equal
/// move give equal tables back, so replaying a session reproduces every
/// position exactly.
pub proof fn lemma_move_deterministic(
    pos1: Seq<Vec2r>,
    col1: Seq<Polygon2D>,
    pos2: Seq<Vec2r>,
    col2: Seq<Polygon2D>,
    id: int,
    target: Vec2r,
)
    requires
        pos1 == pos2,
        col1 == col2,
    ensures
        move_to_spec(pos1, col1, id, target) == move_to_spec(pos2, col2, id, target),
{
}

/// A move that exhausts its scan budget, or meets a value outside the
/// machine range, is abandoned whole: the table is unchanged, never
/// partially corrected.
pub proof fn lemma_rejected_move_unchanged(
    positions: Seq<Vec2r>,
    colliders: Seq<Polygon2D>,
    id: int,
    target: Vec2r,
)
    requires
        resolve_move(positions, colliders, id, target) is Rejected,
    ensures
        move_to_spec(positions, colliders, id, target) == positions,
{
}

/// The position a move resolves to is well formed.
proof fn lemma_resolve_wf(
    positions: Seq<Vec2r>,
    colliders: Seq<Polygon2D>,
    skip: int,
    target: Vec2r,
)
    requires
        positions.len() == colliders.len(),
        forall|i: int| 0 <= i < positions.len() ==> vec2_wf(#[trigger] positions[i]),
        forall|i: int| 0 <= i < colliders.len() ==> poly_wf(#[trigger] colliders[i]),
        0 <= skip < positions.len(),
        vec2_wf(target),
    ensures
        resolve_move(positions, colliders, skip, target) matches ResolveOutcome::Resolved(q)
            ==> vec2_wf(q),
{
    lemma_iterate_wf(positions, colliders, skip, target, RESOLVE_BUDGET as nat);
}

} // verus!
