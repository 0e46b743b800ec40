//! Per-trigger overlap bookkeeping.
//!
//! A `TriggerOverlapSet` belongs to one trigger collider and records which
//! entities currently overlap it: a duplicate-free, order-irrelevant set of
//! entity ids. `enter` and `exit` report whether an edge-triggered enter or
//! exit notification should fire, so the host raises notifications only on
//! actual changes. The world's overlap query never touches this
//! bookkeeping; comparing one frame's overlap list with the last frame's
//! and calling `enter`/`exit` accordingly is the host's job.

use vstd::prelude::*;
use vstd::seq_lib::lemma_seq_contains_after_push;

verus! {

/// The set of entity ids currently overlapping one trigger.
pub struct TriggerOverlapSet {
    entities: Vec<usize>,
}

impl TriggerOverlapSet {
    /// The recorded ids, in insertion order.
    pub closed spec fn entries(self) -> Seq<usize> {
        self.entities@
    }

    /// No id is recorded twice.
    pub open spec fn wf(self) -> bool {
        self.entries().no_duplicates()
    }

    /// The recorded ids as a set.
    pub open spec fn overlapping(self) -> Set<usize> {
        self.entries().to_set()
    }

    /// An empty record: nothing overlaps yet.
    pub fn new() -> (r: TriggerOverlapSet)
        ensures
            r.wf(),
            r.overlapping() == Set::<usize>::empty(),
    {
        let r = TriggerOverlapSet { entities: Vec::new() };
        proof {
            assert(r.overlapping() =~= Set::<usize>::empty());
        }
        r
    }

    /// The index at which `entity` is recorded, if it is.
    fn index_of(&self, entity: usize) -> (r: Option<usize>)
        ensures
            match r {
                Some(i) => i < self.entries().len() && self.entries()[i as int] == entity,
                None => !self.entries().contains(entity),
            },
    {
        let mut i: usize = 0;
        while i < self.entities.len()
            invariant
                0 <= i <= self.entries().len(),
                forall|j: int| 0 <= j < i ==> self.entries()[j] != entity,
            decreases self.entries().len() - i,
        {
            if self.entities[i] == entity {
                return Some(i);
            }
            i += 1;
        }
        None
    }

    /// Whether `entity` is currently recorded as overlapping.
    pub fn contains(&self, entity: usize) -> (r: bool)
        ensures
            r == self.overlapping().contains(entity),
    {
        self.index_of(entity).is_some()
    }

    /// Records that `entity` overlaps. Reports `true` — fire the enter
    /// notification — exactly when it was not recorded before; recording
    /// an already-recorded entity changes nothing.
    pub fn enter(&mut self, entity: usize) -> (fired: bool)
        requires
            old(self).wf(),
        ensures
            final(self).wf(),
            fired == !old(self).overlapping().contains(entity),
            final(self).overlapping() == old(self).overlapping().insert(entity),
    {
        match self.index_of(entity) {
            Some(_) => {
                proof {
                    assert(self.overlapping() =~= self.overlapping().insert(entity));
                }
                false
            },
            None => {
                let ghost before = self.entities@;
                self.entities.push(entity);
                proof {
                    assert forall|x: usize|
                        self.entries().contains(x) <==> (before.contains(x) || x == entity) by {
                        lemma_seq_contains_after_push(before, entity, x);
                    }
                    assert(self.overlapping() =~= before.to_set().insert(entity));
                }
                true
            },
        }
    }

    /// Removes `entity` from the record. Reports `true` — fire the exit
    /// notification — exactly when it was recorded; removing an absent
    /// entity changes nothing.
    pub fn exit(&mut self, entity: usize) -> (fired: bool)
        requires
            old(self).wf(),
        ensures
            final(self).wf(),
            fired == old(self).overlapping().contains(entity),
            final(self).overlapping() == old(self).overlapping().remove(entity),
    {
        match self.index_of(entity) {
            None => {
                proof {
                    assert(self.overlapping() =~= self.overlapping().remove(entity));
                }
                false
            },
            Some(i) => {
                let ghost before = self.entities@;
                self.entities.remove(i);
                proof {
                    before.remove_ensures(i as int);
                    lemma_remove_unique_value(before, i as int);
                    assert(self.overlapping() =~= before.to_set().remove(entity));
                }
                true
            },
        }
    }

    /// The current overlap set as a list, duplicate-free, in insertion
    /// order.
    pub fn get_overlapping_entity_list(&self) -> (r: Vec<usize>)
        ensures
            r@ == self.entries(),
    {
        let mut out: Vec<usize> = Vec::new();
        let mut i: usize = 0;
        while i < self.entities.len()
            invariant
                0 <= i <= self.entries().len(),
                out@ == self.entries().subrange(0, i as int),
            decreases self.entries().len() - i,
        {
            out.push(self.entities[i]);
            proof {
                assert(out@ =~= self.entries().subrange(0, i + 1));
            }
            i += 1;
        }
        proof {
            assert(self.entries().subrange(0, self.entries().len() as int) =~= self.entries());
        }
        out
    }
}

/// Removing the one index where a value sits in a duplicate-free sequence
/// removes exactly that value, keeps every other, and keeps the sequence
/// duplicate-free.
proof fn lemma_remove_unique_value(s: Seq<usize>, i: int)
    requires
        s.no_duplicates(),
        0 <= i < s.len(),
    ensures
        s.remove(i).no_duplicates(),
        forall|x: usize| s.remove(i).contains(x) <==> (s.contains(x) && x != s[i]),
{
    s.remove_ensures(i);
    let t = s.remove(i);
    assert forall|x: usize| t.contains(x) <==> (s.contains(x) && x != s[i]) by {
        if t.contains(x) {
            let j = choose|j: int| 0 <= j < t.len() && t[j] == x;
            if j < i {
                assert(s[j] == x);
            } else {
                assert(s[j + 1] == x);
            }
        }
        if s.contains(x) && x != s[i] {
            let j = choose|j: int| 0 <= j < s.len() && s[j] == x;
            if j < i {
                assert(t[j] == x);
            } else {
                assert(t[j - 1] == x);
            }
        }
    }
    assert forall|a: int, b: int|
        0 <= a < t.len() && 0 <= b < t.len() && a != b implies t[a] != t[b] by {
        let sa: int = if a < i {
            a
        } else {
            a + 1
        };
        let sb: int = if b < i {
            b
        } else {
            b + 1
        };
        assert(t[a] == s[sa]);
        assert(t[b] == s[sb]);
    }
}

} // verus!
