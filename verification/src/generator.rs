//! The entity identifier generator: unique, comparable identifiers from
//! a monotonic counter.

use vstd::prelude::*;

use crate::entity::Entity;

verus! {

/// The entity identifier generator: a monotonically increasing counter,
/// starting at 1, owned by the registry and exposed only through its
/// allocation operation.
///
/// Each identifier it returns equals the counter at the moment of the call
/// and strictly exceeds every identifier it has returned before;
/// [`IdGenerator::ever_issued`] records them all. The generator is a
/// value, not a global: a process that wants identifiers unique across all
/// its registries creates one generator and threads it through them, each
/// registry taking it over with `World::with_generator` and handing it on
/// with `World::into_generator`. Two generators created independently each
/// count from 1 and repeat one another's identifiers. The only failure
/// mode is counter exhaustion at `u64::MAX`, which the single precondition
/// of [`IdGenerator::fresh`] rules out.
pub struct IdGenerator {
    next_id: u64,
    issued: Ghost<Set<Entity>>,
}

impl IdGenerator {
    /// Every entity this generator has ever issued.
    pub closed spec fn ever_issued(self) -> Set<Entity> {
        self.issued@
    }

    /// The identifier value the generator will issue next.
    pub closed spec fn counter(self) -> u64 {
        self.next_id
    }

    /// Internal well-formedness: the counter started at 1, and every issued
    /// identifier is below it, so the next identifier is fresh and largest.
    pub closed spec fn wf(self) -> bool {
        &&& 1 <= self.next_id
        &&& forall|e: Entity| self.issued@.contains(e) ==> e.id < self.next_id
    }

    /// Everything a well-formed generator has issued lies below its counter.
    pub proof fn lemma_issued_below_counter(self)
        requires
            self.wf(),
        ensures
            forall|e: Entity| self.ever_issued().contains(e) ==> e@ < self.counter(),
    {
        assert forall|e: Entity| self.ever_issued().contains(e) implies e@ < self.counter() by {
            e.lemma_view_is_id();
        }
    }

    /// A fresh generator: nothing issued, counter at 1.
    pub fn new() -> (g: IdGenerator)
        ensures
            g.wf(),
            g.ever_issued() == Set::<Entity>::empty(),
            g.counter() == 1,
    {
        IdGenerator { next_id: 1, issued: Ghost(Set::empty()) }
    }

    /// Issues the next identifier: the current counter value, distinct from
    /// and greater than everything this generator issued before, and at
    /// least 1.
    pub fn fresh(&mut self) -> (e: Entity)
        requires
            old(self).wf(),
            old(self).counter() < u64::MAX,
        ensures
            final(self).wf(),
            e@ == old(self).counter(),
            1 <= e@,
            !old(self).ever_issued().contains(e),
            forall|prev: Entity| old(self).ever_issued().contains(prev) ==> prev@ < e@,
            final(self).ever_issued() == old(self).ever_issued().insert(e),
            final(self).counter() == old(self).counter() + 1,
    {
        let e = Entity { id: self.next_id };
        self.next_id = self.next_id + 1;
        proof {
            self.issued@ = self.issued@.insert(e);
            e.lemma_view_is_id();
            assert forall|prev: Entity| old(self).ever_issued().contains(prev) implies prev@
                < e@ by {
                prev.lemma_view_is_id();
            }
        }
        e
    }
}

} // verus!
