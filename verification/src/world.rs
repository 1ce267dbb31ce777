//! The component registry: live entities, their typed component values,
//! and set-intersection queries over them.

use vstd::map::*;
use vstd::prelude::*;

use crate::entity::Entity;
use crate::generator::IdGenerator;
use crate::query::Query;

verus! {

/// One stored record: the value `val` attached to entity `ent` under the
/// component-type key `key`.
struct Slot<C> {
    key: u64,
    ent: Entity,
    val: C,
}

/// The registry: owns the set of live entities and, keyed by
/// (component-type key, entity), every attached component value.
///
/// The abstract state is
/// - [`World::live`], the set of live entities,
/// - [`World::table`], the map from (type key, entity) to the stored value,
/// - [`World::ever_issued`], every entity this registry has ever handed out.
pub struct World<C> {
    generator: IdGenerator,
    entities: Vec<Entity>,
    slots: Vec<Slot<C>>,
}

/// The component table described by a sequence of slots; later slots win.
spec fn table_of<C>(slots: Seq<Slot<C>>) -> Map<(u64, Entity), C>
    decreases slots.len(),
{
    if slots.len() == 0 {
        Map::empty()
    } else {
        table_of(slots.drop_last()).insert(
            (slots.last().key, slots.last().ent),
            slots.last().val,
        )
    }
}

/// No two slots carry the same (type key, entity) pair.
spec fn slots_unique<C>(slots: Seq<Slot<C>>) -> bool {
    forall|i: int, j: int|
        0 <= i < slots.len() && 0 <= j < slots.len() && i != j ==> !(slots[i].key == slots[j].key
            && slots[i].ent == slots[j].ent)
}

/// `t` with every entry of entity `e` purged, whatever its type key.
pub open spec fn strip_entity<C>(t: Map<(u64, Entity), C>, e: Entity) -> Map<(u64, Entity), C> {
    Map::new(|p: (u64, Entity)| t.dom().contains(p) && p.1 != e, |p: (u64, Entity)| t[p])
}

proof fn lemma_table_contains<C>(slots: Seq<Slot<C>>, key: u64, e: Entity)
    ensures
        table_of(slots).dom().contains((key, e)) <==> exists|i: int|
            0 <= i < slots.len() && slots[i].key == key && slots[i].ent == e,
    decreases slots.len(),
{
    if slots.len() == 0 {
    } else {
        lemma_table_contains(slots.drop_last(), key, e);
        if table_of(slots).dom().contains((key, e)) {
            if (slots.last().key, slots.last().ent) == (key, e) {
                assert(slots[slots.len() - 1].key == key && slots[slots.len() - 1].ent == e);
            } else {
                let i = choose|i: int|
                    0 <= i < slots.drop_last().len() && slots.drop_last()[i].key == key
                        && slots.drop_last()[i].ent == e;
                assert(slots[i].key == key && slots[i].ent == e);
            }
        }
        if exists|i: int| 0 <= i < slots.len() && slots[i].key == key && slots[i].ent == e {
            let i = choose|i: int|
                0 <= i < slots.len() && slots[i].key == key && slots[i].ent == e;
            if i == slots.len() - 1 {
                assert(table_of(slots).dom().contains((key, e)));
            } else {
                assert(slots.drop_last()[i].key == key && slots.drop_last()[i].ent == e);
            }
        }
    }
}

proof fn lemma_table_lookup<C>(slots: Seq<Slot<C>>, i: int)
    requires
        slots_unique(slots),
        0 <= i < slots.len(),
    ensures
        table_of(slots).dom().contains((slots[i].key, slots[i].ent)),
        table_of(slots)[(slots[i].key, slots[i].ent)] == slots[i].val,
    decreases slots.len(),
{
    if i < slots.len() - 1 {
        lemma_table_lookup(slots.drop_last(), i);
        assert(slots.drop_last()[i] == slots[i]);
        assert(!(slots.last().key == slots[i].key && slots.last().ent == slots[i].ent));
    }
}

proof fn lemma_table_push<C>(slots: Seq<Slot<C>>, s: Slot<C>)
    ensures
        table_of(slots.push(s)) == table_of(slots).insert((s.key, s.ent), s.val),
{
    assert(slots.push(s).drop_last() =~= slots);
    assert(slots.push(s).last() == s);
}

proof fn lemma_table_update<C>(slots: Seq<Slot<C>>, i: int, s: Slot<C>)
    requires
        slots_unique(slots),
        0 <= i < slots.len(),
        s.key == slots[i].key,
        s.ent == slots[i].ent,
    ensures
        table_of(slots.update(i, s)) == table_of(slots).insert((s.key, s.ent), s.val),
    decreases slots.len(),
{
    let p = (s.key, s.ent);
    if i == slots.len() - 1 {
        assert(slots.update(i, s).drop_last() =~= slots.drop_last());
        assert(slots.update(i, s).last() == s);
        assert(table_of(slots.update(i, s)) =~= table_of(slots).insert(p, s.val));
    } else {
        lemma_table_update(slots.drop_last(), i, s);
        assert(slots.update(i, s).drop_last() =~= slots.drop_last().update(i, s));
        assert(slots.update(i, s).last() == slots.last());
        assert(!(slots.last().key == s.key && slots.last().ent == s.ent));
        assert(table_of(slots.update(i, s)) =~= table_of(slots).insert(p, s.val));
    }
}

proof fn lemma_table_remove<C>(slots: Seq<Slot<C>>, i: int)
    requires
        slots_unique(slots),
        0 <= i < slots.len(),
    ensures
        table_of(slots.remove(i)) == table_of(slots).remove((slots[i].key, slots[i].ent)),
    decreases slots.len(),
{
    let p = (slots[i].key, slots[i].ent);
    if i == slots.len() - 1 {
        assert(slots.remove(i) =~= slots.drop_last());
        lemma_table_contains(slots.drop_last(), slots[i].key, slots[i].ent);
        assert(forall|j: int|
            0 <= j < slots.drop_last().len() ==> slots.drop_last()[j] == slots[j]);
        assert(!table_of(slots.drop_last()).dom().contains(p));
        assert(table_of(slots.remove(i)) =~= table_of(slots).remove(p));
    } else {
        lemma_table_remove(slots.drop_last(), i);
        assert(slots.remove(i).drop_last() =~= slots.drop_last().remove(i));
        assert(slots.remove(i).last() == slots.last());
        assert(!(slots.last().key == slots[i].key && slots.last().ent == slots[i].ent));
        assert(table_of(slots.remove(i)) =~= table_of(slots).remove(p));
    }
}

proof fn lemma_unique_remove<C>(slots: Seq<Slot<C>>, i: int)
    requires
        slots_unique(slots),
        0 <= i < slots.len(),
    ensures
        slots_unique(slots.remove(i)),
{
    let r = slots.remove(i);
    assert forall|a: int, b: int|
        0 <= a < r.len() && 0 <= b < r.len() && a != b implies !(r[a].key == r[b].key && r[a].ent
        == r[b].ent) by {
        let a0 = if a < i { a } else { a + 1 };
        let b0 = if b < i { b } else { b + 1 };
        assert(r[a] == slots[a0]);
        assert(r[b] == slots[b0]);
    }
}

proof fn lemma_unique_seq_remove<A>(s: Seq<A>, i: int)
    requires
        s.no_duplicates(),
        0 <= i < s.len(),
    ensures
        s.remove(i).no_duplicates(),
        s.remove(i).to_set() == s.to_set().remove(s[i]),
{
    let r = s.remove(i);
    assert forall|a: int, b: int| 0 <= a < r.len() && 0 <= b < r.len() && a != b implies r[a]
        != r[b] by {
        let a0 = if a < i { a } else { a + 1 };
        let b0 = if b < i { b } else { b + 1 };
        assert(r[a] == s[a0]);
        assert(r[b] == s[b0]);
    }
    assert forall|x: A| r.to_set().contains(x) implies s.to_set().remove(s[i]).contains(x) by {
        let j = choose|j: int| 0 <= j < r.len() && r[j] == x;
        let j0 = if j < i { j } else { j + 1 };
        assert(s[j0] == x);
    }
    assert forall|x: A| s.to_set().remove(s[i]).contains(x) implies r.to_set().contains(x) by {
        let j0 = choose|j0: int| 0 <= j0 < s.len() && s[j0] == x;
        let j = if j0 < i { j0 } else { j0 - 1 };
        assert(r[j] == x);
    }
    assert(r.to_set() =~= s.to_set().remove(s[i]));
}

impl<C> World<C> {
    /// The set of live entities.
    pub closed spec fn live(self) -> Set<Entity> {
        self.entities@.to_set()
    }

    /// The component table: every attached value, keyed by (type key, entity).
    pub closed spec fn table(self) -> Map<(u64, Entity), C> {
        table_of(self.slots@)
    }

    /// Every entity this registry has ever issued, live or since removed.
    pub closed spec fn ever_issued(self) -> Set<Entity> {
        self.generator.ever_issued()
    }

    /// The value the identifier counter will issue next.
    pub closed spec fn counter(self) -> u64 {
        self.generator.counter()
    }

    /// Whether `e` currently carries a component of type `key`.
    pub open spec fn has(self, key: u64, e: Entity) -> bool {
        self.table().dom().contains((key, e))
    }

    /// The component of type `key` attached to `e`, if any.
    pub open spec fn component(self, key: u64, e: Entity) -> Option<C> {
        if self.has(key, e) {
            Some(self.table()[(key, e)])
        } else {
            None
        }
    }

    /// Whether `e` carries a component of every type in `required`.
    pub open spec fn all_required(self, required: Set<u64>, e: Entity) -> bool {
        forall|k: u64| #[trigger] required.contains(k) ==> self.has(k, e)
    }

    /// Whether `e` belongs in the result of a query requiring `required`:
    /// it is live, and its component types form a superset of `required`.
    pub open spec fn satisfies(self, required: Set<u64>, e: Entity) -> bool {
        self.live().contains(e) && self.all_required(required, e)
    }

    /// Internal well-formedness: live entities and slot keys are duplicate
    /// free, every live entity was issued, and every issued identifier is
    /// below the counter.
    pub closed spec fn wf(self) -> bool {
        &&& self.entities@.no_duplicates()
        &&& slots_unique(self.slots@)
        &&& self.generator.wf()
        &&& forall|e: Entity| self.live().contains(e) ==> self.generator.ever_issued().contains(e)
    }

    /// Everything a well-formed registry has ever issued lies below its
    /// identifier counter.
    pub proof fn lemma_issued_below_counter(self)
        requires
            self.wf(),
        ensures
            forall|e: Entity| self.ever_issued().contains(e) ==> e@ < self.counter(),
    {
        self.generator.lemma_issued_below_counter();
    }

    /// A fresh registry starting a new identifier lineage: no entities, no
    /// components, counter at 1. For identifiers unique across several
    /// registries, build the later ones with [`World::with_generator`]
    /// instead of starting a second lineage here.
    pub fn new() -> (w: World<C>)
        ensures
            w.wf(),
            w.live() == Set::<Entity>::empty(),
            w.table() == Map::<(u64, Entity), C>::empty(),
            w.ever_issued() == Set::<Entity>::empty(),
            w.counter() == 1,
    {
        World::with_generator(IdGenerator::new())
    }

    /// A registry that continues an existing identifier lineage: it starts
    /// with no entities and no components, but issues identifiers from
    /// `generator`, so they stay distinct from — and above — everything the
    /// generator, and every registry that held it before, ever issued.
    /// Building every registry of a process from one generator, handed on
    /// with [`World::into_generator`], makes identifiers unique across the
    /// whole process.
    pub fn with_generator(generator: IdGenerator) -> (w: World<C>)
        requires
            generator.wf(),
        ensures
            w.wf(),
            w.live() == Set::<Entity>::empty(),
            w.table() == Map::<(u64, Entity), C>::empty(),
            w.ever_issued() == generator.ever_issued(),
            w.counter() == generator.counter(),
    {
        let w = World { generator, entities: Vec::new(), slots: Vec::new() };
        proof {
            assert(w.live() =~= Set::<Entity>::empty());
            assert(w.table() =~= Map::<(u64, Entity), C>::empty());
        }
        w
    }

    /// Ends this registry and hands its identifier lineage on: the returned
    /// generator has issued exactly what this registry had, so the next
    /// registry built from it keeps every identifier fresh.
    pub fn into_generator(self) -> (g: IdGenerator)
        requires
            self.wf(),
        ensures
            g.wf(),
            g.ever_issued() == self.ever_issued(),
            g.counter() == self.counter(),
    {
        let World { generator, entities: _, slots: _ } = self;
        generator
    }

    /// Allocates a fresh identifier, registers it live, and returns it.
    /// The identifier is the registry's counter value, at least 1, and
    /// strictly greater than every identifier issued before in this
    /// registry's lineage — process-wide, when every registry is built from
    /// the one generator the process created. The single precondition is
    /// that the monotonic counter has room left, which exhausts only after
    /// `u64::MAX - 1` allocations.
    pub fn new_entity(&mut self) -> (e: Entity)
        requires
            old(self).wf(),
            old(self).counter() < u64::MAX,
        ensures
            final(self).wf(),
            e@ == old(self).counter(),
            1 <= e@,
            !old(self).ever_issued().contains(e),
            !old(self).live().contains(e),
            forall|prev: Entity| old(self).ever_issued().contains(prev) ==> prev@ < e@,
            final(self).live() == old(self).live().insert(e),
            final(self).ever_issued() == old(self).ever_issued().insert(e),
            final(self).table() == old(self).table(),
            final(self).counter() == old(self).counter() + 1,
    {
        let e = self.generator.fresh();
        let ghost pre = self.entities@;
        self.entities.push(e);
        proof {
            assert forall|i: int| 0 <= i < pre.len() implies pre[i] != e by {
                assert(pre == old(self).entities@);
                assert(old(self).live().contains(pre[i]));
                assert(old(self).generator.ever_issued().contains(pre[i]));
            }
            assert(self.entities@ == pre.push(e));
            assert(self.live() =~= old(self).live().insert(e)) by {
                broadcast use vstd::seq_lib::lemma_seq_contains_after_push;
            }
            assert forall|x: Entity| self.live().contains(x)
                implies self.generator.ever_issued().contains(x) by {
                broadcast use vstd::seq_lib::lemma_seq_contains_after_push;
            }
        }
        e
    }

    /// Looks for the slot holding (`key`, `e`).
    fn find_slot(&self, key: u64, e: Entity) -> (r: Option<usize>)
        ensures
            match r {
                Some(i) => i < self.slots@.len() && self.slots@[i as int].key == key
                    && self.slots@[i as int].ent == e,
                None => forall|i: int|
                    0 <= i < self.slots@.len() ==> !(self.slots@[i].key == key
                        && self.slots@[i].ent == e),
            },
    {
        let mut i: usize = 0;
        while i < self.slots.len()
            invariant
                i <= self.slots@.len(),
                forall|j: int|
                    0 <= j < i ==> !(self.slots@[j].key == key && self.slots@[j].ent == e),
            decreases self.slots@.len() - i,
        {
            if self.slots[i].key == key && self.slots[i].ent == e {
                return Some(i);
            }
            i += 1;
        }
        None
    }

    /// Whether `e` currently carries a component of type `key`.
    fn has_slot(&self, key: u64, e: Entity) -> (b: bool)
        ensures
            b == self.has(key, e),
    {
        proof {
            lemma_table_contains(self.slots@, key, e);
        }
        match self.find_slot(key, e) {
            Some(_) => true,
            None => false,
        }
    }

    /// Stores `value` under (`key`, `e`), replacing any prior value of the
    /// same component type on that entity. Total: no precondition beyond
    /// well-formedness, and no failure.
    pub fn add_component(&mut self, e: Entity, key: u64, value: C)
        requires
            old(self).wf(),
        ensures
            final(self).wf(),
            final(self).table() == old(self).table().insert((key, e), value),
            final(self).live() == old(self).live(),
            final(self).ever_issued() == old(self).ever_issued(),
            final(self).counter() == old(self).counter(),
    {
        let slot = Slot { key, ent: e, val: value };
        let ghost pre = self.slots@;
        match self.find_slot(key, e) {
            Some(i) => {
                let dst = &mut self.slots[i];
                *dst = slot;
                proof {
                    assert(self.slots@ == pre.update(i as int, slot));
                    lemma_table_update(pre, i as int, slot);
                    assert forall|a: int, b: int|
                        0 <= a < self.slots@.len() && 0 <= b < self.slots@.len() && a != b implies !(
                    self.slots@[a].key == self.slots@[b].key && self.slots@[a].ent
                        == self.slots@[b].ent) by {
                        assert(pre[a].key == self.slots@[a].key || a == i);
                    }
                }
            },
            None => {
                self.slots.push(slot);
                proof {
                    lemma_table_push(pre, slot);
                    assert forall|a: int, b: int|
                        0 <= a < self.slots@.len() && 0 <= b < self.slots@.len() && a != b implies !(
                    self.slots@[a].key == self.slots@[b].key && self.slots@[a].ent
                        == self.slots@[b].ent) by {
                        if a < pre.len() && b < pre.len() {
                            assert(self.slots@[a] == pre[a]);
                            assert(self.slots@[b] == pre[b]);
                        }
                    }
                }
            },
        }
    }

    /// Returns the component of type `key` on `e`, or nothing when the
    /// entity does not currently carry that type. Absence is a normal
    /// result, never an error.
    pub fn get_component(&self, e: Entity, key: u64) -> (r: Option<&C>)
        requires
            self.wf(),
        ensures
            match r {
                Some(c) => self.component(key, e) == Some(*c),
                None => self.component(key, e) is None,
            },
    {
        proof {
            lemma_table_contains(self.slots@, key, e);
        }
        match self.find_slot(key, e) {
            Some(i) => {
                proof {
                    lemma_table_lookup(self.slots@, i as int);
                }
                Some(&self.slots[i].val)
            },
            None => None,
        }
    }

    /// Looks for the position of `e` in the live list.
    fn find_entity(&self, e: Entity) -> (r: Option<usize>)
        ensures
            match r {
                Some(i) => i < self.entities@.len() && self.entities@[i as int] == e,
                None => !self.entities@.contains(e),
            },
    {
        let mut i: usize = 0;
        while i < self.entities.len()
            invariant
                i <= self.entities@.len(),
                forall|j: int| 0 <= j < i ==> self.entities@[j] != e,
            decreases self.entities@.len() - i,
        {
            if self.entities[i] == e {
                return Some(i);
            }
            i += 1;
        }
        None
    }

    /// Removes `e` from the live set and purges every component entry keyed
    /// by `e`, across all component types, atomically with respect to later
    /// queries. Idempotent: removing an absent or never-issued entity is a
    /// no-op, and other entities' data is never affected.
    pub fn remove_entity(&mut self, e: Entity)
        requires
            old(self).wf(),
        ensures
            final(self).wf(),
            final(self).live() == old(self).live().remove(e),
            final(self).table() == strip_entity(old(self).table(), e),
            forall|k: u64| !final(self).has(k, e),
            forall|k: u64, e2: Entity|
                e2 != e ==> final(self).component(k, e2) == old(self).component(k, e2),
            final(self).ever_issued() == old(self).ever_issued(),
            final(self).counter() == old(self).counter(),
    {
        let ghost pre_entities = self.entities@;
        match self.find_entity(e) {
            Some(i) => {
                self.entities.remove(i);
                proof {
                    lemma_unique_seq_remove(pre_entities, i as int);
                }
            },
            None => {
                proof {
                    assert(pre_entities.to_set().remove(e) =~= pre_entities.to_set());
                }
            },
        }
        let ghost mid_entities = self.entities@;
        let ghost orig = self.slots@;
        let mut i: usize = 0;
        while i < self.slots.len()
            invariant
                i <= self.slots@.len(),
                slots_unique(self.slots@),
                forall|j: int| 0 <= j < i ==> self.slots@[j].ent != e,
                strip_entity(table_of(self.slots@), e) == strip_entity(table_of(orig), e),
                self.entities@ == mid_entities,
                self.generator == old(self).generator,
            decreases self.slots@.len() - i,
        {
            let ghost cur = self.slots@;
            if self.slots[i].ent == e {
                self.slots.remove(i);
                proof {
                    lemma_table_remove(cur, i as int);
                    lemma_unique_remove(cur, i as int);
                    assert(strip_entity(table_of(cur).remove((cur[i as int].key, e)), e)
                        =~= strip_entity(table_of(cur), e));
                }
            } else {
                i += 1;
            }
        }
        proof {
            assert forall|k: u64| !table_of(self.slots@).dom().contains((k, e)) by {
                lemma_table_contains(self.slots@, k, e);
            }
            let tc = table_of(self.slots@);
            let to = table_of(orig);
            assert_maps_equal!(tc, strip_entity(to, e), p => {
                assert(p =~= (p.0, p.1));
                if p.1 == e {
                    assert(!tc.dom().contains((p.0, e)));
                } else {
                    assert(strip_entity(tc, e) == strip_entity(to, e));
                    assert(strip_entity(tc, e).dom().contains(p) == tc.dom().contains(p));
                    assert(strip_entity(to, e).dom().contains(p) == to.dom().contains(p));
                    if tc.dom().contains(p) {
                        assert(tc[p] == strip_entity(tc, e)[p]);
                        assert(strip_entity(to, e)[p] == to[p]);
                    }
                }
            });
            assert(table_of(self.slots@) == strip_entity(table_of(orig), e));
            assert(self.live() =~= old(self).live().remove(e));
            assert forall|k: u64, e2: Entity| e2 != e implies self.component(k, e2) == old(
                self,
            ).component(k, e2) by {
                assert(self.table().dom().contains((k, e2)) == old(self).table().dom().contains(
                    (k, e2),
                ));
            }
            assert forall|x: Entity| self.live().contains(x)
                implies self.generator.ever_issued().contains(x) by {
                assert(old(self).live().contains(x));
            }
        }
    }

    /// Whether `e` carries a component of every type the query requires.
    fn carries_all(&self, q: &Query, e: Entity) -> (b: bool)
        ensures
            b == self.all_required(q@, e),
    {
        let keys = q.keys();
        let ghost ks = keys@;
        let mut i: usize = 0;
        while i < keys.len()
            invariant
                i <= ks.len(),
                keys@ == ks,
                ks.to_set() == q@,
                forall|j: int| 0 <= j < i ==> self.has(ks[j], e),
            decreases ks.len() - i,
        {
            if !self.has_slot(keys[i], e) {
                proof {
                    assert(ks.to_set().contains(ks[i as int]));
                }
                return false;
            }
            i += 1;
        }
        proof {
            assert forall|k: u64| #[trigger] q@.contains(k) implies self.has(k, e) by {
                assert(ks.contains(k));
                let j = choose|j: int| 0 <= j < ks.len() && ks[j] == k;
                assert(self.has(ks[j], e));
            }
        }
        true
    }

    /// Computes the set of live entities whose attached component types form
    /// a superset of the query's required set. An empty requirement matches
    /// all live entities; a required type attached to no entity yields an
    /// empty result. The result holds each matching entity exactly once, in
    /// no specified order.
    pub fn query(&self, q: Query) -> (r: Vec<Entity>)
        requires
            self.wf(),
        ensures
            r@.no_duplicates(),
            forall|e: Entity| #[trigger] r@.contains(e) <==> self.satisfies(q@, e),
    {
        let mut r: Vec<Entity> = Vec::new();
        let mut i: usize = 0;
        while i < self.entities.len()
            invariant
                i <= self.entities@.len(),
                self.entities@.no_duplicates(),
                r@.no_duplicates(),
                forall|e: Entity| #[trigger] r@.contains(e) <==> (self.entities@.take(
                    i as int,
                ).contains(e) && self.all_required(q@, e)),
            decreases self.entities@.len() - i,
        {
            let ghost prefix = self.entities@.take(i as int);
            let ghost pre_r = r@;
            let e = self.entities[i];
            if self.carries_all(&q, e) {
                proof {
                    assert(!prefix.contains(e)) by {
                        if prefix.contains(e) {
                            let j = choose|j: int| 0 <= j < prefix.len() && prefix[j] == e;
                            assert(self.entities@[j] == e);
                        }
                    }
                    assert(!pre_r.contains(e));
                }
                r.push(e);
                proof {
                    assert forall|a: int, b: int|
                        0 <= a < r@.len() && 0 <= b < r@.len() && a != b implies r@[a] != r@[b] by {
                        if a < pre_r.len() && b < pre_r.len() {
                            assert(r@[a] == pre_r[a]);
                            assert(r@[b] == pre_r[b]);
                        } else if b == pre_r.len() {
                            assert(pre_r.contains(pre_r[a]));
                        } else {
                            assert(pre_r.contains(pre_r[b]));
                        }
                    }
                }
            }
            i += 1;
            proof {
                assert(self.entities@.take(i as int) =~= prefix.push(self.entities@[i - 1]));
                broadcast use vstd::seq_lib::lemma_seq_contains_after_push;
                if pre_r != r@ {
                    assert forall|x: Entity| r@.contains(x) implies pre_r.contains(x) || x
                        == e by {
                        let j = choose|j: int| 0 <= j < r@.len() && r@[j] == x;
                        if j < pre_r.len() {
                            assert(pre_r[j] == x);
                        }
                    }
                }
            }
        }
        proof {
            assert(self.entities@.take(self.entities@.len() as int) =~= self.entities@);
            assert forall|e: Entity| #[trigger] r@.contains(e) <==> self.satisfies(q@, e) by {
                assert(self.entities@.contains(e) == self.live().contains(e));
            }
        }
        r
    }

    /// Returns exclusive mutation access to the component of type `key` on
    /// `e`, or nothing when the entity does not carry that type. Afterwards
    /// the table holds, under (`key`, `e`), whatever value the caller left
    /// through the reference; everything else is unchanged. The reference
    /// must not outlive the next structural change to the registry.
    pub fn get_component_mut(&mut self, e: Entity, key: u64) -> (r: Option<&mut C>)
        requires
            old(self).wf(),
        ensures
            r is Some <==> old(self).component(key, e) is Some,
            r is None ==> *final(self) == *old(self),
            r is Some ==> {
                &&& old(self).component(key, e) == Some(*r.unwrap())
                &&& final(self).table() == old(self).table().insert((key, e), *final(r.unwrap()))
                &&& final(self).live() == old(self).live()
                &&& final(self).ever_issued() == old(self).ever_issued()
                &&& final(self).counter() == old(self).counter()
                &&& final(self).wf()
            },
    {
        proof {
            lemma_table_contains(self.slots@, key, e);
        }
        let ghost pre = self.slots@;
        match self.find_slot(key, e) {
            Some(i) => {
                proof {
                    lemma_table_lookup(pre, i as int);
                }
                let slot = &mut self.slots[i];
                let m = &mut slot.val;
                proof {
                    let fin = pre.update(
                        i as int,
                        Slot { key: key, ent: e, val: *final(m) },
                    );
                    lemma_table_update(pre, i as int, Slot { key: key, ent: e, val: *final(m) });
                    assert forall|a: int, b: int|
                        0 <= a < fin.len() && 0 <= b < fin.len() && a != b implies !(fin[a].key
                        == fin[b].key && fin[a].ent == fin[b].ent) by {
                        assert(fin[a].key == pre[a].key && fin[a].ent == pre[a].ent);
                        assert(fin[b].key == pre[b].key && fin[b].ent == pre[b].ent);
                    }
                }
                Some(m)
            },
            None => None,
        }
    }

    /// Deletes the (`key`, `e`) entry if present; an idempotent no-op
    /// otherwise.
    pub fn remove_component(&mut self, e: Entity, key: u64)
        requires
            old(self).wf(),
        ensures
            final(self).wf(),
            final(self).table() == old(self).table().remove((key, e)),
            final(self).live() == old(self).live(),
            final(self).ever_issued() == old(self).ever_issued(),
            final(self).counter() == old(self).counter(),
    {
        proof {
            lemma_table_contains(self.slots@, key, e);
        }
        let ghost pre = self.slots@;
        match self.find_slot(key, e) {
            Some(i) => {
                self.slots.remove(i);
                proof {
                    lemma_table_remove(pre, i as int);
                    lemma_unique_remove(pre, i as int);
                }
            },
            None => {
                proof {
                    assert(table_of(pre).remove((key, e)) =~= table_of(pre));
                }
            },
        }
    }
}

} // verus!
