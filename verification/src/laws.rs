//! The laws of the registry: properties that relate several operations,
//! proved once and for all over the registry's abstract state.

use vstd::prelude::*;

use crate::entity::Entity;
use crate::world::strip_entity;
use crate::world::World;

verus! {

/// A query that requires nothing matches exactly the live entities: every
/// entity is in the result of the empty query from its creation until its
/// removal, and no other entity ever is.
pub proof fn lemma_empty_query_matches_live<C>(w: World<C>, e: Entity)
    ensures
        w.satisfies(Set::empty(), e) <==> w.live().contains(e),
{
}

/// Reading back an attached component: once a registry's table holds the
/// attachment of value `v` under (`key`, `e`) — as `add_component` ensures —
/// the component reported for (`key`, `e`) equals `v`.
pub proof fn lemma_attached_component_is_read_back<C>(
    pre: World<C>,
    post: World<C>,
    e: Entity,
    key: u64,
    v: C,
)
    requires
        post.table() == pre.table().insert((key, e), v),
    ensures
        post.component(key, e) == Some(v),
{
}

/// Detaching a component: once the (`key`, `e`) entry is deleted — as
/// `remove_component` ensures — the component reported for (`key`, `e`)
/// is absent.
pub proof fn lemma_removed_component_is_absent<C>(
    pre: World<C>,
    post: World<C>,
    e: Entity,
    key: u64,
)
    requires
        post.table() == pre.table().remove((key, e)),
    ensures
        post.component(key, e) is None,
{
}

/// Attaching is overwrite-idempotent: attaching `v1` and then `v2` under the
/// same type key leaves exactly the state of attaching `v2` alone — the
/// second value replaces the first, nothing accumulates.
pub proof fn lemma_attach_overwrites<C>(
    w0: World<C>,
    w1: World<C>,
    w2: World<C>,
    e: Entity,
    key: u64,
    v1: C,
    v2: C,
)
    requires
        w1.table() == w0.table().insert((key, e), v1),
        w2.table() == w1.table().insert((key, e), v2),
    ensures
        w2.table() == w0.table().insert((key, e), v2),
        w2.component(key, e) == Some(v2),
{
    assert(w2.table() =~= w0.table().insert((key, e), v2));
}

/// A removed entity is gone everywhere: once `remove_entity` has taken `e`
/// out of the live set and purged its table entries, no query matches `e`
/// and every component type reads as absent on `e`.
pub proof fn lemma_removed_entity_gone<C>(pre: World<C>, post: World<C>, e: Entity)
    requires
        post.live() == pre.live().remove(e),
        post.table() == strip_entity(pre.table(), e),
    ensures
        forall|required: Set<u64>| !post.satisfies(required, e),
        forall|key: u64| post.component(key, e) is None,
{
}

/// Requiring a type that no entity carries empties the result, whatever
/// else the query requires: the intersection with an empty entity set is
/// empty, never a stale or partial result.
pub proof fn lemma_unattached_type_empties_query<C>(w: World<C>, required: Set<u64>, key: u64)
    requires
        required.contains(key),
        forall|e: Entity| !w.has(key, e),
    ensures
        forall|e: Entity| !w.satisfies(required, e),
{
    assert forall|e: Entity| !w.satisfies(required, e) by {
        if w.satisfies(required, e) {
            assert(w.has(key, e));
        }
    }
}

/// Query intersection: a query requiring the union of two type sets matches
/// exactly the entities that both queries match on their own.
pub proof fn lemma_query_of_union_is_intersection<C>(
    w: World<C>,
    ra: Set<u64>,
    rb: Set<u64>,
    e: Entity,
)
    ensures
        w.satisfies(ra.union(rb), e) <==> w.satisfies(ra, e) && w.satisfies(rb, e),
{
    if w.satisfies(ra, e) && w.satisfies(rb, e) {
        assert forall|k: u64| #[trigger] ra.union(rb).contains(k) implies w.has(k, e) by {
            assert(ra.contains(k) || rb.contains(k));
        }
    }
    if w.satisfies(ra.union(rb), e) {
        assert forall|k: u64| #[trigger] ra.contains(k) implies w.has(k, e) by {
            assert(ra.union(rb).contains(k));
        }
        assert forall|k: u64| #[trigger] rb.contains(k) implies w.has(k, e) by {
            assert(ra.union(rb).contains(k));
        }
    }
}

/// Removing an entity that is not live — never created here, or already
/// removed — changes no observable state: the live set stays as it was, and
/// every other entity keeps its components and its query answers.
pub proof fn lemma_remove_absent_entity_no_op<C>(pre: World<C>, post: World<C>, e: Entity)
    requires
        !pre.live().contains(e),
        post.live() == pre.live().remove(e),
        forall|k: u64, e2: Entity| e2 != e ==> post.component(k, e2) == pre.component(k, e2),
    ensures
        post.live() == pre.live(),
        forall|required: Set<u64>, e2: Entity|
            e2 != e ==> (post.satisfies(required, e2) <==> pre.satisfies(required, e2)),
{
    assert(post.live() =~= pre.live());
    assert forall|required: Set<u64>, e2: Entity| e2 != e implies (post.satisfies(required, e2)
        <==> pre.satisfies(required, e2)) by {
        assert forall|k: u64| #[trigger] required.contains(k) implies post.has(k, e2) == pre.has(
            k,
            e2,
        ) by {
            assert(post.component(k, e2) == pre.component(k, e2));
        }
    }
}

/// Issued identifiers never repeat: each call of `new_entity` returns an
/// entity outside everything issued before and records it as issued, so an
/// entity already issued can never equal one issued later.
pub proof fn lemma_issued_entities_distinct<C>(w: World<C>, e1: Entity, e2: Entity)
    requires
        w.ever_issued().contains(e1),
        !w.ever_issued().contains(e2),
    ensures
        e1 != e2,
{
}

/// Uniqueness across registries that share one identifier lineage. The
/// issued set only grows: `new_entity` inserts into it, and a registry
/// built by `World::with_generator` starts with the full set of the
/// generator handed on by `World::into_generator`. So wherever an earlier
/// registry's issued set is contained in a later one's — as it is along a
/// lineage — an entity the earlier registry issued differs from every
/// entity the later registry issues afterwards. A process that builds all
/// its registries from one generator therefore never sees equal
/// identifiers from two `new_entity` calls, whichever registries made them.
pub proof fn lemma_lineage_entities_distinct<C1, C2>(
    earlier: World<C1>,
    later: World<C2>,
    e1: Entity,
    e2: Entity,
)
    requires
        earlier.ever_issued().subset_of(later.ever_issued()),
        earlier.ever_issued().contains(e1),
        !later.ever_issued().contains(e2),
    ensures
        e1 != e2,
{
}

} // verus!
