//! Opaque entity identifiers: the keys of the registry.

use vstd::prelude::*;

verus! {

/// An opaque identifier issued by a registry.
///
/// Entities carry no data themselves: they are keys into component storage.
/// Equality is defined solely by the identifier value, which specifications
/// see as the entity's view. An `Entity` is immutable once created; fresh
/// ones come from `World::new_entity`.
///
/// Identifiers are unique within an identifier lineage: the one generator
/// a process creates, held by a registry and handed on from registry to
/// registry through `World::into_generator` and `World::with_generator`.
/// A process that builds every registry from that one generator never sees
/// two equal identifiers. Registries started independently with
/// `World::new` begin separate lineages, each counting from 1, and may
/// repeat one another's identifiers.
#[derive(Clone, Copy, PartialEq, Eq, Structural, Debug)]
pub struct Entity {
    pub(crate) id: u64,
}

impl View for Entity {
    type V = u64;

    closed spec fn view(&self) -> u64 {
        self.id
    }
}

impl Entity {
    /// The view of an entity is its identifier field.
    pub(crate) proof fn lemma_view_is_id(self)
        ensures
            self@ == self.id,
    {
    }
}

} // verus!
