//! Entity and archetype identifiers.

use vstd::prelude::*;

verus! {

/// Index that no live entity ever has: the index of the null entity.
pub const NULL_INDEX: u32 = 0xFFFF_FFFF;

/// A stable, reusable identity: an index and the generation of that index.
///
/// The index is recycled through a free list; the generation counts how often
/// it has been recycled, so that a reference held past a despawn is told apart
/// from the entity that now lives at the same index.
#[derive(Debug, Clone, Copy, PartialEq, Eq, Hash, Structural)]
pub struct Entity {
    index: u32,
    generation: u32,
}

impl Entity {
    /// The index part, as a mathematical value.
    pub closed spec fn spec_index(self) -> u32 {
        self.index
    }

    /// The generation part, as a mathematical value.
    pub closed spec fn spec_generation(self) -> u32 {
        self.generation
    }

    /// The entity made of `index` and `generation`.
    pub closed spec fn spec_new(index: u32, generation: u32) -> Entity {
        Entity { index, generation }
    }

    /// The null entity: the reserved index with generation zero.
    pub open spec fn spec_null() -> Entity {
        Entity::spec_new(NULL_INDEX, 0)
    }

    /// Whether this is a null reference, that is, carries the reserved index.
    pub open spec fn spec_is_null(self) -> bool {
        self.spec_index() == NULL_INDEX
    }

    /// The entity packed into one integer: the index in the high half, the
    /// generation in the low half.
    pub open spec fn key(self) -> u64 {
        (self.spec_index() as int * 0x1_0000_0000 + self.spec_generation() as int) as u64
    }

    /// An entity is exactly its two parts.
    pub broadcast proof fn lemma_parts(index: u32, generation: u32)
        ensures
            (#[trigger] Entity::spec_new(index, generation)).spec_index() == index,
            Entity::spec_new(index, generation).spec_generation() == generation,
    {
    }

    /// Two entities with the same parts are the same entity.
    pub proof fn lemma_ext(a: Entity, b: Entity)
        requires
            a.spec_index() == b.spec_index(),
            a.spec_generation() == b.spec_generation(),
        ensures
            a == b,
    {
    }

    /// An entity is rebuilt from its own parts.
    pub broadcast proof fn lemma_rebuild(e: Entity)
        ensures
            #[trigger] Entity::spec_new(e.spec_index(), e.spec_generation()) == e,
    {
    }

    /// Packing loses nothing: two entities with the same key are the same.
    pub proof fn lemma_key_injective(a: Entity, b: Entity)
        requires
            a.key() == b.key(),
        ensures
            a == b,
    {
    }

    /// Create an entity with the given index and generation.
    pub fn new(index: u32, generation: u32) -> (e: Entity)
        ensures
            e == Entity::spec_new(index, generation),
            e.spec_index() == index,
            e.spec_generation() == generation,
    {
        Entity { index, generation }
    }

    /// Get the entity index.
    pub fn index(&self) -> (i: u32)
        ensures
            i == self.spec_index(),
    {
        self.index
    }

    /// Get the entity generation.
    pub fn generation(&self) -> (g: u32)
        ensures
            g == self.spec_generation(),
    {
        self.generation
    }

    /// Create a null entity (an invalid reference).
    pub fn null() -> (e: Entity)
        ensures
            e == Entity::spec_null(),
            e.spec_is_null(),
    {
        Entity { index: NULL_INDEX, generation: 0 }
    }

    /// Check if this is a null entity.
    pub fn is_null(&self) -> (b: bool)
        ensures
            b == self.spec_is_null(),
    {
        self.index == NULL_INDEX
    }

    /// The packed form of this entity, used to key the row index.
    pub fn to_key(&self) -> (k: u64)
        ensures
            k == self.key(),
    {
        (self.index as u64) * 0x1_0000_0000u64 + (self.generation as u64)
    }
}

impl Default for Entity {
    /// The default entity is the null entity.
    fn default() -> (e: Entity)
        ensures
            e == Entity::spec_null(),
    {
        Entity::null()
    }
}

/// Identifier of an archetype: its position in the world's archetype list.
#[derive(Debug, Clone, Copy, PartialEq, Eq, Hash, Structural)]
pub struct ArchetypeId(pub u32);

} // verus!
