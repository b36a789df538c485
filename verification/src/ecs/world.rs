//! The world: entity identity (index allocation, generations, free list,
//! liveness) composed with archetype storage and the row index that maps
//! every stored entity to its row.

use super::archetype::{holds_type, swap_removed, Archetype};
use crate::counting::{count_true, lemma_count_true_push, lemma_count_true_update};
use super::entity::{ArchetypeId, Entity, NULL_INDEX};
use super::erased::{cell_type, component_key, holds, type_key, Component, ErasedComponent};
use super::row_index::{row_entries, rows_get, rows_insert, rows_new, rows_remove};
use super::type_list::{type_seq, TypeList};
use ahash::AHashMap;
use std::any::TypeId;
use vstd::prelude::*;

verus! {

/// Per-index entity record. It exists for the lifetime of the world and is
/// reset, never removed, when its index is reused.
pub struct EntityMeta {
    generation: u32,
    alive: bool,
    archetype_id: Option<ArchetypeId>,
}

/// The set of a sequence with one item appended is the set of the sequence
/// with that item inserted.
pub proof fn lemma_push_to_set<A>(s: Seq<A>, item: A)
    ensures
        s.push(item).to_set() == s.to_set().insert(item),
{
    let grown = s.push(item);
    assert forall|k: A| grown.to_set().contains(k) == s.to_set().insert(item).contains(k) by {
        if grown.contains(k) {
            let i = grown.index_of(k);
            assert(grown[i] == k);
            if i < s.len() {
                assert(s[i] == k);
            }
        }
        if s.contains(k) {
            let i = s.index_of(k);
            assert(s[i] == k);
            assert(grown[i] == k);
        }
        if k == item {
            assert(grown[s.len() as int] == k);
        }
    }
    assert(grown.to_set() =~= s.to_set().insert(item));
}

/// Removing one position from a sequence without duplicates removes its
/// item from the set, and leaves a sequence without duplicates.
pub proof fn lemma_remove_to_set<A>(s: Seq<A>, i: int)
    requires
        s.no_duplicates(),
        0 <= i < s.len(),
    ensures
        s.remove(i).no_duplicates(),
        s.remove(i).to_set() == s.to_set().remove(s[i]),
{
    let less = s.remove(i);
    assert forall|p: int, q: int| 0 <= p < less.len() && 0 <= q < less.len() && p
        != q implies less[p] != less[q] by {
        let p_old = if p < i {
            p
        } else {
            p + 1
        };
        let q_old = if q < i {
            q
        } else {
            q + 1
        };
        assert(less[p] == s[p_old]);
        assert(less[q] == s[q_old]);
    }
    assert forall|k: A| less.to_set().contains(k) == s.to_set().remove(s[i]).contains(k) by {
        if less.contains(k) {
            let p = less.index_of(k);
            assert(less[p] == k);
            let p_old = if p < i {
                p
            } else {
                p + 1
            };
            assert(s[p_old] == k);
        }
        if s.contains(k) && k != s[i] {
            let p_old = s.index_of(k);
            assert(s[p_old] == k);
            let p = if p_old < i {
                p_old
            } else {
                p_old - 1
            };
            assert(less[p] == k);
        }
    }
    assert(less.to_set() =~= s.to_set().remove(s[i]));
}

/// Cells that carry, position by position, the types of `from`, can be
/// arranged into any type list `to` that names the same types.
pub proof fn lemma_arrange_ready(cells: Seq<ErasedComponent>, from: Seq<TypeId>, to: Seq<TypeId>)
    requires
        from.no_duplicates(),
        to.no_duplicates(),
        from.to_set() == to.to_set(),
        cells.len() == from.len(),
        forall|j: int| 0 <= j < from.len() ==> cell_type(#[trigger] cells[j]) == from[j],
    ensures
        cells.len() == to.len(),
        forall|p: int, q: int|
            0 <= p < q < cells.len() ==> cell_type(#[trigger] cells[p]) != cell_type(
                #[trigger] cells[q],
            ),
        forall|j: int| 0 <= j < to.len() ==> holds_type(cells, #[trigger] to[j]),
{
    from.unique_seq_to_set();
    to.unique_seq_to_set();
    assert forall|j: int| 0 <= j < to.len() implies holds_type(cells, #[trigger] to[j]) by {
        assert(to.contains(to[j]));
        assert(to.to_set().contains(to[j]));
        assert(from.to_set().contains(to[j]));
        let p = from.index_of(to[j]);
        assert(from[p] == to[j]);
        assert(cell_type(cells[p]) == to[j]);
    }
}

/// Arranging a row's cells into another column order does not change what
/// the row holds under each type.
pub proof fn lemma_arranged_map(
    cells: Seq<ErasedComponent>,
    from: Seq<TypeId>,
    ordered: Seq<ErasedComponent>,
    to: Seq<TypeId>,
)
    requires
        from.no_duplicates(),
        to.no_duplicates(),
        from.to_set() == to.to_set(),
        cells.len() == from.len(),
        ordered.len() == to.len(),
        forall|j: int| 0 <= j < from.len() ==> cell_type(#[trigger] cells[j]) == from[j],
        forall|j: int|
            0 <= j < to.len() ==> cell_type(#[trigger] ordered[j]) == to[j] && cells.contains(
                ordered[j],
            ),
    ensures
        World::cells_as_map(to, ordered) == World::cells_as_map(from, cells),
{
    let left = World::cells_as_map(to, ordered);
    let right = World::cells_as_map(from, cells);
    assert forall|k: TypeId| left.dom().contains(k) == right.dom().contains(k) by {
        assert(to.to_set().contains(k) == to.contains(k));
        assert(from.to_set().contains(k) == from.contains(k));
    }
    assert forall|k: TypeId| left.dom().contains(k) implies left[k] == right[k] by {
        assert(to.to_set().contains(k));
        assert(from.contains(k));
        let j = to.index_of(k);
        assert(to[j] == k);
        let c = ordered[j];
        assert(cells.contains(c));
        let p = choose|p: int| 0 <= p < cells.len() && cells[p] == c;
        assert(cell_type(cells[p]) == from[p]);
        let i = from.index_of(k);
        assert(from[i] == k);
        assert(p == i);
    }
    assert(left =~= right);
}

/// The entity/component store.
///
/// Not synchronised: one writer at a time.
pub struct World {
    /// Entity records, indexed by entity index.
    entities: Vec<EntityMeta>,
    /// Indices of dead entities, ready for reuse; the last is reused first.
    free_indices: Vec<u32>,
    /// Next index never used so far.
    next_index: u32,
    /// Archetypes, indexed by archetype id.
    archetypes: Vec<Archetype>,
    /// Next archetype id.
    next_archetype_id: u32,
    /// Row of every entity that sits in an archetype, by packed entity.
    entity_archetype_row: AHashMap<u64, usize>,
}

impl World {
    /// The number of entity indices ever allocated.
    pub closed spec fn record_count(&self) -> nat {
        self.entities@.len()
    }

    /// The current generation of `index`.
    pub closed spec fn generation_at(&self, index: int) -> u32 {
        self.entities@[index].generation
    }

    /// Whether the entity at `index` is currently alive.
    pub closed spec fn alive_at(&self, index: int) -> bool {
        self.entities@[index].alive
    }

    /// The free list: indices waiting for reuse, the last one first.
    pub closed spec fn free_list(&self) -> Seq<u32> {
        self.free_indices@
    }

    /// An entity is alive when its index has a record, the record is alive
    /// and the record's generation is the entity's.
    pub open spec fn alive(&self, e: Entity) -> bool {
        &&& (e.spec_index() as int) < self.record_count()
        &&& self.alive_at(e.spec_index() as int)
        &&& self.generation_at(e.spec_index() as int) == e.spec_generation()
    }

    /// The entity that currently lives, or last lived, at `index`.
    pub open spec fn entity_at(&self, index: int) -> Entity {
        Entity::spec_new(index as u32, self.generation_at(index))
    }

    /// The liveness flags of all records, in index order.
    pub closed spec fn alive_flags(&self) -> Seq<bool> {
        Seq::new(self.entities@.len(), |i: int| self.entities@[i].alive)
    }

    /// The number of entities currently alive.
    pub open spec fn live_count(&self) -> nat {
        count_true(self.alive_flags())
    }

    /// The archetype that the record at `index` names, if any.
    pub closed spec fn home_of(&self, index: int) -> Option<int> {
        match self.entities@[index].archetype_id {
            Some(id) => Some(id.0 as int),
            None => None,
        }
    }

    /// The number of archetypes.
    pub closed spec fn archetype_count(&self) -> nat {
        self.archetypes@.len()
    }

    /// The archetype with identifier `a`.
    pub closed spec fn archetype(&self, a: int) -> Archetype {
        self.archetypes@[a]
    }

    /// The row index: packed entity to row.
    pub closed spec fn rows(&self) -> Map<u64, usize> {
        row_entries(self.entity_archetype_row)
    }

    /// Whether `x` is stored: alive and a member of an archetype.
    pub open spec fn stored(&self, x: Entity) -> bool {
        self.alive(x) && self.home_of(x.spec_index() as int) is Some
    }

    /// The components of `e`: type key to cell. Empty for an entity that is
    /// not alive.
    pub open spec fn components(&self, e: Entity) -> Map<TypeId, ErasedComponent> {
        if self.alive(e) {
            match self.home_of(e.spec_index() as int) {
                Some(a) => self.archetype(a).row_cells(self.rows()[e.key()] as int),
                None => Map::empty(),
            }
        } else {
            Map::empty()
        }
    }

    /// The components that a row made of `cells` gives to its entity in an
    /// archetype with the type list `types`.
    pub open spec fn cells_as_map(types: Seq<TypeId>, cells: Seq<ErasedComponent>) -> Map<
        TypeId,
        ErasedComponent,
    > {
        Map::new(|k: TypeId| types.contains(k), |k: TypeId| cells[types.index_of(k)])
    }

    /// Whether some archetype holds exactly the types of `set`.
    pub open spec fn has_archetype(&self, set: Set<TypeId>) -> bool {
        exists|a: int|
            0 <= a < self.archetype_count() && (#[trigger] self.archetype(a)).types().to_set()
                == set
    }

    /// Whether an entity with the component types `set` can be stored: the
    /// set is empty (such an entity sits in no archetype), an archetype for
    /// the set exists, or an archetype identifier is left to create one.
    pub open spec fn can_home(&self, set: Set<TypeId>) -> bool {
        set == Set::<TypeId>::empty() || self.has_archetype(set) || self.archetype_count()
            < u32::MAX
    }

    /// Whether `spawn` can hand out an entity: an index waits for reuse, or
    /// there is an unused index below the null index.
    pub open spec fn can_spawn(&self) -> bool {
        self.free_list().len() > 0 || self.record_count() < NULL_INDEX
    }

    /// Whether record `index` is consistent with the archetype storage: a
    /// dead record names no archetype; a live one that names an archetype is
    /// a member of it, at the row that the row index gives.
    pub open spec fn record_ok(&self, index: int) -> bool {
        match self.home_of(index) {
            None => true,
            Some(a) => {
                &&& self.alive_at(index)
                &&& 0 <= a < self.archetype_count()
                &&& self.rows().contains_key(self.entity_at(index).key())
                &&& (self.rows()[self.entity_at(index).key()] as int) < self.archetype(
                    a,
                ).members().len()
                &&& self.archetype(a).members()[self.rows()[self.entity_at(index).key()] as int]
                    == self.entity_at(index)
            },
        }
    }

    /// Whether row `row` of archetype `a` is consistent with the entity
    /// records: its member is alive, names `a` as its archetype and has `row`
    /// in the row index.
    pub open spec fn member_ok(&self, a: int, row: int) -> bool {
        let x = self.archetype(a).members()[row];
        &&& self.alive(x)
        &&& self.home_of(x.spec_index() as int) == Some(a)
        &&& self.rows().contains_key(x.key())
        &&& self.rows()[x.key()] as int == row
    }

    /// The two counters agree with the lists they count.
    pub closed spec fn counters_ok(&self) -> bool {
        &&& self.next_index as nat == self.entities@.len()
        &&& self.next_archetype_id as nat == self.archetypes@.len()
    }

    /// The invariant of the world.
    pub open spec fn wf(&self) -> bool {
        &&& self.record_count() <= NULL_INDEX
        &&& self.free_list().no_duplicates()
        &&& forall|k: int|
            0 <= k < self.free_list().len() ==> (#[trigger] self.free_list()[k] as int)
                < self.record_count() && !self.alive_at(self.free_list()[k] as int)
                && self.generation_at(self.free_list()[k] as int) < u32::MAX
        &&& self.archetype_count() <= u32::MAX
        &&& forall|a: int|
            0 <= a < self.archetype_count() ==> (#[trigger] self.archetype(a)).wf()
                && self.archetype(a).spec_id() == ArchetypeId(a as u32)
        &&& forall|a: int, b: int|
            0 <= a < b < self.archetype_count() ==> (#[trigger] self.archetype(a)).types().to_set()
                != (#[trigger] self.archetype(b)).types().to_set()
        &&& forall|i: int| 0 <= i < self.record_count() ==> #[trigger] self.record_ok(i)
        &&& forall|a: int, r: int|
            0 <= a < self.archetype_count() && 0 <= r < self.archetype(a).members().len()
                ==> #[trigger] self.member_ok(a, r)
        &&& forall|x: Entity| #[trigger] self.rows().contains_key(x.key()) ==> self.stored(x)
        &&& self.counters_ok()
    }

    /// Whether two worlds hold the same archetype storage and row index.
    pub open spec fn same_storage(&self, other: &World) -> bool {
        &&& self.archetype_count() == other.archetype_count()
        &&& self.rows() == other.rows()
        &&& forall|a: int|
            0 <= a < self.archetype_count() ==> #[trigger] self.archetype(a) == other.archetype(a)
    }

    /// Whether the entity records of two worlds agree on everything but the
    /// archetype that record `index` names.
    pub open spec fn same_records_but_home(&self, other: &World, index: int) -> bool {
        &&& self.record_count() == other.record_count()
        &&& self.free_list() == other.free_list()
        &&& forall|i: int|
            0 <= i < self.record_count() ==> #[trigger] self.generation_at(i)
                == other.generation_at(i)
        &&& forall|i: int|
            0 <= i < self.record_count() ==> #[trigger] self.alive_at(i) == other.alive_at(i)
        &&& forall|i: int|
            0 <= i < self.record_count() && i != index ==> #[trigger] self.home_of(i)
                == other.home_of(i)
    }

    /// Whether two worlds have the same archetypes by type list.
    pub open spec fn same_archetype_types(&self, other: &World) -> bool {
        &&& self.archetype_count() == other.archetype_count()
        &&& forall|a: int|
            0 <= a < self.archetype_count() ==> (#[trigger] self.archetype(a)).types()
                == other.archetype(a).types()
    }

    /// Only the components of `entity` may differ between the two worlds:
    /// the same entities are alive, with the same generations and the same
    /// free list, and every other entity holds what it held.
    pub open spec fn only_touched(before: &World, after: &World, entity: Entity) -> bool {
        &&& after.same_records_but_home(before, entity.spec_index() as int)
        &&& before.archetype_count() <= after.archetype_count() <= before.archetype_count() + 1
        &&& after.live_count() == before.live_count()
        &&& forall|x: Entity| after.alive(x) == before.alive(x)
        &&& forall|x: Entity|
            x != entity ==> #[trigger] after.components(x) == before.components(x)
    }

    /// What `spawn` does: `e` is a new live entity without components, at
    /// the index freed last with its generation raised by one, or at a fresh
    /// index with generation zero when no index is free; nothing else
    /// changes.
    pub open spec fn spawned(before: &World, after: &World, e: Entity) -> bool {
        &&& !e.spec_is_null()
        &&& !before.alive(e)
        &&& after.alive(e)
        &&& after.components(e) == Map::<TypeId, ErasedComponent>::empty()
        &&& before.free_list().len() > 0 ==> {
            &&& e.spec_index() == before.free_list().last()
            &&& e.spec_generation() == before.generation_at(e.spec_index() as int) + 1
            &&& after.free_list() == before.free_list().drop_last()
            &&& after.record_count() == before.record_count()
        }
        &&& before.free_list().len() == 0 ==> {
            &&& e.spec_index() == before.record_count()
            &&& e.spec_generation() == 0
            &&& after.free_list() == before.free_list()
            &&& after.record_count() == before.record_count() + 1
        }
        &&& forall|x: Entity| x != e ==> after.alive(x) == before.alive(x)
        &&& forall|x: Entity| x != e ==> #[trigger] after.components(x) == before.components(x)
        &&& after.live_count() == before.live_count() + 1
        &&& after.same_storage(before)
    }

    /// What `despawn` does: `ok` says whether `entity` was alive; if it was,
    /// it is dead afterwards, holds nothing, and its index is the last of the
    /// free list, unless the index has no generation left and is retired;
    /// generations and all other entities are as before.
    pub open spec fn despawned(before: &World, after: &World, entity: Entity, ok: bool) -> bool {
        &&& ok == before.alive(entity)
        &&& !after.alive(entity)
        &&& after.record_count() == before.record_count()
        &&& forall|i: int|
            0 <= i < after.record_count() ==> #[trigger] after.generation_at(i)
                == before.generation_at(i)
        &&& ok ==> after.free_list() == (if entity.spec_generation() < u32::MAX {
            before.free_list().push(entity.spec_index())
        } else {
            before.free_list()
        })
        &&& ok ==> after.live_count() + 1 == before.live_count()
        &&& !ok ==> after.free_list() == before.free_list()
        &&& !ok ==> after.live_count() == before.live_count()
        &&& !ok ==> after.same_storage(before)
        &&& after.same_archetype_types(before)
        &&& forall|x: Entity| x != entity ==> after.alive(x) == before.alive(x)
        &&& forall|x: Entity|
            x != entity ==> #[trigger] after.components(x) == before.components(x)
    }

    /// What adding `cell` to `entity` does: `ok` says whether it was added,
    /// which is when the entity is alive and its grown set can be stored, and
    /// then the entity holds what it held plus `cell` under the cell's type.
    pub open spec fn added(
        before: &World,
        after: &World,
        entity: Entity,
        cell: ErasedComponent,
        ok: bool,
    ) -> bool {
        &&& ok == (before.alive(entity) && before.can_home(
            before.components(entity).dom().insert(cell_type(cell)),
        ))
        &&& ok ==> after.components(entity) == before.components(entity).insert(
            cell_type(cell),
            cell,
        )
    }

    /// What removing the component under `key` from `entity` does: `ok` says
    /// whether it was removed, which is when the entity is alive, holds such
    /// a component and its shrunk set can be stored, and then the entity
    /// holds what it held without `key`.
    pub open spec fn removed(
        before: &World,
        after: &World,
        entity: Entity,
        key: TypeId,
        ok: bool,
    ) -> bool {
        &&& ok == (before.alive(entity) && before.components(entity).contains_key(key)
            && before.can_home(before.components(entity).dom().remove(key)))
        &&& ok ==> after.components(entity) == before.components(entity).remove(key)
    }

    /// Create a new empty world.
    pub fn new() -> (w: World)
        ensures
            w.wf(),
            w.record_count() == 0,
            w.free_list().len() == 0,
            w.archetype_count() == 0,
            w.live_count() == 0,
            w.can_spawn(),
    {
        let w = World {
            entities: Vec::new(),
            free_indices: Vec::new(),
            next_index: 0,
            archetypes: Vec::new(),
            next_archetype_id: 0,
            entity_archetype_row: rows_new(),
        };
        assert(w.alive_flags() =~= Seq::<bool>::empty());
        w
    }

    /// Check if an entity is alive.
    pub fn is_alive(&self, entity: Entity) -> (b: bool)
        ensures
            b == self.alive(entity),
    {
        let i = entity.index() as usize;
        if i < self.entities.len() {
            self.entities[i].alive && self.entities[i].generation == entity.generation()
        } else {
            false
        }
    }

    /// Get the number of alive entities.
    pub fn entity_count(&self) -> (n: usize)
        ensures
            n == self.live_count(),
    {
        let total = self.entities.len();
        let mut n: usize = 0;
        let mut i: usize = 0;
        while i < total
            invariant
                i <= total,
                total == self.entities@.len(),
                n == count_true(self.alive_flags().subrange(0, i as int)),
                n <= i,
            decreases total - i,
        {
            proof {
                let flags = self.alive_flags();
                assert(flags.subrange(0, i + 1).drop_last() == flags.subrange(0, i as int));
            }
            if self.entities[i].alive {
                n += 1;
            }
            i += 1;
        }
        assert(self.alive_flags().subrange(0, total as int) == self.alive_flags());
        n
    }

    /// Check whether `spawn` can hand out an entity.
    pub fn can_spawn_now(&self) -> (b: bool)
        requires
            self.wf(),
        ensures
            b == self.can_spawn(),
    {
        self.free_indices.len() > 0 || self.next_index < NULL_INDEX
    }

    /// Spawn a new entity.
    ///
    /// Reuses the index that was freed last, with its generation raised by
    /// one, or takes a fresh index with generation zero when no index is
    /// free. The new entity holds no component.
    pub fn spawn(&mut self) -> (e: Entity)
        requires
            old(self).wf(),
            old(self).can_spawn(),
        ensures
            final(self).wf(),
            World::spawned(old(self), final(self), e),
    {
        let ghost before = *self;
        let popped = self.free_indices.pop();
        let e = match popped {
            Some(index) => {
                let i = index as usize;
                assert(before.free_list()[before.free_list().len() - 1] == index);
                let generation = self.entities[i].generation + 1;
                self.entities.set(i, EntityMeta { generation, alive: true, archetype_id: None });
                proof {
                    lemma_count_true_update(before.alive_flags(), i as int, true);
                    assert(self.alive_flags() == before.alive_flags().update(i as int, true));
                }
                Entity::new(index, generation)
            },
            None => {
                let index = self.next_index;
                self.next_index = index + 1;
                self.entities.push(EntityMeta { generation: 0, alive: true, archetype_id: None });
                proof {
                    lemma_count_true_push(before.alive_flags(), true);
                    assert(self.alive_flags() == before.alive_flags().push(true));
                }
                Entity::new(index, 0)
            },
        };
        proof {
            let ei = e.spec_index() as int;
            assert(self.same_storage(&before));
            assert forall|i: int| 0 <= i < self.record_count() implies #[trigger] self.record_ok(
                i,
            ) by {
                if i != ei {
                    assert(before.record_ok(i));
                    assert(self.entity_at(i) == before.entity_at(i));
                }
            }
            assert forall|a: int, r: int|
                0 <= a < self.archetype_count() && 0 <= r < self.archetype(
                    a,
                ).members().len() implies #[trigger] self.member_ok(a, r) by {
                assert(before.member_ok(a, r));
                let x = before.archetype(a).members()[r];
                assert(before.record_ok(x.spec_index() as int));
            }
            assert forall|k: int| 0 <= k < self.free_list().len() implies (
            #[trigger] self.free_list()[k] as int) < self.record_count() && !self.alive_at(
                self.free_list()[k] as int,
            ) by {
                assert(before.free_list()[k] == self.free_list()[k]);
                if before.free_list().len() > 0 {
                    assert(before.free_list()[k] != before.free_list()[before.free_list().len()
                        - 1]);
                }
            }
            assert forall|x: Entity| x != e implies self.alive(x) == before.alive(x) by {
                if x.spec_index() == e.spec_index() && x.spec_generation() == e.spec_generation() {
                    Entity::lemma_ext(x, e);
                }
            }
            assert forall|x: Entity| x != e implies self.components(x) == before.components(
                x,
            ) by {
                if x.spec_index() == e.spec_index() && x.spec_generation() == e.spec_generation() {
                    Entity::lemma_ext(x, e);
                }
            }
        }
        e
    }

    /// Spawn a new entity if one can be handed out: `None`, changing
    /// nothing, when no index waits for reuse and all indices are in use.
    pub fn try_spawn(&mut self) -> (spawned: Option<Entity>)
        requires
            old(self).wf(),
        ensures
            final(self).wf(),
            spawned is Some <==> old(self).can_spawn(),
            spawned matches Some(e) ==> World::spawned(old(self), final(self), e),
            spawned is None ==> *final(self) == *old(self),
    {
        if self.can_spawn_now() {
            Some(self.spawn())
        } else {
            None
        }
    }

    /// Despawn an entity.
    ///
    /// Returns `false`, and changes nothing, when `entity` is not alive: its
    /// index was never used, it is already dead, or its generation is stale.
    /// Otherwise the entity is taken out of its archetype (its row and
    /// component cells are removed and the row index is corrected), the
    /// record is marked dead and the index is pushed onto the free list. An
    /// index whose generations are used up is not pushed: it is never used
    /// again, so that no stale reference can come back to life.
    pub fn despawn(&mut self, entity: Entity) -> (ok: bool)
        requires
            old(self).wf(),
        ensures
            final(self).wf(),
            World::despawned(old(self), final(self), entity, ok),
    {
        if !self.is_alive(entity) {
            return false;
        }
        let ghost before = *self;
        let index = entity.index() as usize;
        if self.entities[index].archetype_id.is_some() {
            let _cells = self.detach(index);
        }
        let ghost mid = *self;
        proof {
            assert(mid.same_records_but_home(&before, index as int));
            assert(mid.same_archetype_types(&before));
            assert(mid.home_of(index as int) is None);
            assert forall|i: int| 0 <= i < mid.alive_flags().len() implies mid.alive_flags()[i]
                == before.alive_flags()[i] by {
                assert(mid.alive_at(i) == before.alive_at(i));
            }
            assert(mid.alive_flags() =~= before.alive_flags());
            assert forall|x: Entity| x != entity implies #[trigger] mid.components(x)
                == before.components(x) by {
                if x.spec_index() == entity.spec_index() {
                    if x.spec_generation() == entity.spec_generation() {
                        Entity::lemma_ext(x, entity);
                    }
                }
            }
        }
        let generation = self.entities[index].generation;
        self.entities.set(index, EntityMeta { generation, alive: false, archetype_id: None });
        if generation < u32::MAX {
            self.free_indices.push(entity.index());
        }
        proof {
            assert(mid.generation_at(index as int) == before.generation_at(index as int));
            assert(generation == entity.spec_generation());
            assert(mid.free_list() == before.free_list());
            lemma_count_true_update(mid.alive_flags(), index as int, false);
            assert(self.alive_flags() == mid.alive_flags().update(index as int, false));
            assert forall|i: int| 0 <= i < self.record_count() implies self.entity_at(i)
                == mid.entity_at(i) by {}
            assert forall|i: int| 0 <= i < self.record_count() implies #[trigger] self.record_ok(
                i,
            ) by {
                assert(mid.record_ok(i));
            }
            assert forall|a: int, r: int|
                0 <= a < self.archetype_count() && 0 <= r < self.archetype(
                    a,
                ).members().len() implies #[trigger] self.member_ok(a, r) by {
                assert(mid.member_ok(a, r));
            }
            assert forall|i: int| 0 <= i < self.record_count() implies #[trigger] self.generation_at(
                i,
            ) == before.generation_at(i) by {
                assert(mid.generation_at(i) == before.generation_at(i));
            }
            assert forall|x: Entity| x != entity implies self.alive(x) == before.alive(x) by {
                let xi = x.spec_index() as int;
                if xi < self.record_count() {
                    assert(mid.generation_at(xi) == before.generation_at(xi));
                    assert(mid.alive_at(xi) == before.alive_at(xi));
                }
                if x.spec_index() == entity.spec_index() && x.spec_generation()
                    == entity.spec_generation() {
                    Entity::lemma_ext(x, entity);
                }
            }
            assert forall|a: int| 0 <= a < self.archetype_count() implies (
            #[trigger] self.archetype(a)).types() == before.archetype(a).types() by {
                assert(mid.archetype(a).types() == before.archetype(a).types());
            }
            assert forall|x: Entity| x != entity implies #[trigger] self.components(x)
                == before.components(x) by {
                assert(mid.components(x) == before.components(x));
                if x.spec_index() == entity.spec_index() && x.spec_generation()
                    == entity.spec_generation() {
                    Entity::lemma_ext(x, entity);
                }
            }
            assert forall|k: int| 0 <= k < self.free_list().len() implies (
            #[trigger] self.free_list()[k] as int) < self.record_count() && !self.alive_at(
                self.free_list()[k] as int,
            ) by {
                if k < mid.free_list().len() {
                    assert(mid.free_list()[k] == self.free_list()[k]);
                }
            }
            assert(self.free_list().no_duplicates()) by {
                assert forall|p: int, q: int|
                    0 <= p < self.free_list().len() && 0 <= q < self.free_list().len() && p
                        != q implies self.free_list()[p] != self.free_list()[q] by {
                    if p < mid.free_list().len() {
                        assert(mid.free_list()[p] == self.free_list()[p]);
                    }
                    if q < mid.free_list().len() {
                        assert(mid.free_list()[q] == self.free_list()[q]);
                    }
                }
            }
            assert(mid.wf());
            assert forall|x: Entity| #[trigger] self.rows().contains_key(x.key()) implies self.stored(
                x,
            ) by {
                assert(mid.rows().contains_key(x.key()));
                assert(mid.stored(x));
                assert(x.spec_index() != index);
            }
            assert forall|a: int| 0 <= a < self.archetype_count() implies (
            #[trigger] self.archetype(a)).wf() && self.archetype(a).spec_id() == ArchetypeId(
                a as u32,
            ) by {
                assert(self.archetype(a) == mid.archetype(a));
            }
            assert forall|a: int, b: int| 0 <= a < b < self.archetype_count() implies (
            #[trigger] self.archetype(a)).types().to_set() != (#[trigger] self.archetype(
                b,
            )).types().to_set() by {
                assert(self.archetype(a) == mid.archetype(a));
                assert(self.archetype(b) == mid.archetype(b));
            }
        }
        true
    }

    /// Add a component to an entity.
    ///
    /// Fails when `entity` is not alive. Otherwise the entity's component set
    /// is its existing set plus `T`: the value is stored in a cell under the
    /// type key of `T`, replacing a component of that type if there was one,
    /// and the entity is homed, with all it had, in the archetype of the
    /// complete set. It also fails, changing nothing, when that archetype
    /// cannot be created any more.
    pub fn add_component<T: Component>(&mut self, entity: Entity, component: T) -> (ok: bool)
        requires
            old(self).wf(),
        ensures
            final(self).wf(),
            ok == (old(self).alive(entity) && old(self).can_home(
                old(self).components(entity).dom().insert(type_key::<T>()),
            )),
            exists|cell: ErasedComponent|
                holds(cell, component) && cell_type(cell) == type_key::<T>() && #[trigger] World::added(
                    old(self),
                    final(self),
                    entity,
                    cell,
                    ok,
                ),
            World::only_touched(old(self), final(self), entity),
            !ok ==> final(self).components(entity) == old(self).components(entity),
    {
        let cell = ErasedComponent::new(component);
        let ghost witness = cell;
        let ok = self.add_erased(entity, cell);
        proof {
            assert(World::added(old(self), self, entity, witness, ok));
        }
        ok
    }

    /// Remove the component of type `T` from an entity.
    ///
    /// Fails, changing nothing, when `entity` is not alive or holds no such
    /// component, or when the archetype of the shrunk set cannot be created
    /// any more. Otherwise the entity moves to the archetype of its set
    /// without `T`, keeping its other components, and the removed value is
    /// dropped.
    pub fn remove_component<T: Component>(&mut self, entity: Entity) -> (ok: bool)
        requires
            old(self).wf(),
        ensures
            final(self).wf(),
            World::removed(old(self), final(self), entity, type_key::<T>(), ok),
            World::only_touched(old(self), final(self), entity),
            !ok ==> final(self).components(entity) == old(self).components(entity),
    {
        let key = component_key::<T>();
        let taken = self.remove_erased(entity, &key);
        taken.is_some()
    }

    /// Get a component from an entity.
    ///
    /// `None` when the entity is not alive or holds no component of type
    /// `T`; otherwise the value in the cell that the entity holds under the
    /// type key of `T`, read through a checked downcast.
    pub fn get_component<T: Component>(&self, entity: Entity) -> (found: Option<&T>)
        requires
            self.wf(),
        ensures
            found is Some <==> self.alive(entity) && self.components(entity).contains_key(
                type_key::<T>(),
            ),
            found matches Some(value) ==> holds(self.components(entity)[type_key::<T>()], *value),
            forall|value: T|
                self.alive(entity) && self.components(entity).contains_key(type_key::<T>())
                    && #[trigger] holds(self.components(entity)[type_key::<T>()], value) ==> found
                    == Some(&value),
    {
        let key = component_key::<T>();
        match self.get_erased(entity, &key) {
            Some(cell) => {
                proof {
                    self.lemma_cell_has_its_key(entity, key);
                }
                cell.get::<T>()
            },
            None => None,
        }
    }

    /// Get a mutable component from an entity.
    ///
    /// `None` when the entity is not alive or holds no component of type
    /// `T`. Writing through the reference changes that one component and
    /// nothing else: afterwards the entity holds, under the type key of `T`,
    /// what was left behind the reference.
    pub fn get_component_mut<T: Component>(&mut self, entity: Entity) -> (found: Option<&mut T>)
        requires
            old(self).wf(),
        ensures
            final(self).wf(),
            found is Some <==> old(self).alive(entity) && old(self).components(entity).contains_key(
                type_key::<T>(),
            ),
            found matches Some(value) ==> {
                &&& holds(old(self).components(entity)[type_key::<T>()], *value)
                &&& holds(final(self).components(entity)[type_key::<T>()], *final(value))
                &&& final(self).components(entity) == old(self).components(entity).insert(
                    type_key::<T>(),
                    final(self).components(entity)[type_key::<T>()],
                )
            },
            forall|value: T|
                old(self).alive(entity) && old(self).components(entity).contains_key(
                    type_key::<T>(),
                ) && #[trigger] holds(old(self).components(entity)[type_key::<T>()], value)
                    ==> found is Some && *found.unwrap() == value,
            found is None ==> final(self).components(entity) == old(self).components(entity),
            World::only_touched(old(self), final(self), entity),
    {
        let key = component_key::<T>();
        if !self.is_alive(entity) {
            return None;
        }
        let ghost before = *self;
        let index = entity.index() as usize;
        proof {
            assert(before.record_ok(index as int));
            Entity::lemma_rebuild(entity);
            assert(before.entity_at(index as int) == entity);
        }
        let a = match self.entities[index].archetype_id {
            Some(id) => id.0 as usize,
            None => {
                return None;
            },
        };
        let row = match rows_get(&self.entity_archetype_row, entity.to_key()) {
            Some(r) => r,
            None => 0,
        };
        assert(before.archetype(a as int).wf());
        let col = match self.archetypes[a].column_of(&key) {
            Some(c) => c,
            None => {
                return None;
            },
        };
        proof {
            let types = before.archetype(a as int).types();
            let i = types.index_of(key);
            assert(types.contains(key));
            assert(types[i] == key);
            assert(before.components(entity)[key] == before.archetype(a as int).cell(
                col as int,
                row as int,
            ));
        }
        let slot = self.archetypes[a].cell_mut(col, row);
        let found = slot.downcast_mut::<T>();
        proof {
            let after = after_borrow(*self);
            World::lemma_cell_changed(&before, &after, a as int, col as int, row as int);
        }
        found
    }

    /// Check if an entity has a component.
    pub fn has_component<T: Component>(&self, entity: Entity) -> (b: bool)
        requires
            self.wf(),
        ensures
            b == (self.alive(entity) && self.components(entity).contains_key(type_key::<T>())),
    {
        let key = component_key::<T>();
        self.has_erased(entity, &key)
    }

    /// Add a component cell to an entity.
    ///
    /// Fails, changing nothing, when `entity` is not alive, or when its new
    /// component set needs an archetype that cannot be created any more.
    /// Otherwise the entity afterwards holds what it held before plus `cell`
    /// under the cell's type; a cell of the same type that it held before is
    /// replaced. When the component set grows, the entity moves to the
    /// archetype of the grown set, with all the cells it had.
    pub fn add_erased(&mut self, entity: Entity, cell: ErasedComponent) -> (ok: bool)
        requires
            old(self).wf(),
        ensures
            final(self).wf(),
            World::added(old(self), final(self), entity, cell, ok),
            World::only_touched(old(self), final(self), entity),
            !ok ==> final(self).components(entity) == old(self).components(entity),
    {
        if !self.is_alive(entity) {
            return false;
        }
        let ghost before = *self;
        let index = entity.index() as usize;
        let key = cell.content_key();
        proof {
            assert(before.record_ok(index as int));
            Entity::lemma_rebuild(entity);
            assert(before.entity_at(index as int) == entity);
        }
        match self.entities[index].archetype_id {
            Some(id) => {
                let a = id.0 as usize;
                let row = match rows_get(&self.entity_archetype_row, entity.to_key()) {
                    Some(r) => r,
                    None => 0,
                };
                assert(before.archetype(a as int).wf());
                proof {
                    before.archetype(a as int).lemma_row_cells_dom(row as int);
                }
                match self.archetypes[a].column_of(&key) {
                    Some(col) => {
                        let _prev = self.archetypes[a].replace_cell(col, row, cell);
                        proof {
                            World::lemma_cell_changed(
                                &before,
                                self,
                                a as int,
                                col as int,
                                row as int,
                            );
                            let set = before.components(entity).dom().insert(key);
                            assert(set =~= before.archetype(a as int).types().to_set());
                        }
                        return true;
                    },
                    None => {},
                }
                let target = self.archetypes[a].types_with(key);
                proof {
                    let types = before.archetype(a as int).types();
                    lemma_push_to_set(types, key);
                    assert(types.push(key).no_duplicates());
                }
                let dst = match self.find_or_create(target) {
                    Some(d) => d,
                    None => {
                        proof {
                            assert(before.components(entity).dom().insert(key).contains(key));
                            self.lemma_same_live_count(&before);
                        }
                        return false;
                    },
                };
                let ghost homed = *self;
                assert(homed.record_ok(index as int));
                let mut cells = self.detach(index);
                cells.push(cell);
                let ghost loose = *self;
                proof {
                    let types = before.archetype(a as int).types();
                    assert(loose.archetype(dst as int).wf());
                    assert(loose.archetype(dst as int).types() == homed.archetype(
                        dst as int,
                    ).types());
                    assert(homed.archetype(a as int) == before.archetype(a as int));
                    assert forall|j: int| 0 <= j < types.len() implies cells@[j]
                        == before.archetype(a as int).cell(j, row as int) && cell_type(cells@[j])
                        == types[j] by {}
                    assert(cells@[types.len() as int] == cell);
                    lemma_arrange_ready(cells@, types.push(key), loose.archetype(dst as int).types());
                }
                let ordered = self.archetypes[dst].arrange(cells);
                self.attach(index, dst, ordered);
                proof {
                    let types = before.archetype(a as int).types();
                    let dst_types = loose.archetype(dst as int).types();
                    assert(loose.entity_at(index as int) == entity);
                    lemma_arranged_map(cells@, types.push(key), ordered@, dst_types);
                    assert(World::cells_as_map(types.push(key), cells@) =~= before.components(
                        entity,
                    ).insert(key, cell)) by {
                        assert forall|k: TypeId| types.contains(k) implies types.push(
                            key,
                        ).index_of(k) == types.index_of(k) by {
                            let i = types.index_of(k);
                            assert(types.push(key)[i] == k);
                        }
                        assert(types.push(key)[types.len() as int] == key);
                        assert forall|k: TypeId| types.push(key).contains(k) implies (
                        types.contains(k) || k == key) by {
                            let i = types.push(key).index_of(k);
                            if i < types.len() {
                                assert(types[i] == k);
                            }
                        }
                    }
                    self.lemma_moved(&before, &homed, &loose, entity);
                }
                true
            },
            None => {
                let mut target = TypeList::new();
                target.push(key);
                proof {
                    assert(type_seq(target) =~= seq![key]);
                    assert(seq![key] =~= Seq::<TypeId>::empty().push(key));
                    lemma_push_to_set(Seq::<TypeId>::empty(), key);
                    assert(Seq::<TypeId>::empty().to_set() =~= Set::<TypeId>::empty());
                    assert(before.components(entity).dom() =~= Set::<TypeId>::empty());
                }
                let dst = match self.find_or_create(target) {
                    Some(d) => d,
                    None => {
                        proof {
                            assert(before.components(entity).dom().insert(key).contains(key));
                            self.lemma_same_live_count(&before);
                        }
                        return false;
                    },
                };
                let ghost homed = *self;
                let mut cells: Vec<ErasedComponent> = Vec::new();
                cells.push(cell);
                proof {
                    assert(homed.archetype(dst as int).wf());
                    assert(cells@ =~= seq![cell]);
                    lemma_arrange_ready(cells@, seq![key], homed.archetype(dst as int).types());
                }
                let ordered = self.archetypes[dst].arrange(cells);
                self.attach(index, dst, ordered);
                proof {
                    let dst_types = homed.archetype(dst as int).types();
                    assert(homed.entity_at(index as int) == entity);
                    lemma_arranged_map(cells@, seq![key], ordered@, dst_types);
                    assert(World::cells_as_map(seq![key], cells@) =~= before.components(
                        entity,
                    ).insert(key, cell)) by {
                        assert(seq![key][0] == key);
                        assert(seq![key].contains(key));
                    }
                    self.lemma_moved(&before, &homed, &homed, entity);
                }
                true
            },
        }
    }

    /// Remove the component cell of type `key` from an entity and hand it
    /// back.
    ///
    /// Returns `None`, changing nothing, when `entity` is not alive, when it
    /// holds no component of that type, or when the shrunk component set
    /// needs an archetype that cannot be created any more. Otherwise the
    /// entity moves to the archetype of its set without `key`, keeping all
    /// its other cells; an entity left without components sits in no
    /// archetype.
    pub fn remove_erased(&mut self, entity: Entity, key: &TypeId) -> (taken: Option<
        ErasedComponent,
    >)
        requires
            old(self).wf(),
        ensures
            final(self).wf(),
            World::removed(old(self), final(self), entity, *key, taken is Some),
            World::only_touched(old(self), final(self), entity),
            taken matches Some(c) ==> c == old(self).components(entity)[*key],
            taken is None ==> final(self).components(entity) == old(self).components(entity),
    {
        if !self.is_alive(entity) {
            return None;
        }
        let ghost before = *self;
        let index = entity.index() as usize;
        proof {
            assert(before.record_ok(index as int));
            Entity::lemma_rebuild(entity);
            assert(before.entity_at(index as int) == entity);
        }
        let a = match self.entities[index].archetype_id {
            Some(id) => id.0 as usize,
            None => {
                return None;
            },
        };
        let row = match rows_get(&self.entity_archetype_row, entity.to_key()) {
            Some(r) => r,
            None => 0,
        };
        assert(before.archetype(a as int).wf());
        let ghost types = before.archetype(a as int).types();
        proof {
            before.archetype(a as int).lemma_row_cells_dom(row as int);
        }
        let col = match self.archetypes[a].column_of(key) {
            Some(c) => c,
            None => {
                return None;
            },
        };
        proof {
            lemma_remove_to_set(types, col as int);
            assert(types.index_of(*key) == col) by {
                let i = types.index_of(*key);
                assert(types.contains(*key));
                assert(types[i] == *key);
            }
        }
        if self.archetypes[a].type_count() == 1 {
            let mut cells = self.detach(index);
            let taken = cells.pop();
            proof {
                assert(types.remove(col as int) =~= Seq::<TypeId>::empty());
                assert(Seq::<TypeId>::empty().to_set() =~= Set::<TypeId>::empty());
                assert(self.components(entity) =~= before.components(entity).remove(*key));
                self.lemma_moved(&before, &before, self, entity);
            }
            return taken;
        }
        let target = self.archetypes[a].types_without(col);
        let dst = match self.find_or_create(target) {
            Some(d) => d,
            None => {
                proof {
                    assert(types.remove(col as int).len() > 0);
                    assert(types.remove(col as int).to_set().contains(types.remove(col as int)[0]));
                    self.lemma_same_live_count(&before);
                }
                return None;
            },
        };
        let ghost homed = *self;
        assert(homed.record_ok(index as int));
        let mut cells = self.detach(index);
        let ghost row_cells = cells@;
        let taken = cells.remove(col);
        let ghost loose = *self;
        proof {
            assert(loose.archetype(dst as int).wf());
            assert(loose.archetype(dst as int).types() == homed.archetype(dst as int).types());
            assert(homed.archetype(a as int) == before.archetype(a as int));
            assert forall|j: int| 0 <= j < types.len() implies row_cells[j] == before.archetype(
                a as int,
            ).cell(j, row as int) && cell_type(row_cells[j]) == types[j] by {}
            assert forall|j: int| 0 <= j < cells@.len() implies cell_type(#[trigger] cells@[j])
                == types.remove(col as int)[j] by {
                let j_old = if j < col {
                    j
                } else {
                    j + 1
                };
                assert(cells@[j] == row_cells[j_old]);
            }
            lemma_arrange_ready(
                cells@,
                types.remove(col as int),
                loose.archetype(dst as int).types(),
            );
        }
        let ordered = self.archetypes[dst].arrange(cells);
        self.attach(index, dst, ordered);
        proof {
            let dst_types = loose.archetype(dst as int).types();
            let less = types.remove(col as int);
            assert(loose.entity_at(index as int) == entity);
            lemma_arranged_map(cells@, less, ordered@, dst_types);
            assert(World::cells_as_map(less, cells@) =~= before.components(entity).remove(*key)) by {
                assert forall|k: TypeId| less.contains(k) implies types.contains(k) && k != *key
                    && cells@[less.index_of(k)] == row_cells[types.index_of(k)] by {
                    let p = less.index_of(k);
                    assert(less[p] == k);
                    let p_old = if p < col {
                        p
                    } else {
                        p + 1
                    };
                    assert(types[p_old] == k);
                    let i = types.index_of(k);
                    assert(types[i] == k);
                    assert(i == p_old);
                    assert(cells@[p] == row_cells[p_old]);
                }
                assert forall|k: TypeId| types.contains(k) && k != *key implies less.contains(
                    k,
                ) by {
                    assert(types.to_set().remove(*key).contains(k));
                    assert(less.to_set().contains(k));
                }
            }
            self.lemma_moved(&before, &homed, &loose, entity);
        }
        Some(taken)
    }

    /// Get the component cell of type `key` of an entity.
    ///
    /// `None` when the entity is not alive or holds no component of that
    /// type.
    pub fn get_erased(&self, entity: Entity, key: &TypeId) -> (found: Option<&ErasedComponent>)
        requires
            self.wf(),
        ensures
            found is Some == (self.alive(entity) && self.components(entity).contains_key(*key)),
            found matches Some(c) ==> *c == self.components(entity)[*key],
    {
        if !self.is_alive(entity) {
            return None;
        }
        let index = entity.index() as usize;
        proof {
            assert(self.record_ok(index as int));
            Entity::lemma_rebuild(entity);
            assert(self.entity_at(index as int) == entity);
        }
        let a = match self.entities[index].archetype_id {
            Some(id) => id.0 as usize,
            None => {
                return None;
            },
        };
        let row = match rows_get(&self.entity_archetype_row, entity.to_key()) {
            Some(r) => r,
            None => 0,
        };
        assert(self.archetype(a as int).wf());
        match self.archetypes[a].column_of(key) {
            Some(col) => {
                proof {
                    let types = self.archetype(a as int).types();
                    let i = types.index_of(*key);
                    assert(types.contains(*key));
                    assert(types[i] == *key);
                }
                Some(self.archetypes[a].cell_ref(col, row))
            },
            None => None,
        }
    }

    /// Check if an entity holds a component of type `key`.
    pub fn has_erased(&self, entity: Entity, key: &TypeId) -> (b: bool)
        requires
            self.wf(),
        ensures
            b == (self.alive(entity) && self.components(entity).contains_key(*key)),
    {
        if !self.is_alive(entity) {
            return false;
        }
        let index = entity.index() as usize;
        proof {
            assert(self.record_ok(index as int));
        }
        match self.entities[index].archetype_id {
            Some(id) => {
                let a = id.0 as usize;
                self.archetypes[a].contains_type(key)
            },
            None => false,
        }
    }

    /// Look up the archetype whose type set is that of `target`.
    fn find_archetype(&self, target: &TypeList) -> (found: Option<usize>)
        requires
            self.wf(),
            type_seq(*target).no_duplicates(),
        ensures
            match found {
                Some(a) => a < self.archetype_count() && self.archetype(a as int).types().to_set()
                    == type_seq(*target).to_set(),
                None => !self.has_archetype(type_seq(*target).to_set()),
            },
    {
        let n = self.archetypes.len();
        let mut a: usize = 0;
        while a < n
            invariant
                a <= n,
                n == self.archetype_count(),
                self.wf(),
                type_seq(*target).no_duplicates(),
                forall|b: int|
                    0 <= b < a ==> (#[trigger] self.archetype(b)).types().to_set() != type_seq(
                        *target,
                    ).to_set(),
            decreases n - a,
        {
            assert(self.archetype(a as int).wf());
            if self.archetypes[a].has_exactly(target) {
                return Some(a);
            }
            a += 1;
        }
        None
    }

    /// Look up the archetype for the type set of `target`, creating it when
    /// there is none. Archetype identity is a function of the type set: the
    /// same set always yields the same archetype. Returns `None`, leaving
    /// the world as it was, when a new archetype is needed and no identifier
    /// is left.
    fn find_or_create(&mut self, target: TypeList) -> (found: Option<usize>)
        requires
            old(self).wf(),
            type_seq(target).no_duplicates(),
        ensures
            final(self).wf(),
            final(self).same_records_but_home(old(self), -1),
            final(self).rows() == old(self).rows(),
            old(self).archetype_count() <= final(self).archetype_count() <= old(
                self,
            ).archetype_count() + 1,
            forall|a: int|
                0 <= a < old(self).archetype_count() ==> #[trigger] final(self).archetype(a)
                    == old(self).archetype(a),
            found is Some <==> old(self).has_archetype(type_seq(target).to_set()) || old(
                self,
            ).archetype_count() < u32::MAX,
            found is None ==> final(self).archetype_count() == old(self).archetype_count(),
            found matches Some(a) ==> a < final(self).archetype_count() && final(self).archetype(
                a as int,
            ).types().to_set() == type_seq(target).to_set(),
            forall|x: Entity| #[trigger] final(self).components(x) == old(self).components(x),
    {
        let ghost before = *self;
        match self.find_archetype(&target) {
            Some(a) => {
                assert(self.has_archetype(type_seq(target).to_set()));
                return Some(a);
            },
            None => {},
        }
        if self.next_archetype_id == u32::MAX {
            return None;
        }
        let id = self.next_archetype_id;
        let fresh = Archetype::new(ArchetypeId(id), target);
        self.next_archetype_id = id + 1;
        self.archetypes.push(fresh);
        proof {
            assert forall|a: int| 0 <= a < before.archetype_count() implies #[trigger] self.archetype(
                a,
            ) == before.archetype(a) by {}
            assert forall|i: int| 0 <= i < self.record_count() implies self.entity_at(i)
                == before.entity_at(i) by {}
            assert forall|i: int| 0 <= i < self.record_count() implies #[trigger] self.record_ok(
                i,
            ) by {
                assert(before.record_ok(i));
            }
            assert forall|a: int, r: int|
                0 <= a < self.archetype_count() && 0 <= r < self.archetype(
                    a,
                ).members().len() implies #[trigger] self.member_ok(a, r) by {
                assert(before.member_ok(a, r));
            }
            assert forall|a: int, b: int| 0 <= a < b < self.archetype_count() implies (
            #[trigger] self.archetype(a)).types().to_set() != (#[trigger] self.archetype(
                b,
            )).types().to_set() by {
                if b < before.archetype_count() {
                    assert(before.archetype(a).types().to_set() != before.archetype(
                        b,
                    ).types().to_set());
                } else {
                    assert(before.archetype(a).types().to_set() != type_seq(target).to_set());
                }
            }
            assert forall|a: int| 0 <= a < self.archetype_count() implies (
            #[trigger] self.archetype(a)).wf() && self.archetype(a).spec_id() == ArchetypeId(
                a as u32,
            ) by {
                if a < before.archetype_count() {
                    assert(before.archetype(a).wf());
                }
            }
            assert forall|x: Entity| #[trigger] self.components(x) == before.components(x) by {
                let xi = x.spec_index() as int;
                if before.alive(x) && before.home_of(xi) is Some {
                    assert(before.record_ok(xi));
                }
            }
            assert forall|x: Entity| #[trigger] self.rows().contains_key(x.key()) implies self.stored(
                x,
            ) by {
                assert(before.rows().contains_key(x.key()));
                assert(before.stored(x));
            }
        }
        Some(id as usize)
    }

    /// Take the live entity at record `index` out of the archetype it sits
    /// in: its row is removed by swap-remove, the entity that moved into the
    /// vacated row gets its row index corrected, and the record names no
    /// archetype afterwards. Returns the cells of the removed row, in the
    /// archetype's column order.
    fn detach(&mut self, index: usize) -> (cells: Vec<ErasedComponent>)
        requires
            old(self).wf(),
            index < old(self).record_count(),
            old(self).home_of(index as int) is Some,
        ensures
            final(self).wf(),
            final(self).home_of(index as int) is None,
            final(self).same_records_but_home(old(self), index as int),
            final(self).same_archetype_types(old(self)),
            cells@.len() == old(self).archetype(old(self).home_of(index as int).unwrap()).types().len(),
            forall|j: int|
                0 <= j < cells@.len() ==> #[trigger] cells@[j] == old(self).archetype(
                    old(self).home_of(index as int).unwrap(),
                ).cell(j, old(self).rows()[old(self).entity_at(index as int).key()] as int),
            forall|x: Entity|
                x.spec_index() != index ==> #[trigger] final(self).components(x) == old(
                    self,
                ).components(x),
    {
        let ghost before = *self;
        assert(before.record_ok(index as int));
        let generation = self.entities[index].generation;
        let alive = self.entities[index].alive;
        let e = Entity::new(index as u32, generation);
        let a = match self.entities[index].archetype_id {
            Some(id) => id.0 as usize,
            None => 0,
        };
        let key = e.to_key();
        let row = match rows_get(&self.entity_archetype_row, key) {
            Some(r) => r,
            None => 0,
        };
        assert(before.archetype(a as int).wf());
        let cells = self.archetypes[a].take_row(row);
        let ghost last = before.archetype(a as int).members().len() - 1;
        if row < self.archetypes[a].len() {
            let moved = self.archetypes[a].entity_at(row);
            assert(moved == before.archetype(a as int).members()[last]);
            rows_insert(&mut self.entity_archetype_row, moved.to_key(), row);
        }
        rows_remove(&mut self.entity_archetype_row, key);
        self.entities.set(index, EntityMeta { generation, alive, archetype_id: None });
        proof {
            let old_a = before.archetype(a as int);
            let new_a = self.archetype(a as int);
            assert(new_a.members() == swap_removed(old_a.members(), row as int));
            assert forall|b: int| 0 <= b < self.archetype_count() && b != a implies self.archetype(
                b,
            ) == before.archetype(b) by {}
            assert forall|i: int| 0 <= i < self.record_count() implies self.entity_at(i)
                == before.entity_at(i) by {}
            // Where every entity other than `e` sits now.
            assert forall|x: Entity|
                x != e && before.alive(x) && before.home_of(x.spec_index() as int) is Some
                    && before.record_ok(x.spec_index() as int) implies {
                let h = before.home_of(x.spec_index() as int).unwrap();
                let r_old = before.rows()[x.key()] as int;
                let r_new = self.rows()[x.key()] as int;
                &&& self.rows().contains_key(x.key())
                &&& h != a ==> r_new == r_old
                &&& h == a ==> r_old != row && r_new == (if r_old == last {
                    row as int
                } else {
                    r_old
                })
            } by {
                let xi = x.spec_index() as int;
                Entity::lemma_rebuild(x);
                assert(before.entity_at(xi) == x);
                if x.key() == key {
                    Entity::lemma_key_injective(x, e);
                }
                let h = before.home_of(xi).unwrap();
                let r_old = before.rows()[x.key()] as int;
                let m = before.archetype(a as int).members()[last];
                if h == a {
                    assert(before.member_ok(a as int, row as int));
                    if r_old == last {
                    } else {
                        assert(before.member_ok(a as int, last));
                        if x.key() == m.key() {
                            Entity::lemma_key_injective(x, m);
                        }
                    }
                } else {
                    assert(before.member_ok(a as int, last));
                    if x.key() == m.key() {
                        Entity::lemma_key_injective(x, m);
                    }
                }
            }
            assert forall|i: int| 0 <= i < self.record_count() implies #[trigger] self.record_ok(
                i,
            ) by {
                assert(before.record_ok(i));
                if i != index && before.home_of(i) is Some {
                    let x = before.entity_at(i);
                    Entity::lemma_parts(i as u32, before.generation_at(i));
                    if x == e {
                    }
                    assert(before.alive(x));
                }
            }
            assert forall|x: Entity| #[trigger] self.rows().contains_key(x.key()) implies self.stored(
                x,
            ) by {
                if x.key() == key {
                    Entity::lemma_key_injective(x, e);
                }
                let m = before.archetype(a as int).members()[last];
                assert(before.member_ok(a as int, last));
                if x.key() == m.key() {
                    Entity::lemma_key_injective(x, m);
                }
                assert(before.stored(x));
                if x.spec_index() == index {
                    Entity::lemma_ext(x, e);
                }
            }
            assert forall|b: int, r: int|
                0 <= b < self.archetype_count() && 0 <= r < self.archetype(
                    b,
                ).members().len() implies #[trigger] self.member_ok(b, r) by {
                let r_old = if b == a && r == row {
                    last
                } else {
                    r
                };
                assert(before.member_ok(b, r_old));
                let x = before.archetype(b).members()[r_old];
                assert(self.archetype(b).members()[r] == x);
                assert(before.member_ok(a as int, row as int));
                assert(before.record_ok(x.spec_index() as int));
                if x == e {
                }
            }
            assert forall|b: int, c: int| 0 <= b < c < self.archetype_count() implies (
            #[trigger] self.archetype(b)).types().to_set() != (#[trigger] self.archetype(
                c,
            )).types().to_set() by {
                assert(before.archetype(b).types().to_set() != before.archetype(
                    c,
                ).types().to_set());
            }
            assert forall|x: Entity| x.spec_index() != index implies #[trigger] self.components(x)
                == before.components(x) by {
                let xi = x.spec_index() as int;
                if before.alive(x) && before.home_of(xi) is Some {
                    assert(before.record_ok(xi));
                    let h = before.home_of(xi).unwrap();
                    let r_old = before.rows()[x.key()] as int;
                    let r_new = self.rows()[x.key()] as int;
                    Entity::lemma_rebuild(x);
                    assert(before.entity_at(xi) == x);
                    if h == a {
                        assert(self.archetype(h).row_cells(r_new) =~= before.archetype(h).row_cells(
                            r_old,
                        ));
                    }
                }
            }
            assert forall|b: int| 0 <= b < self.archetype_count() implies (
            #[trigger] self.archetype(b)).wf() && self.archetype(b).spec_id() == ArchetypeId(
                b as u32,
            ) by {
                assert(before.archetype(b).wf());
                if b != a {
                    assert(self.archetype(b) == before.archetype(b));
                }
            }
        }
        cells
    }

    /// Home the live entity at record `index`, which sits in no archetype,
    /// into archetype `a`: a row is appended with the given cells (one per
    /// column, in column order), and the record and the row index are set.
    fn attach(&mut self, index: usize, a: usize, cells: Vec<ErasedComponent>)
        requires
            old(self).wf(),
            index < old(self).record_count(),
            old(self).alive_at(index as int),
            old(self).home_of(index as int) is None,
            a < old(self).archetype_count(),
            cells@.len() == old(self).archetype(a as int).types().len(),
            forall|j: int|
                0 <= j < cells@.len() ==> cell_type(#[trigger] cells@[j]) == old(self).archetype(
                    a as int,
                ).types()[j],
        ensures
            final(self).wf(),
            final(self).home_of(index as int) == Some(a as int),
            final(self).same_records_but_home(old(self), index as int),
            final(self).same_archetype_types(old(self)),
            final(self).components(old(self).entity_at(index as int)) == World::cells_as_map(
                old(self).archetype(a as int).types(),
                cells@,
            ),
            forall|x: Entity|
                x.spec_index() != index ==> #[trigger] final(self).components(x) == old(
                    self,
                ).components(x),
    {
        let ghost before = *self;
        let generation = self.entities[index].generation;
        let e = Entity::new(index as u32, generation);
        let key = e.to_key();
        assert(before.archetype(a as int).wf());
        let row = self.archetypes[a].len();
        self.archetypes[a].push_row(e, cells);
        rows_insert(&mut self.entity_archetype_row, key, row);
        self.entities.set(
            index,
            EntityMeta { generation, alive: true, archetype_id: Some(ArchetypeId(a as u32)) },
        );
        proof {
            let old_a = before.archetype(a as int);
            let new_a = self.archetype(a as int);
            assert(new_a.members() == old_a.members().push(e));
            assert forall|i: int| 0 <= i < self.record_count() implies self.entity_at(i)
                == before.entity_at(i) by {}
            assert(before.entity_at(index as int) == e);
            // No other stored entity shares the key of `e`.
            assert forall|x: Entity|
                x != e && before.alive(x) && before.home_of(x.spec_index() as int)
                    is Some implies x.key() != key by {
                if x.key() == key {
                    Entity::lemma_key_injective(x, e);
                }
            }
            assert forall|b: int| 0 <= b < self.archetype_count() implies (
            #[trigger] self.archetype(b)).wf() && self.archetype(b).spec_id() == ArchetypeId(
                b as u32,
            ) by {
                assert(before.archetype(b).wf());
                if b != a {
                    assert(self.archetype(b) == before.archetype(b));
                }
            }
            assert forall|b: int, c: int| 0 <= b < c < self.archetype_count() implies (
            #[trigger] self.archetype(b)).types().to_set() != (#[trigger] self.archetype(
                c,
            )).types().to_set() by {
                assert(before.archetype(b).types().to_set() != before.archetype(
                    c,
                ).types().to_set());
                if b != a {
                    assert(self.archetype(b) == before.archetype(b));
                }
                if c != a {
                    assert(self.archetype(c) == before.archetype(c));
                }
            }
            assert forall|i: int| 0 <= i < self.record_count() implies #[trigger] self.record_ok(
                i,
            ) by {
                assert(before.record_ok(i));
                if i != index && before.home_of(i) is Some {
                    let x = before.entity_at(i);
                    Entity::lemma_parts(i as u32, before.generation_at(i));
                    assert(before.alive(x));
                    let h = before.home_of(i).unwrap();
                    if h != a {
                        assert(self.archetype(h) == before.archetype(h));
                    }
                }
            }
            assert forall|b: int, r: int|
                0 <= b < self.archetype_count() && 0 <= r < self.archetype(
                    b,
                ).members().len() implies #[trigger] self.member_ok(b, r) by {
                if b != a {
                    assert(self.archetype(b) == before.archetype(b));
                }
                if b == a && r == row {
                    Entity::lemma_parts(index as u32, generation);
                } else {
                    assert(before.member_ok(b, r));
                    let x = before.archetype(b).members()[r];
                    assert(self.archetype(b).members()[r] == x);
                    if x == e {
                        Entity::lemma_parts(index as u32, generation);
                    }
                }
            }
            assert forall|x: Entity| x.spec_index() != index implies #[trigger] self.components(x)
                == before.components(x) by {
                let xi = x.spec_index() as int;
                if before.alive(x) && before.home_of(xi) is Some {
                    assert(before.record_ok(xi));
                    let h = before.home_of(xi).unwrap();
                    let r_old = before.rows()[x.key()] as int;
                    Entity::lemma_rebuild(x);
                    assert(before.entity_at(xi) == x);
                    if x == e {
                        Entity::lemma_parts(index as u32, generation);
                    }
                    if h == a {
                        assert(self.archetype(h).row_cells(r_old) =~= before.archetype(h).row_cells(
                            r_old,
                        ));
                    } else {
                        assert(self.archetype(h) == before.archetype(h));
                    }
                }
            }
            Entity::lemma_parts(index as u32, generation);
            assert(self.alive(e));
            assert forall|x: Entity| #[trigger] self.rows().contains_key(x.key()) implies self.stored(
                x,
            ) by {
                if x.key() == key {
                    Entity::lemma_key_injective(x, e);
                } else {
                    assert(before.rows().contains_key(x.key()));
                    assert(before.stored(x));
                    assert(x.spec_index() != index);
                }
            }
            assert(self.components(e) =~= World::cells_as_map(old_a.types(), cells@));
        }
    }

    /// A cell that an entity holds under a key has that key as its type key.
    pub proof fn lemma_cell_has_its_key(&self, e: Entity, key: TypeId)
        requires
            self.wf(),
            self.components(e).contains_key(key),
        ensures
            cell_type(self.components(e)[key]) == key,
    {
        let index = e.spec_index() as int;
        assert(self.alive(e));
        assert(self.record_ok(index));
        let a = self.home_of(index).unwrap();
        Entity::lemma_rebuild(e);
        assert(self.entity_at(index) == e);
        let row = self.rows()[e.key()] as int;
        let types = self.archetype(a).types();
        assert(self.archetype(a).wf());
        let col = types.index_of(key);
        assert(types.contains(key));
        assert(types[col] == key);
        assert(cell_type(self.archetype(a).cell(col, row)) == types[col]);
    }

    /// A world that differs from a well-formed one in a single cell, which
    /// kept its type, is well-formed too; the entity of that row has the new
    /// cell under the column's type, and nothing else has changed.
    proof fn lemma_cell_changed(before: &World, after: &World, a: int, col: int, row: int)
        requires
            before.wf(),
            after.same_records_but_home(before, -1),
            after.counters_ok(),
            after.rows() == before.rows(),
            after.archetype_count() == before.archetype_count(),
            0 <= a < before.archetype_count(),
            0 <= col < before.archetype(a).types().len(),
            0 <= row < before.archetype(a).members().len(),
            forall|b: int|
                0 <= b < before.archetype_count() && b != a ==> #[trigger] after.archetype(b)
                    == before.archetype(b),
            after.archetype(a).types() == before.archetype(a).types(),
            after.archetype(a).members() == before.archetype(a).members(),
            after.archetype(a).spec_id() == before.archetype(a).spec_id(),
            after.archetype(a).wf(),
            forall|j: int, r: int|
                0 <= j < before.archetype(a).types().len() && 0 <= r < before.archetype(
                    a,
                ).members().len() && !(j == col && r == row) ==> #[trigger] after.archetype(
                    a,
                ).cell(j, r) == before.archetype(a).cell(j, r),
        ensures
            after.wf(),
            forall|x: Entity| after.alive(x) == before.alive(x),
            after.components(before.archetype(a).members()[row]) == before.components(
                before.archetype(a).members()[row],
            ).insert(before.archetype(a).types()[col], after.archetype(a).cell(col, row)),
            forall|x: Entity|
                x != before.archetype(a).members()[row] ==> #[trigger] after.components(x)
                    == before.components(x),
    {
        let m = before.archetype(a).members()[row];
        let types = before.archetype(a).types();
        assert(before.archetype(a).wf());
        assert(before.member_ok(a, row));
        assert forall|i: int| 0 <= i < after.record_count() implies after.entity_at(i)
            == before.entity_at(i) by {}
        assert forall|i: int| 0 <= i < after.record_count() implies #[trigger] after.record_ok(
            i,
        ) by {
            assert(before.record_ok(i));
            if before.home_of(i) is Some {
                let h = before.home_of(i).unwrap();
                if h != a {
                    assert(after.archetype(h) == before.archetype(h));
                }
            }
        }
        assert forall|b: int, r: int|
            0 <= b < after.archetype_count() && 0 <= r < after.archetype(
                b,
            ).members().len() implies #[trigger] after.member_ok(b, r) by {
            if b != a {
                assert(after.archetype(b) == before.archetype(b));
            }
            assert(before.member_ok(b, r));
        }
        assert forall|b: int| 0 <= b < after.archetype_count() implies (#[trigger] after.archetype(
            b,
        )).wf() && after.archetype(b).spec_id() == ArchetypeId(b as u32) by {
            assert(before.archetype(b).wf());
            if b != a {
                assert(after.archetype(b) == before.archetype(b));
            }
        }
        assert forall|b: int, c: int| 0 <= b < c < after.archetype_count() implies (
        #[trigger] after.archetype(b)).types().to_set() != (#[trigger] after.archetype(
            c,
        )).types().to_set() by {
            assert(before.archetype(b).types().to_set() != before.archetype(c).types().to_set());
            if b != a {
                assert(after.archetype(b) == before.archetype(b));
            }
            if c != a {
                assert(after.archetype(c) == before.archetype(c));
            }
        }
        assert forall|k: int| 0 <= k < after.free_list().len() implies (
        #[trigger] after.free_list()[k] as int) < after.record_count() && !after.alive_at(
            after.free_list()[k] as int,
        ) by {
            assert(before.free_list()[k] == after.free_list()[k]);
        }
        assert forall|x: Entity| x != m implies #[trigger] after.components(x)
            == before.components(x) by {
            let xi = x.spec_index() as int;
            if before.alive(x) && before.home_of(xi) is Some {
                assert(before.record_ok(xi));
                let h = before.home_of(xi).unwrap();
                let r_old = before.rows()[x.key()] as int;
                Entity::lemma_rebuild(x);
                assert(before.entity_at(xi) == x);
                if h == a {
                    assert(r_old != row);
                    assert(after.archetype(h).row_cells(r_old) =~= before.archetype(h).row_cells(r_old));
                } else {
                    assert(after.archetype(h) == before.archetype(h));
                }
            }
        }
        assert(after.components(m) =~= before.components(m).insert(
            types[col],
            after.archetype(a).cell(col, row),
        )) by {
            assert(types.contains(types[col]));
            assert forall|k: TypeId| types.contains(k) implies (types.index_of(k) == col <==> k
                == types[col]) by {
                let i = types.index_of(k);
                assert(types[i] == k);
            }
        }
    }

    /// Worlds whose records agree on liveness have as many live entities.
    proof fn lemma_same_live_count(&self, before: &World)
        requires
            self.record_count() == before.record_count(),
            forall|i: int|
                0 <= i < self.record_count() ==> #[trigger] self.alive_at(i) == before.alive_at(i),
        ensures
            self.live_count() == before.live_count(),
    {
        assert forall|i: int| 0 <= i < self.alive_flags().len() implies self.alive_flags()[i]
            == before.alive_flags()[i] by {
            assert(self.alive_at(i) == before.alive_at(i));
        }
        assert(self.alive_flags() =~= before.alive_flags());
    }

    /// What a move of `entity` from one archetype to another leaves
    /// untouched: `homed` is the world after the destination archetype was
    /// looked up or created, `loose` the world after the entity was taken out
    /// of its old archetype, and `self` the world after it was put into the
    /// new one.
    proof fn lemma_moved(&self, before: &World, homed: &World, loose: &World, entity: Entity)
        requires
            before.alive(entity),
            homed.same_records_but_home(before, -1),
            loose.same_records_but_home(homed, entity.spec_index() as int),
            self.same_records_but_home(loose, entity.spec_index() as int),
            before.archetype_count() <= homed.archetype_count() <= before.archetype_count() + 1,
            loose.archetype_count() == homed.archetype_count(),
            self.archetype_count() == loose.archetype_count(),
            forall|x: Entity| #[trigger] homed.components(x) == before.components(x),
            forall|x: Entity|
                x.spec_index() != entity.spec_index() ==> #[trigger] loose.components(x)
                    == homed.components(x),
            forall|x: Entity|
                x.spec_index() != entity.spec_index() ==> #[trigger] self.components(x)
                    == loose.components(x),
        ensures
            forall|x: Entity| x != entity ==> #[trigger] self.components(x) == before.components(x),
            forall|x: Entity| self.alive(x) == before.alive(x),
            self.same_records_but_home(before, entity.spec_index() as int),
            World::only_touched(before, self, entity),
    {
        self.lemma_same_live_count(before);
        assert forall|i: int| 0 <= i < self.record_count() implies #[trigger] self.generation_at(i)
            == before.generation_at(i) by {
            assert(loose.generation_at(i) == homed.generation_at(i));
        }
        assert forall|i: int| 0 <= i < self.record_count() implies #[trigger] self.alive_at(i)
            == before.alive_at(i) by {
            assert(loose.alive_at(i) == homed.alive_at(i));
        }
        assert forall|i: int|
            0 <= i < self.record_count() && i != entity.spec_index() implies #[trigger] self.home_of(
            i,
        ) == before.home_of(i) by {
            assert(loose.home_of(i) == homed.home_of(i));
        }
        assert forall|x: Entity| x != entity implies #[trigger] self.components(x)
            == before.components(x) by {
            if x.spec_index() == entity.spec_index() {
                if x.spec_generation() == entity.spec_generation() {
                    Entity::lemma_ext(x, entity);
                }
                assert(!self.alive(x));
                assert(!before.alive(x));
            } else {
                assert(loose.components(x) == homed.components(x));
                assert(homed.components(x) == before.components(x));
            }
        }
    }
}

impl Default for World {
    /// The default world is the empty world.
    fn default() -> (w: World)
        ensures
            w.wf(),
            w.record_count() == 0,
    {
        World::new()
    }
}

} // verus!
