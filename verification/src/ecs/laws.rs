//! Laws of the world: what holds across several operations, proved from the
//! operations' contracts.

use super::entity::Entity;
use super::erased::{cell_type, holds, type_key, Component, ErasedComponent};
use super::world::World;
use std::any::TypeId;
use vstd::prelude::*;

verus! {

/// Index reuse: when a live entity is despawned, while its index has a
/// generation left, and the next spawn follows, the new entity has the
/// despawned entity's index and the next generation, and the despawned entity
/// is not alive afterwards, though its index is.
pub proof fn law_index_reuse(start: &World, next: &World, last: &World, gone: Entity, fresh: Entity)
    requires
        start.wf(),
        start.alive(gone),
        gone.spec_generation() < u32::MAX,
        World::despawned(start, next, gone, true),
        World::spawned(next, last, fresh),
    ensures
        fresh.spec_index() == gone.spec_index(),
        fresh.spec_generation() == gone.spec_generation() + 1,
        !last.alive(gone),
        last.alive(fresh),
        last.live_count() == start.live_count(),
{
    let free = start.free_list().push(gone.spec_index());
    assert(free.last() == gone.spec_index());
    assert(next.generation_at(gone.spec_index() as int) == start.generation_at(
        gone.spec_index() as int,
    ));
}

/// A stale reference stays dead: once an entity has been despawned, no
/// spawn brings it back to life.
pub proof fn law_stale_stays_dead(start: &World, next: &World, stale: Entity, fresh: Entity)
    requires
        !start.alive(stale),
        World::spawned(start, next, fresh),
        stale != fresh,
    ensures
        !next.alive(stale),
{
}

/// Despawn detaches: a despawned entity holds no component, and every other
/// entity holds what it held.
pub proof fn law_despawn_detaches(start: &World, next: &World, gone: Entity, other: Entity)
    requires
        World::despawned(start, next, gone, true),
        other != gone,
    ensures
        next.components(gone) == Map::<TypeId, ErasedComponent>::empty(),
        next.components(other) == start.components(other),
        next.alive(other) == start.alive(other),
{
}

/// Round trip: after a component was added to an entity, the entity holds
/// that very cell under the cell's type.
pub proof fn law_round_trip(start: &World, next: &World, e: Entity, cell: ErasedComponent)
    requires
        World::added(start, next, e, cell, true),
    ensures
        next.components(e).contains_key(cell_type(cell)),
        next.components(e)[cell_type(cell)] == cell,
{
}

/// Components are preserved: adding a component to an entity leaves every
/// component of another type that the entity holds present and unchanged.
pub proof fn law_components_preserved(
    start: &World,
    next: &World,
    e: Entity,
    cell: ErasedComponent,
    key: TypeId,
)
    requires
        World::added(start, next, e, cell, true),
        start.components(e).contains_key(key),
        key != cell_type(cell),
    ensures
        next.components(e).contains_key(key),
        next.components(e)[key] == start.components(e)[key],
{
}

/// Adding twice keeps both: an entity that got a component of one type and
/// then one of another type holds both cells.
pub proof fn law_add_two(
    start: &World,
    middle: &World,
    end: &World,
    e: Entity,
    one: ErasedComponent,
    other: ErasedComponent,
)
    requires
        World::added(start, middle, e, one, true),
        World::added(middle, end, e, other, true),
        cell_type(one) != cell_type(other),
    ensures
        end.components(e).contains_key(cell_type(one)),
        end.components(e)[cell_type(one)] == one,
        end.components(e).contains_key(cell_type(other)),
        end.components(e)[cell_type(other)] == other,
{
}

/// Removal undoes addition: removing the type that was just added, from an
/// entity that did not hold it before, gives back what the entity held.
pub proof fn law_remove_undoes_add(
    start: &World,
    next: &World,
    last: &World,
    e: Entity,
    cell: ErasedComponent,
)
    requires
        !start.components(e).contains_key(cell_type(cell)),
        World::added(start, next, e, cell, true),
        World::removed(next, last, e, cell_type(cell), true),
    ensures
        last.components(e) == start.components(e),
{
    assert(last.components(e) =~= start.components(e));
}

/// Other entities are untouched: a change to one entity's components leaves
/// every other entity alive or dead as it was, holding what it held.
pub proof fn law_others_untouched(start: &World, next: &World, e: Entity, other: Entity)
    requires
        World::only_touched(start, next, e),
        other != e,
    ensures
        next.alive(other) == start.alive(other),
        next.components(other) == start.components(other),
{
}

/// Typed round trip: after a value of type `T` was added to an entity, the
/// entity is alive and holds that value under the type key of `T`, so that
/// `get_component::<T>` returns it.
pub proof fn law_typed_round_trip<T: Component>(
    start: &World,
    next: &World,
    e: Entity,
    cell: ErasedComponent,
    value: T,
)
    requires
        holds(cell, value),
        cell_type(cell) == type_key::<T>(),
        World::added(start, next, e, cell, true),
        World::only_touched(start, next, e),
    ensures
        next.alive(e),
        next.components(e).contains_key(type_key::<T>()),
        holds(next.components(e)[type_key::<T>()], value),
{
}

/// Typed preservation: adding a component of type `C` to an entity leaves a
/// component of another type `A` that the entity holds present, with the
/// value it had.
pub proof fn law_typed_preservation<A: Component, C: Component>(
    start: &World,
    next: &World,
    e: Entity,
    cell: ErasedComponent,
    kept: A,
)
    requires
        type_key::<A>() != type_key::<C>(),
        cell_type(cell) == type_key::<C>(),
        World::added(start, next, e, cell, true),
        World::only_touched(start, next, e),
        start.components(e).contains_key(type_key::<A>()),
        holds(start.components(e)[type_key::<A>()], kept),
    ensures
        next.alive(e),
        next.components(e).contains_key(type_key::<A>()),
        holds(next.components(e)[type_key::<A>()], kept),
{
}

/// Nothing is left of a despawned entity: the row index holds exactly the
/// live entities that are members of an archetype, and an entity that is not
/// alive holds no component.
pub proof fn law_no_leftover_rows(world: &World, x: Entity)
    requires
        world.wf(),
    ensures
        world.rows().contains_key(x.key()) <==> world.stored(x),
        !world.alive(x) ==> !world.rows().contains_key(x.key()) && world.components(x)
            == Map::<TypeId, ErasedComponent>::empty(),
{
    if world.stored(x) {
        assert(world.record_ok(x.spec_index() as int));
        Entity::lemma_rebuild(x);
        assert(world.entity_at(x.spec_index() as int) == x);
    }
}

/// Archetype identity is a function of the type set: two archetypes that
/// hold the same set of component types are one archetype, and two entities
/// with the same set of component types sit in the same archetype.
pub proof fn law_archetype_identity(world: &World, a: int, b: int)
    requires
        world.wf(),
        0 <= a < world.archetype_count(),
        0 <= b < world.archetype_count(),
        world.archetype(a).types().to_set() == world.archetype(b).types().to_set(),
    ensures
        a == b,
{
    if a < b {
        assert(world.archetype(a).types().to_set() != world.archetype(b).types().to_set());
    } else if b < a {
        assert(world.archetype(b).types().to_set() != world.archetype(a).types().to_set());
    }
}

/// Storage is columnar and in step: in every archetype each column is as
/// long as the member list, each member is alive and is found again through
/// the row index at its row, and its components are the cells of that row.
pub proof fn law_rows_in_step(world: &World, a: int, row: int)
    requires
        world.wf(),
        0 <= a < world.archetype_count(),
        0 <= row < world.archetype(a).members().len(),
    ensures
        world.archetype(a).wf(),
        world.alive(world.archetype(a).members()[row]),
        world.rows()[world.archetype(a).members()[row].key()] == row,
        world.components(world.archetype(a).members()[row]) == world.archetype(a).row_cells(row),
{
    assert(world.member_ok(a, row));
}

} // verus!
