use odeza::ecs::erased::component_key;
use odeza::ecs::{Entity, ErasedComponent, World};
use std::sync::Arc;

#[derive(Debug, Clone, PartialEq)]
struct Position {
    x: f32,
    y: f32,
    z: f32,
}

#[derive(Debug, Clone, PartialEq)]
struct Velocity {
    x: f32,
    y: f32,
    z: f32,
}

#[derive(Debug, Clone, PartialEq)]
struct Health(u32);

#[derive(Debug, Clone, PartialEq)]
struct Name(String);

#[test]
fn test_entity_creation() {
    let mut world = World::new();
    let entity = world.spawn();

    assert!(!entity.is_null());
    assert!(world.is_alive(entity));
    assert_eq!(world.entity_count(), 1);
}

#[test]
fn test_entity_despawn() {
    let mut world = World::new();
    let entity = world.spawn();

    assert!(world.despawn(entity));
    assert!(!world.is_alive(entity));
    assert_eq!(world.entity_count(), 0);
}

#[test]
fn test_entity_recycling() {
    let mut world = World::new();
    let entity1 = world.spawn();
    world.despawn(entity1);
    let entity2 = world.spawn();

    // Same index, different generation
    assert_eq!(entity1.index(), entity2.index());
    assert_ne!(entity1.generation(), entity2.generation());

    // Old entity reference is no longer valid
    assert!(!world.is_alive(entity1));
    assert!(world.is_alive(entity2));
}

#[test]
fn test_component_add_get() {
    let mut world = World::new();
    let entity = world.spawn();

    let pos = Position { x: 1.0, y: 2.0, z: 3.0 };
    assert!(world.add_component(entity, pos.clone()));

    let retrieved = world.get_component::<Position>(entity);
    assert_eq!(retrieved, Some(&pos));
}

#[test]
fn test_component_mutation() {
    let mut world = World::new();
    let entity = world.spawn();

    world.add_component(entity, Position { x: 0.0, y: 0.0, z: 0.0 });

    if let Some(pos) = world.get_component_mut::<Position>(entity) {
        pos.x = 10.0;
    }

    let pos = world.get_component::<Position>(entity).unwrap();
    assert_eq!(pos.x, 10.0);
}

#[test]
fn test_has_component() {
    let mut world = World::new();
    let entity = world.spawn();

    assert!(!world.has_component::<Position>(entity));

    world.add_component(entity, Position { x: 0.0, y: 0.0, z: 0.0 });

    assert!(world.has_component::<Position>(entity));
    assert!(!world.has_component::<Velocity>(entity));
}

#[test]
fn entity_parts_and_null() {
    let e = Entity::new(7, 3);
    assert_eq!(e.index(), 7);
    assert_eq!(e.generation(), 3);
    assert!(!e.is_null());
    assert_eq!(e.to_key(), 7 * 4_294_967_296 + 3);

    let null = Entity::null();
    assert!(null.is_null());
    assert_eq!(null.index(), u32::MAX);
    assert_eq!(null.generation(), 0);
    assert_eq!(Entity::default(), null);
    assert!(Entity::new(u32::MAX, 9).is_null());
}

#[test]
fn spawn_three_despawn_middle_reuses_index() {
    let mut world = World::new();
    let e0 = world.spawn();
    let e1 = world.spawn();
    let e2 = world.spawn();
    assert_eq!((e0.index(), e0.generation()), (0, 0));
    assert_eq!((e1.index(), e1.generation()), (1, 0));
    assert_eq!((e2.index(), e2.generation()), (2, 0));

    assert!(world.despawn(e1));
    let e3 = world.spawn();
    assert_eq!(e3.index(), 1);
    assert_eq!(e3.generation(), 1);
    assert_eq!(e3.index(), e1.index());
    assert_eq!(e3.generation(), e1.generation() + 1);
    assert!(!world.is_alive(e1));
    assert!(world.is_alive(e3));
    assert!(world.is_alive(e0));
    assert!(world.is_alive(e2));
    assert_eq!(world.entity_count(), 3);
}

#[test]
fn free_list_reuses_last_freed_first() {
    let mut world = World::new();
    let a = world.spawn();
    let b = world.spawn();
    let c = world.spawn();
    assert!(world.despawn(a));
    assert!(world.despawn(c));
    let first = world.spawn();
    let second = world.spawn();
    let third = world.spawn();
    assert_eq!((first.index(), first.generation()), (c.index(), 1));
    assert_eq!((second.index(), second.generation()), (a.index(), 1));
    assert_eq!((third.index(), third.generation()), (3, 0));
    assert!(world.is_alive(b));
}

#[test]
fn despawn_of_dead_stale_or_unknown_is_refused() {
    let mut world = World::new();
    let e = world.spawn();
    assert!(!world.despawn(Entity::new(5, 0)));
    assert!(!world.despawn(Entity::null()));
    assert!(!world.despawn(Entity::new(e.index(), e.generation() + 1)));
    assert!(world.despawn(e));
    assert!(!world.despawn(e));
    let again = world.spawn();
    assert!(!world.despawn(e));
    assert!(world.is_alive(again));
    assert_eq!(world.entity_count(), 1);
}

#[test]
fn stale_reference_is_never_alive() {
    let mut world = World::new();
    let old = world.spawn();
    world.add_component(old, Health(5));
    world.despawn(old);
    let new = world.spawn();
    assert_eq!(new.index(), old.index());
    assert!(!world.is_alive(old));
    assert!(!world.has_component::<Health>(old));
    assert_eq!(world.get_component::<Health>(old), None);
    assert!(!world.add_component(old, Health(1)));
    assert!(!world.remove_component::<Health>(old));
    assert!(world.get_component_mut::<Health>(old).is_none());
    // The entity that took the index starts without components.
    assert!(!world.has_component::<Health>(new));
    assert_eq!(world.get_component::<Health>(new), None);
}

#[test]
fn adding_a_component_keeps_the_others() {
    let mut world = World::new();
    let e = world.spawn();
    let pos = Position { x: 1.0, y: 2.0, z: 3.0 };
    let vel = Velocity { x: -1.0, y: 0.5, z: 0.0 };
    assert!(world.add_component(e, pos.clone()));
    assert!(world.add_component(e, vel.clone()));
    assert!(world.add_component(e, Health(42)));

    assert_eq!(world.get_component::<Position>(e), Some(&pos));
    assert_eq!(world.get_component::<Velocity>(e), Some(&vel));
    assert_eq!(world.get_component::<Health>(e), Some(&Health(42)));
    assert!(world.has_component::<Position>(e));
    assert!(world.has_component::<Velocity>(e));
    assert!(world.has_component::<Health>(e));
    assert!(!world.has_component::<Name>(e));
}

#[test]
fn adding_the_same_type_again_replaces_the_value() {
    let mut world = World::new();
    let e = world.spawn();
    assert!(world.add_component(e, Health(1)));
    assert!(world.add_component(e, Name("a".to_string())));
    assert!(world.add_component(e, Health(2)));
    assert_eq!(world.get_component::<Health>(e), Some(&Health(2)));
    assert_eq!(world.get_component::<Name>(e), Some(&Name("a".to_string())));
}

#[test]
fn remove_component_keeps_the_others() {
    let mut world = World::new();
    let e = world.spawn();
    world.add_component(e, Health(9));
    world.add_component(e, Name("n".to_string()));
    world.add_component(e, Position { x: 1.0, y: 1.0, z: 1.0 });

    assert!(world.remove_component::<Name>(e));
    assert!(!world.has_component::<Name>(e));
    assert_eq!(world.get_component::<Health>(e), Some(&Health(9)));
    assert_eq!(world.get_component::<Position>(e), Some(&Position { x: 1.0, y: 1.0, z: 1.0 }));

    assert!(!world.remove_component::<Name>(e));
    assert!(!world.remove_component::<Velocity>(e));

    assert!(world.remove_component::<Health>(e));
    assert!(world.remove_component::<Position>(e));
    assert!(!world.has_component::<Position>(e));
    assert!(world.is_alive(e));
    // An entity without components takes components again.
    assert!(world.add_component(e, Health(3)));
    assert_eq!(world.get_component::<Health>(e), Some(&Health(3)));
}

#[test]
fn migration_fixes_the_row_of_the_entity_that_moved() {
    let mut world = World::new();
    let mut entities = Vec::new();
    for i in 0..5u32 {
        let e = world.spawn();
        assert!(world.add_component(e, Health(i)));
        entities.push(e);
    }
    // Taking the first out of the archetype moves the last into its row.
    assert!(world.add_component(entities[0], Name("zero".to_string())));
    for i in 0..5usize {
        assert_eq!(world.get_component::<Health>(entities[i]), Some(&Health(i as u32)));
    }
    assert_eq!(world.get_component::<Name>(entities[0]), Some(&Name("zero".to_string())));
    // And again from the middle, and by despawn.
    assert!(world.add_component(entities[2], Name("two".to_string())));
    assert!(world.despawn(entities[1]));
    assert!(world.remove_component::<Name>(entities[0]));
    assert_eq!(world.get_component::<Health>(entities[0]), Some(&Health(0)));
    assert_eq!(world.get_component::<Health>(entities[1]), None);
    assert_eq!(world.get_component::<Health>(entities[2]), Some(&Health(2)));
    assert_eq!(world.get_component::<Name>(entities[2]), Some(&Name("two".to_string())));
    assert_eq!(world.get_component::<Health>(entities[3]), Some(&Health(3)));
    assert_eq!(world.get_component::<Health>(entities[4]), Some(&Health(4)));
    assert_eq!(world.entity_count(), 4);
}

#[test]
fn the_same_set_in_another_order_is_the_same_archetype() {
    let mut world = World::new();
    let a = world.spawn();
    let b = world.spawn();
    world.add_component(a, Health(1));
    world.add_component(a, Name("a".to_string()));
    world.add_component(b, Name("b".to_string()));
    world.add_component(b, Health(2));
    assert_eq!(world.get_component::<Health>(a), Some(&Health(1)));
    assert_eq!(world.get_component::<Name>(a), Some(&Name("a".to_string())));
    assert_eq!(world.get_component::<Health>(b), Some(&Health(2)));
    assert_eq!(world.get_component::<Name>(b), Some(&Name("b".to_string())));
    // Despawning one leaves the other's row in order.
    assert!(world.despawn(a));
    assert_eq!(world.get_component::<Health>(b), Some(&Health(2)));
    assert_eq!(world.get_component::<Name>(b), Some(&Name("b".to_string())));
}

#[test]
fn despawn_drops_the_components() {
    let mut world = World::new();
    let marker = Arc::new(());
    let e = world.spawn();
    let other = world.spawn();
    world.add_component(e, marker.clone());
    world.add_component(other, Health(1));
    assert_eq!(Arc::strong_count(&marker), 2);
    assert!(world.despawn(e));
    assert_eq!(Arc::strong_count(&marker), 1);
    assert_eq!(world.get_component::<Health>(other), Some(&Health(1)));
}

#[test]
fn mutation_touches_one_component_only() {
    let mut world = World::new();
    let a = world.spawn();
    let b = world.spawn();
    world.add_component(a, Health(1));
    world.add_component(a, Name("a".to_string()));
    world.add_component(b, Health(2));
    world.add_component(b, Name("b".to_string()));
    if let Some(h) = world.get_component_mut::<Health>(a) {
        h.0 = 100;
    }
    assert!(world.get_component_mut::<Velocity>(a).is_none());
    assert_eq!(world.get_component::<Health>(a), Some(&Health(100)));
    assert_eq!(world.get_component::<Name>(a), Some(&Name("a".to_string())));
    assert_eq!(world.get_component::<Health>(b), Some(&Health(2)));
}

#[test]
fn erased_cells_round_trip() {
    let mut world = World::new();
    let e = world.spawn();
    let cell = ErasedComponent::new(Health(7));
    let key = cell.key();
    assert_eq!(key, component_key::<Health>());
    assert_ne!(key, component_key::<Name>());
    assert!(cell.is_type(&key));
    assert!(!cell.is_type(&component_key::<Name>()));
    assert_eq!(cell.get::<Health>(), Some(&Health(7)));
    assert_eq!(cell.get::<Name>(), None);

    assert!(world.add_erased(e, cell));
    assert!(world.has_erased(e, &key));
    assert!(!world.has_erased(e, &component_key::<Name>()));
    assert_eq!(world.get_erased(e, &key).and_then(|c| c.get::<Health>()), Some(&Health(7)));
    assert!(world.get_erased(e, &component_key::<Name>()).is_none());

    let taken = world.remove_erased(e, &key);
    assert_eq!(taken.as_ref().and_then(|c| c.get::<Health>()), Some(&Health(7)));
    assert!(world.remove_erased(e, &key).is_none());
    assert!(!world.has_erased(e, &key));

    let dead = Entity::new(9, 0);
    assert!(!world.add_erased(dead, ErasedComponent::new(Health(1))));
    assert!(world.get_erased(dead, &key).is_none());
}

#[test]
fn entity_count_follows_spawn_and_despawn() {
    let mut world = World::default();
    assert_eq!(world.entity_count(), 0);
    let a = world.spawn();
    let b = world.spawn();
    assert_eq!(world.entity_count(), 2);
    world.despawn(a);
    assert_eq!(world.entity_count(), 1);
    world.despawn(a);
    assert_eq!(world.entity_count(), 1);
    world.spawn();
    world.spawn();
    assert_eq!(world.entity_count(), 3);
    assert!(world.is_alive(b));
}

#[derive(Debug, Clone, PartialEq)]
struct Tag<const N: usize>(usize);

#[test]
fn more_component_types_than_fit_inline() {
    let mut world = World::new();
    let e = world.spawn();
    let other = world.spawn();
    assert!(world.add_component(e, Tag::<0>(0)));
    assert!(world.add_component(e, Tag::<1>(10)));
    assert!(world.add_component(e, Tag::<2>(20)));
    assert!(world.add_component(e, Tag::<3>(30)));
    assert!(world.add_component(e, Tag::<4>(40)));
    assert!(world.add_component(e, Tag::<5>(50)));
    assert!(world.add_component(e, Tag::<6>(60)));
    assert!(world.add_component(e, Tag::<7>(70)));
    assert!(world.add_component(e, Tag::<8>(80)));
    assert!(world.add_component(e, Tag::<9>(90)));
    assert!(world.add_component(other, Tag::<9>(9)));
    assert_eq!(world.get_component::<Tag<0>>(e), Some(&Tag::<0>(0)));
    assert_eq!(world.get_component::<Tag<4>>(e), Some(&Tag::<4>(40)));
    assert_eq!(world.get_component::<Tag<8>>(e), Some(&Tag::<8>(80)));
    assert_eq!(world.get_component::<Tag<9>>(e), Some(&Tag::<9>(90)));
    assert_eq!(world.get_component::<Tag<9>>(other), Some(&Tag::<9>(9)));
    assert!(!world.has_component::<Tag<10>>(e));
    assert!(world.remove_component::<Tag<3>>(e));
    assert!(world.remove_component::<Tag<0>>(e));
    assert_eq!(world.get_component::<Tag<3>>(e), None);
    assert_eq!(world.get_component::<Tag<1>>(e), Some(&Tag::<1>(10)));
    assert_eq!(world.get_component::<Tag<9>>(e), Some(&Tag::<9>(90)));
    assert_eq!(world.get_component::<Tag<7>>(e), Some(&Tag::<7>(70)));
}
