use extrem::ecs::{Entity, World, WorldError};

#[derive(Debug, PartialEq)]
struct Health(u32);

#[test]
fn components_follow_entity_lifetime() {
    let mut world = World::<Health, ()>::new();
    let entity = world.spawn(Health(100));
    assert_eq!(world.get(entity), Some(&Health(100)));
    assert_eq!(world.insert(entity, Health(75)), Ok(Some(Health(100))));
    assert_eq!(world.despawn(entity), Ok(()));
    assert!(!world.contains(entity));
    assert_eq!(world.get(entity), None);
    assert_eq!(world.despawn(entity), Err(WorldError::EntityNotFound(entity)));
}

#[test]
fn generational_index_prevents_stale_handle_reuse() {
    let mut world = World::<Health, ()>::new();
    let entity_v1 = world.spawn(Health(100));
    world.despawn(entity_v1).expect("despawn");
    let entity_v2 = world.spawn(Health(200));
    assert_eq!(entity_v1.index(), entity_v2.index());
    assert_ne!(entity_v1.generation(), entity_v2.generation());
    assert!(!world.contains(entity_v1));
    assert_eq!(world.get(entity_v2), Some(&Health(200)));
}

#[test]
fn retired_generation_cannot_wrap_to_stale_handle() {
    let mut world = World::<Health, ()>::new();
    let final_generation = world.spawn_empty_at_generation(u32::MAX).expect("slot");
    assert_eq!(final_generation, Entity::from_raw_parts(0, u32::MAX));
    world.despawn(final_generation).expect("despawn final generation");
    let next = world.try_spawn_empty().expect("new slot");
    assert_ne!(next.index(), final_generation.index());
    assert!(!world.contains(final_generation));
}

#[test]
fn missing_entities_are_rejected() {
    let mut world = World::<Health, ()>::new();
    let entity = Entity::from_raw(42);
    assert_eq!(world.insert(entity, Health(10)), Err(WorldError::EntityNotFound(entity)));
    assert_eq!(world.remove(entity), Err(WorldError::EntityNotFound(entity)));
}

#[test]
fn resources_are_type_indexed() {
    let mut world = World::<Health, u32>::new();
    assert_eq!(world.insert_resource(12_u32), None);
    assert_eq!(world.insert_resource(20_u32), Some(12));
    assert_eq!(world.get_resource(), Some(&20));
}

#[test]
fn despawn_frees_the_slot_and_drops_the_component() {
    let mut world = World::<Health, ()>::new();
    let a = world.spawn(Health(1));
    let b = world.spawn(Health(2));
    assert_eq!(world.entity_count(), 2);
    assert_eq!(world.component_count(), 2);
    world.despawn(a).unwrap();
    assert_eq!(world.entity_count(), 1);
    assert_eq!(world.component_count(), 1);
    let c = world.spawn_empty();
    assert_eq!(c.index(), a.index());
    assert_eq!(c.generation(), a.generation() + 1);
    assert_eq!(world.get(c), None);
    assert_eq!(world.get(b), Some(&Health(2)));
}

#[test]
fn iteration_is_in_slot_order_and_skips_empty_slots() {
    let mut world = World::<Health, ()>::new();
    let a = world.spawn(Health(1));
    let _empty = world.spawn_empty();
    let c = world.spawn(Health(3));
    let items: Vec<(Entity, u32)> = world.iter().into_iter().map(|(e, h)| (e, h.0)).collect();
    assert_eq!(items, vec![(a, 1), (c, 3)]);
}

#[test]
fn get_mut_and_remove_edit_only_the_named_entity() {
    let mut world = World::<Health, ()>::new();
    let a = world.spawn(Health(1));
    let b = world.spawn(Health(2));
    if let Some(h) = world.get_mut(a) {
        h.0 = 10;
    }
    assert_eq!(world.get(a), Some(&Health(10)));
    assert_eq!(world.remove(b), Ok(Some(Health(2))));
    assert_eq!(world.remove(b), Ok(None));
    assert!(world.contains(b));
    if let Some(r) = world.get_resource_mut() {
        *r = ();
    }
    assert_eq!(world.get_resource(), None);
}

#[test]
fn entity_and_error_text_is_stable() {
    let entity = Entity::from_raw_parts(7, 3);
    assert_eq!(entity.describe(), "Entity(7:3)");
    assert_eq!(WorldError::EntityNotFound(entity).message(), "Entity(7:3) does not exist");
    assert_eq!(WorldError::EntityCapacityExhausted.message(), "entity index capacity is exhausted");
    assert_eq!(Entity::from_raw(5).generation(), 1);
}
