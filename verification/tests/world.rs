use bevy_mod_ffi::component::{
    ComponentHooks, ComponentId, ComponentLayout, HookCall, HookContext, HookKind, StorageType,
};
use bevy_mod_ffi::entity::Entity;
use bevy_mod_ffi::world::{RegisterError, StorageError, World};

fn layout(size: usize, align: usize) -> ComponentLayout {
    ComponentLayout::new(size, align, StorageType::Table)
}

fn call(function: usize, kind: HookKind, entity: Entity, id: ComponentId) -> HookCall {
    HookCall { function, kind, context: HookContext { entity, component_id: id, caller: Some(9) } }
}

#[test]
fn registered_name_is_found_under_its_id() {
    let mut world = World::new();
    assert_eq!(world.get_component_id_from_type_path("Counter"), None);
    let id = world
        .register_component_from_type_path("Counter", layout(4, 4), ComponentHooks::none())
        .unwrap();
    assert_eq!(id, ComponentId::new(0));
    assert_eq!(world.get_component_id_from_type_path("Counter"), Some(id));
    let again =
        world.register_component_from_type_path("Counter", layout(4, 4), ComponentHooks::none());
    assert_eq!(again, Ok(id));
    assert_eq!(world.type_count(), 1);
    let other = world
        .register_component_from_type_path("Marker", layout(0, 1), ComponentHooks::none())
        .unwrap();
    assert_eq!(other, ComponentId::new(1));
    assert_eq!(world.get_component_id_from_type_path("Counter"), Some(id));
    assert_eq!(world.get_component_id_from_type_path("Marker"), Some(other));
    assert_eq!(world.get_component_id_from_type_path("Missing"), None);
}

#[test]
fn second_registration_keeps_the_first_hooks() {
    let mut world = World::new();
    let first = ComponentHooks::from_array([Some(1), None, None, None, None]);
    let second = ComponentHooks::from_array([Some(2), Some(3), None, None, None]);
    let id = world.register_component_from_type_path("Counter", layout(4, 4), first).unwrap();
    assert_eq!(world.register_component_from_type_path("Counter", layout(4, 4), second), Ok(id));
    assert_eq!(world.hooks_of(id), Some(first));
    assert_eq!(world.layout_of(id), Some(layout(4, 4)));
    assert_eq!(world.hooks_of(ComponentId::new(5)), None);
    assert_eq!(world.layout_of(ComponentId::new(5)), None);
}

#[test]
fn registration_failures_change_nothing() {
    let mut world = World::new();
    let none = ComponentHooks::none();
    assert_eq!(
        world.register_component_from_type_path("a\0b", layout(4, 4), none),
        Err(RegisterError::InvalidName)
    );
    assert_eq!(
        world.register_component_from_type_path("Counter", layout(4, 3), none),
        Err(RegisterError::InvalidLayout)
    );
    assert_eq!(
        world.register_component_from_type_path("a\0b", layout(4, 3), none),
        Err(RegisterError::InvalidName)
    );
    assert_eq!(world.type_count(), 0);
    let id = world.register_component_from_type_path("Counter", layout(4, 4), none).unwrap();
    assert_eq!(
        world.register_component_from_type_path("Counter", layout(8, 4), none),
        Err(RegisterError::LayoutMismatch)
    );
    assert_eq!(
        world.register_component_from_type_path(
            "Counter",
            ComponentLayout::new(4, 4, StorageType::SparseSet),
            none
        ),
        Err(RegisterError::LayoutMismatch)
    );
    assert_eq!(world.type_count(), 1);
    assert_eq!(world.layout_of(id), Some(layout(4, 4)));
}

#[test]
fn components_and_resources_are_looked_up_apart() {
    let mut world = World::new();
    let c = world
        .register_component_from_type_path("Score", layout(4, 4), ComponentHooks::none())
        .unwrap();
    assert_eq!(world.get_resource_id_from_type_path("Score"), None);
    let r = world.register_resource_from_type_path("Score", layout(8, 8)).unwrap();
    assert_ne!(c, r);
    assert_eq!(world.get_component_id_from_type_path("Score"), Some(c));
    assert_eq!(world.get_resource_id_from_type_path("Score"), Some(r));
    assert!(world.is_component(c));
    assert!(!world.is_resource(c));
    assert!(world.is_resource(r));
    assert!(!world.is_component(r));
    assert!(!world.is_component(ComponentId::new(9)));
}

#[test]
fn inserted_bytes_are_read_back() {
    let mut world = World::new();
    let id = world
        .register_component_from_type_path("Counter", layout(4, 4), ComponentHooks::none())
        .unwrap();
    let first = world.spawn_empty();
    let second = world.spawn_empty();
    assert_eq!(first, Entity::from_bits(0));
    assert_eq!(second.to_bits(), 1);
    assert_eq!(world.entity_count(), 2);
    assert!(world.contains(first));
    assert!(!world.contains(Entity::from_bits(2)));
    assert!(!world.has(first, id));
    assert_eq!(world.get(first, id), None);
    assert_eq!(world.insert(first, id, &[1, 2, 3, 4], None), Ok(vec![]));
    assert!(world.has(first, id));
    assert!(!world.has(second, id));
    assert_eq!(world.get(first, id), Some(&[1u8, 2, 3, 4][..]));
    assert_eq!(world.insert(first, id, &[9, 8, 7, 6], None), Ok(vec![]));
    assert_eq!(world.get(first, id), Some(&[9u8, 8, 7, 6][..]));
}

#[test]
fn bytes_are_written_in_place() {
    let mut world = World::new();
    let id = world
        .register_component_from_type_path("Counter", layout(4, 4), ComponentHooks::none())
        .unwrap();
    let entity = world.spawn_empty();
    world.insert(entity, id, &[1, 2, 3, 4], None).unwrap();
    {
        let bytes = world.get_mut(entity, id).unwrap();
        bytes[1] = 0xAA;
    }
    assert_eq!(world.get(entity, id), Some(&[1u8, 0xAA, 3, 4][..]));
    assert!(world.get_mut(entity, ComponentId::new(4)).is_none());
    assert!(world.get_mut(Entity::from_bits(7), id).is_none());
}

#[test]
fn write_failures_change_nothing() {
    let mut world = World::new();
    let id = world
        .register_component_from_type_path("Counter", layout(4, 4), ComponentHooks::none())
        .unwrap();
    let resource = world.register_resource_from_type_path("Clock", layout(4, 4)).unwrap();
    let entity = world.spawn_empty();
    assert_eq!(
        world.insert(Entity::from_bits(5), id, &[0; 4], None),
        Err(StorageError::NoSuchEntity)
    );
    assert_eq!(
        world.insert(entity, ComponentId::new(8), &[0; 4], None),
        Err(StorageError::UnknownComponent)
    );
    assert_eq!(world.insert(entity, resource, &[0; 4], None), Err(StorageError::UnknownComponent));
    assert_eq!(world.insert(entity, id, &[0; 3], None), Err(StorageError::SizeMismatch));
    assert_eq!(world.insert(entity, id, &[0; 5], None), Err(StorageError::SizeMismatch));
    assert!(!world.has(entity, id));
}

#[test]
fn hooks_are_due_in_the_order_of_the_transitions() {
    let mut world = World::new();
    let hooks = ComponentHooks::from_array([Some(10), Some(20), Some(30), Some(40), Some(50)]);
    let id = world.register_component_from_type_path("Counter", layout(1, 1), hooks).unwrap();
    let entity = world.spawn_empty();
    assert_eq!(
        world.insert(entity, id, &[1], Some(9)),
        Ok(vec![call(10, HookKind::Add, entity, id), call(20, HookKind::Insert, entity, id)])
    );
    assert_eq!(
        world.insert(entity, id, &[2], Some(9)),
        Ok(vec![call(30, HookKind::Replace, entity, id), call(20, HookKind::Insert, entity, id)])
    );
    assert_eq!(
        world.remove(entity, id, Some(9)),
        Ok(vec![call(30, HookKind::Replace, entity, id), call(40, HookKind::Remove, entity, id)])
    );
    assert!(!world.has(entity, id));
    assert_eq!(
        world.insert(entity, id, &[3], Some(9)),
        Ok(vec![call(10, HookKind::Add, entity, id), call(20, HookKind::Insert, entity, id)])
    );
}

#[test]
fn only_registered_hooks_are_due() {
    let mut world = World::new();
    let hooks = ComponentHooks::from_array([None, Some(20), None, None, None]);
    let id = world.register_component_from_type_path("Counter", layout(1, 1), hooks).unwrap();
    let entity = world.spawn_empty();
    assert_eq!(
        world.insert(entity, id, &[1], Some(9)),
        Ok(vec![call(20, HookKind::Insert, entity, id)])
    );
    assert_eq!(world.remove(entity, id, Some(9)), Ok(vec![]));
}

#[test]
fn remove_failures_change_nothing() {
    let mut world = World::new();
    let id = world
        .register_component_from_type_path("Counter", layout(1, 1), ComponentHooks::none())
        .unwrap();
    let entity = world.spawn_empty();
    assert_eq!(world.remove(Entity::from_bits(3), id, None), Err(StorageError::NoSuchEntity));
    assert_eq!(world.remove(entity, id, None), Err(StorageError::UnknownComponent));
    world.insert(entity, id, &[5], None).unwrap();
    assert_eq!(world.remove(entity, id, None), Ok(vec![]));
    assert_eq!(world.remove(entity, id, None), Err(StorageError::UnknownComponent));
}

#[test]
fn despawned_entity_carries_nothing_and_keeps_its_bits() {
    let mut world = World::new();
    let a = world
        .register_component_from_type_path(
            "A",
            layout(1, 1),
            ComponentHooks::from_array([None, None, None, None, Some(51)]),
        )
        .unwrap();
    let b = world
        .register_component_from_type_path("B", layout(1, 1), ComponentHooks::none())
        .unwrap();
    let c = world
        .register_component_from_type_path(
            "C",
            layout(1, 1),
            ComponentHooks::from_array([None, None, None, None, Some(53)]),
        )
        .unwrap();
    let entity = world.spawn_empty();
    world.insert(entity, c, &[3], None).unwrap();
    world.insert(entity, a, &[1], None).unwrap();
    world.insert(entity, b, &[2], None).unwrap();
    assert_eq!(
        world.despawn(entity, Some(9)),
        Some(vec![call(51, HookKind::Despawn, entity, a), call(53, HookKind::Despawn, entity, c)])
    );
    assert!(!world.contains(entity));
    assert!(!world.has(entity, a));
    assert_eq!(world.get(entity, a), None);
    assert_eq!(world.despawn(entity, None), None);
    assert_eq!(world.insert(entity, a, &[1], None), Err(StorageError::NoSuchEntity));
    assert_eq!(world.spawn_empty(), Entity::from_bits(1));
    assert_eq!(world.entity_count(), 2);
}

#[test]
fn resources_are_stored_by_id() {
    let mut world = World::new();
    let clock = world.register_resource_from_type_path("Clock", layout(2, 2)).unwrap();
    let component = world
        .register_component_from_type_path("Counter", layout(2, 2), ComponentHooks::none())
        .unwrap();
    assert_eq!(world.get_resource_by_id(clock), None);
    assert_eq!(world.insert_resource(component, &[1, 2]), Err(StorageError::UnknownComponent));
    assert_eq!(world.insert_resource(ComponentId::new(7), &[1, 2]), Err(StorageError::UnknownComponent));
    assert_eq!(world.insert_resource(clock, &[1]), Err(StorageError::SizeMismatch));
    assert_eq!(world.get_resource_by_id(clock), None);
    assert_eq!(world.insert_resource(clock, &[1, 2]), Ok(()));
    assert_eq!(world.get_resource_by_id(clock), Some(&[1u8, 2][..]));
    {
        let bytes = world.get_resource_mut_by_id(clock).unwrap();
        bytes[0] = 7;
    }
    assert_eq!(world.get_resource_by_id(clock), Some(&[7u8, 2][..]));
    assert!(world.get_resource_mut_by_id(component).is_none());
    assert!(!world.remove_resource(component));
    assert!(world.remove_resource(clock));
    assert!(!world.remove_resource(clock));
    assert_eq!(world.get_resource_by_id(clock), None);
    assert_eq!(world.insert_resource(clock, &[3, 4]), Ok(()));
    assert_eq!(world.get_resource_by_id(clock), Some(&[3u8, 4][..]));
}

#[test]
fn entity_is_spawned_with_its_component() {
    let mut world = World::new();
    let hooks = ComponentHooks::from_array([Some(10), Some(20), Some(30), None, None]);
    let id = world.register_component_from_type_path("Counter", layout(2, 2), hooks).unwrap();
    assert_eq!(world.spawn(ComponentId::new(4), &[1, 2], None), Err(StorageError::UnknownComponent));
    assert_eq!(world.spawn(id, &[1], None), Err(StorageError::SizeMismatch));
    assert_eq!(world.entity_count(), 0);
    let (entity, calls) = world.spawn(id, &[0xAB, 0xCD], Some(9)).unwrap();
    assert_eq!(entity, Entity::from_bits(0));
    assert_eq!(
        calls,
        vec![call(10, HookKind::Add, entity, id), call(20, HookKind::Insert, entity, id)]
    );
    assert_eq!(world.get(entity, id), Some(&[0xABu8, 0xCD][..]));
    let (second, _) = world.spawn(id, &[0, 0], None).unwrap();
    assert_eq!(second, Entity::from_bits(1));
    assert_eq!(world.entity_count(), 2);
}
