use bevy_mod_ffi::component::{ComponentHooks, ComponentId, ComponentLayout, StorageType};
use bevy_mod_ffi::entity::Entity;
use bevy_mod_ffi::host::{
    bevy_entity_world_mut_observe, bevy_entity_world_mut_trigger, bevy_system_state_build_on,
    bevy_world_get_component_id, bevy_world_get_resource_id, bevy_world_register_component,
    bevy_world_trigger,
};
use bevy_mod_ffi::registry::{ObserverCall, ObserverId, SharedRegistry};
use bevy_mod_ffi::system::{Callback, ParamBuilder, SystemState};
use bevy_mod_ffi::world::{RegisterError, World};

fn no_params() -> SystemState {
    ParamBuilder::new().build(&World::new()).unwrap()
}

#[test]
fn component_is_registered_by_wire_name() {
    let mut world = World::new();
    let hooks = [Some(1), None, None, Some(4), None];
    let id = bevy_world_register_component(&mut world, b"game::Counter\0", 4, 4, 1, hooks);
    assert_eq!(id, Ok(ComponentId::new(0)));
    assert_eq!(
        bevy_world_register_component(&mut world, b"game::Counter\0", 4, 4, 1, [None; 5]),
        Ok(ComponentId::new(0))
    );
    assert_eq!(world.get_component_id_from_type_path("game::Counter"), Some(ComponentId::new(0)));
    assert_eq!(
        world.layout_of(ComponentId::new(0)),
        Some(ComponentLayout::new(4, 4, StorageType::Table))
    );
    assert_eq!(world.hooks_of(ComponentId::new(0)), Some(ComponentHooks::from_array(hooks)));
    let sparse = bevy_world_register_component(&mut world, b"game::Tag\0", 0, 1, 0, [None; 5]);
    assert_eq!(sparse, Ok(ComponentId::new(1)));
    assert_eq!(
        world.layout_of(ComponentId::new(1)),
        Some(ComponentLayout::new(0, 1, StorageType::SparseSet))
    );
}

#[test]
fn registration_by_wire_name_reports_what_is_wrong() {
    let mut world = World::new();
    let none = [None; 5];
    assert_eq!(
        bevy_world_register_component(&mut world, b"game::Counter", 4, 4, 1, none),
        Err(RegisterError::InvalidName)
    );
    assert_eq!(
        bevy_world_register_component(&mut world, &[0xFF, 0], 4, 4, 1, none),
        Err(RegisterError::InvalidName)
    );
    assert_eq!(
        bevy_world_register_component(&mut world, b"game::Counter\0", 4, 6, 1, none),
        Err(RegisterError::InvalidLayout)
    );
    assert_eq!(
        bevy_world_register_component(&mut world, b"game::Counter\0", 4, 4, 2, none),
        Err(RegisterError::InvalidLayout)
    );
    assert_eq!(
        bevy_world_register_component(&mut world, b"game::Counter", 4, 4, 2, none),
        Err(RegisterError::InvalidName)
    );
    assert_eq!(world.type_count(), 0);
    bevy_world_register_component(&mut world, b"game::Counter\0", 4, 4, 1, none).unwrap();
    assert_eq!(
        bevy_world_register_component(&mut world, b"game::Counter\0", 4, 4, 0, none),
        Err(RegisterError::LayoutMismatch)
    );
    assert_eq!(world.type_count(), 1);
}

#[test]
fn ids_are_looked_up_by_wire_name() {
    let mut world = World::new();
    let layout = ComponentLayout::new(2, 2, StorageType::Table);
    let c = world.register_component_from_type_path("C", layout, ComponentHooks::none()).unwrap();
    let r = world.register_resource_from_type_path("R", layout).unwrap();
    assert_eq!(bevy_world_get_component_id(&world, b"C\0"), Some(c));
    assert_eq!(bevy_world_get_component_id(&world, b"R\0"), None);
    assert_eq!(bevy_world_get_component_id(&world, b"C"), None);
    assert_eq!(bevy_world_get_component_id(&world, b""), None);
    assert_eq!(bevy_world_get_resource_id(&world, b"R\0"), Some(r));
    assert_eq!(bevy_world_get_resource_id(&world, b"C\0"), None);
    assert_eq!(bevy_world_get_resource_id(&world, b"R\0\0"), None);
}

#[test]
fn observers_are_bound_and_triggered_by_wire_name() {
    let mut registry = SharedRegistry::new();
    registry.register_event("game::Hit", 2, 1).unwrap();
    let body = Callback::new(5, 6);
    assert_eq!(bevy_system_state_build_on(&mut registry, no_params(), b"game::Hit", body), None);
    assert_eq!(bevy_system_state_build_on(&mut registry, no_params(), b"game::Miss\0", body), None);
    assert_eq!(
        bevy_system_state_build_on(&mut registry, no_params(), b"game::Hit\0", body),
        Some(ObserverId { id: 0 })
    );
    let target = Entity::from_bits(3);
    assert_eq!(
        bevy_entity_world_mut_observe(&mut registry, target, no_params(), &[0xC0, 0], body),
        None
    );
    assert_eq!(
        bevy_entity_world_mut_observe(&mut registry, target, no_params(), b"game::Hit\0", body),
        Some(ObserverId { id: 1 })
    );

    let dispatch = bevy_world_trigger(&registry, b"game::Hit\0", &[7, 8]).unwrap();
    assert_eq!(dispatch.payload, vec![7, 8]);
    assert_eq!(
        dispatch.observers,
        vec![ObserverCall { observer: ObserverId { id: 0 }, callback: body }]
    );
    let dispatch =
        bevy_entity_world_mut_trigger(&registry, target, b"game::Hit\0", &[9, 9]).unwrap();
    assert_eq!(dispatch.payload, vec![9, 9]);
    assert_eq!(
        dispatch.observers,
        vec![ObserverCall { observer: ObserverId { id: 1 }, callback: body }]
    );
    assert!(bevy_world_trigger(&registry, b"game::Hit", &[7, 8]).is_none());
    assert!(bevy_world_trigger(&registry, b"game::Hit\0", &[7]).is_none());
    assert!(bevy_entity_world_mut_trigger(&registry, target, b"game::Miss\0", &[7, 8]).is_none());
    assert!(bevy_entity_world_mut_trigger(&registry, target, b"\0", &[7, 8]).is_none());
}
