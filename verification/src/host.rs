//! The host's side of the calls that carry names across the boundary. Each
//! function here is what one exported call decides once its pointers are
//! turned into plain values: it reads the wire name and goes on by the
//! name. `None` and `Err` stand for the call's `false`, in which case
//! nothing is handed back and nothing has changed.
use crate::component::{ComponentHooks, ComponentId, ComponentLayout, StorageType};
use crate::entity::Entity;
use crate::name::{decode_type_name, parse_wire_name};
use crate::registry::{Dispatch, ObserverId, SharedRegistry};
use crate::system::commands::Callback;
use crate::system::state::SystemState;
use crate::world::{RegisterError, World, WorldView};
use vstd::prelude::*;

verus! {

/// What a registration by wire name answers.
pub open spec fn register_wire_result(
    world: WorldView,
    name: Seq<u8>,
    size: usize,
    align: usize,
    storage_kind: u8,
) -> Result<ComponentId, RegisterError> {
    match parse_wire_name(name) {
        Some(name) => match StorageType::wire_kind(storage_kind) {
            Some(storage) => world.register_result(
                name,
                false,
                ComponentLayout { size, align, storage },
            ),
            None => Err(RegisterError::InvalidLayout),
        },
        None => Err(RegisterError::InvalidName),
    }
}

/// The world after a registration by wire name.
pub open spec fn register_wire(
    world: WorldView,
    name: Seq<u8>,
    size: usize,
    align: usize,
    storage_kind: u8,
    hooks: ComponentHooks,
) -> WorldView {
    match parse_wire_name(name) {
        Some(name) => match StorageType::wire_kind(storage_kind) {
            Some(storage) => world.register(
                name,
                false,
                ComponentLayout { size, align, storage },
                hooks,
            ),
            None => world,
        },
        None => world,
    }
}

/// Registers a component type. `name` is the type's wire name, `size` and
/// `align` its layout, `storage_kind` the byte that stands for its storage
/// kind, and `hook_fns` its hooks in the order add, insert, replace,
/// remove, despawn. The call fails, and changes nothing, where the bytes
/// are no wire name, where the byte stands for no storage kind, and where
/// the registration by name fails.
pub fn bevy_world_register_component(
    world: &mut World,
    name: &[u8],
    size: usize,
    align: usize,
    storage_kind: u8,
    hook_fns: [Option<usize>; 5],
) -> (r: Result<ComponentId, RegisterError>)
    requires
        old(world).wf(),
    ensures
        final(world).wf(),
        r == register_wire_result(old(world)@, name@, size, align, storage_kind),
        final(world)@ == register_wire(
            old(world)@,
            name@,
            size,
            align,
            storage_kind,
            ComponentHooks {
                on_add: hook_fns[0],
                on_insert: hook_fns[1],
                on_replace: hook_fns[2],
                on_remove: hook_fns[3],
                on_despawn: hook_fns[4],
            },
        ),
{
    let name = match decode_type_name(name) {
        Some(name) => name,
        None => {
            return Err(RegisterError::InvalidName);
        },
    };
    let storage = match StorageType::from_wire(storage_kind) {
        Some(storage) => storage,
        None => {
            return Err(RegisterError::InvalidLayout);
        },
    };
    world.register_component_from_type_path(
        name.as_str(),
        ComponentLayout::new(size, align, storage),
        ComponentHooks::from_array(hook_fns),
    )
}

/// The id of the component whose wire name is `type_path`; `None` where the
/// bytes are no wire name or no component is registered under the name.
pub fn bevy_world_get_component_id(world: &World, type_path: &[u8]) -> (r: Option<ComponentId>)
    requires
        world.wf(),
    ensures
        r == (match parse_wire_name(type_path@) {
            Some(name) => world@.component_id(name),
            None => None,
        }),
{
    match decode_type_name(type_path) {
        Some(name) => world.get_component_id_from_type_path(name.as_str()),
        None => None,
    }
}

/// The id of the resource whose wire name is `type_path`; `None` where the
/// bytes are no wire name or no resource is registered under the name.
pub fn bevy_world_get_resource_id(world: &World, type_path: &[u8]) -> (r: Option<ComponentId>)
    requires
        world.wf(),
    ensures
        r == (match parse_wire_name(type_path@) {
            Some(name) => world@.resource_id(name),
            None => None,
        }),
{
    match decode_type_name(type_path) {
        Some(name) => world.get_resource_id_from_type_path(name.as_str()),
        None => None,
    }
}

/// Binds an observer to the event whose wire name is `event_name`. The
/// system state is spent whether the call succeeds or not.
pub fn bevy_system_state_build_on(
    registry: &mut SharedRegistry,
    state: SystemState,
    event_name: &[u8],
    callback: Callback,
) -> (r: Option<ObserverId>)
    requires
        old(registry).wf(),
    ensures
        final(registry).wf(),
        match parse_wire_name(event_name@) {
            Some(name) => {
                &&& r is Some <==> old(registry)@.can_observe(name)
                &&& r matches Some(id) ==> id.id == old(registry)@.next_observer
                &&& final(registry)@ == old(registry)@.observe(name, None, state@, callback)
            },
            None => r is None && final(registry)@ == old(registry)@,
        },
{
    match decode_type_name(event_name) {
        Some(name) => registry.add_observer(name.as_str(), state, callback),
        None => None,
    }
}

/// Binds an observer to the event whose wire name is `event_name` on
/// `entity`. The system state is spent whether the call succeeds or not.
pub fn bevy_entity_world_mut_observe(
    registry: &mut SharedRegistry,
    entity: Entity,
    state: SystemState,
    event_name: &[u8],
    callback: Callback,
) -> (r: Option<ObserverId>)
    requires
        old(registry).wf(),
    ensures
        final(registry).wf(),
        match parse_wire_name(event_name@) {
            Some(name) => {
                &&& r is Some <==> old(registry)@.can_observe(name)
                &&& r matches Some(id) ==> id.id == old(registry)@.next_observer
                &&& final(registry)@ == old(registry)@.observe(name, Some(entity), state@, callback)
            },
            None => r is None && final(registry)@ == old(registry)@,
        },
{
    match decode_type_name(event_name) {
        Some(name) => registry.add_entity_observer(entity, name.as_str(), state, callback),
        None => None,
    }
}

/// Triggers the event whose wire name is `event_name`, aimed at no entity,
/// with a copy of `event_data` as its payload.
pub fn bevy_world_trigger(registry: &SharedRegistry, event_name: &[u8], event_data: &[u8]) -> (r:
    Option<Dispatch>)
    requires
        registry.wf(),
    ensures
        match parse_wire_name(event_name@) {
            Some(name) => {
                &&& r is Some <==> registry@.can_trigger(name, event_data@)
                &&& r matches Some(dispatch) ==> {
                    &&& Some(dispatch.event) == registry@.event_id(name)
                    &&& dispatch.payload@ == event_data@
                    &&& dispatch.observers@ == registry@.set_off(dispatch.event, None)
                }
            },
            None => r is None,
        },
{
    match decode_type_name(event_name) {
        Some(name) => registry.trigger(name.as_str(), event_data),
        None => None,
    }
}

/// Triggers the event whose wire name is `event_name`, aimed at `entity`,
/// with a copy of `event_data` as its payload.
pub fn bevy_entity_world_mut_trigger(
    registry: &SharedRegistry,
    entity: Entity,
    event_name: &[u8],
    event_data: &[u8],
) -> (r: Option<Dispatch>)
    requires
        registry.wf(),
    ensures
        match parse_wire_name(event_name@) {
            Some(name) => {
                &&& r is Some <==> registry@.can_trigger(name, event_data@)
                &&& r matches Some(dispatch) ==> {
                    &&& Some(dispatch.event) == registry@.event_id(name)
                    &&& dispatch.payload@ == event_data@
                    &&& dispatch.observers@ == registry@.set_off(dispatch.event, Some(entity))
                }
            },
            None => r is None,
        },
{
    match decode_type_name(event_name) {
        Some(name) => registry.trigger_targets(name.as_str(), event_data, entity),
        None => None,
    }
}

} // verus!
