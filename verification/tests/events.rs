use bevy_mod_ffi::component::{ComponentHooks, ComponentId, ComponentLayout, StorageType};
use bevy_mod_ffi::entity::Entity;
use bevy_mod_ffi::query::{Access, QueryBuilder};
use bevy_mod_ffi::registry::{
    EventId, LibraryId, ObserverCall, ObserverError, ObserverId, SharedRegistry,
};
use bevy_mod_ffi::system::{Callback, DynParam, ParamBuilder, SystemError, SystemState};
use bevy_mod_ffi::world::{RegisterError, World};

fn no_params() -> SystemState {
    ParamBuilder::new().build(&World::new()).unwrap()
}

fn with_commands() -> SystemState {
    let mut builder = ParamBuilder::new();
    builder.add_commands();
    builder.build(&World::new()).unwrap()
}

fn call(observer: u64, function: usize) -> ObserverCall {
    ObserverCall { observer: ObserverId { id: observer }, callback: Callback::new(function, 0) }
}

#[test]
fn triggered_payload_reaches_the_observer_once() {
    let mut registry = SharedRegistry::new();
    let event = registry.register_event("game::Hit", 4, 4).unwrap();
    assert_eq!(event, EventId { index: 0 });
    let body = Callback::new(0xB0D1, 0xC0);
    let observer = registry.add_observer("game::Hit", no_params(), body).unwrap();
    let payload = [0xDE, 0xAD, 0xBE, 0xEF];
    let dispatch = registry.trigger("game::Hit", &payload).unwrap();
    assert_eq!(dispatch.event, event);
    assert_eq!(dispatch.payload, payload.to_vec());
    assert_eq!(dispatch.observers, vec![ObserverCall { observer, callback: body }]);
    let again = registry.trigger("game::Hit", &[1, 2, 3, 4]).unwrap();
    assert_eq!(again.payload, vec![1, 2, 3, 4]);
    assert_eq!(again.observers.len(), 1);
}

#[test]
fn observers_fire_in_the_order_in_which_they_were_added() {
    let mut registry = SharedRegistry::new();
    registry.register_event("A", 1, 1).unwrap();
    registry.register_event("B", 1, 1).unwrap();
    registry.add_observer("A", no_params(), Callback::new(1, 0)).unwrap();
    registry.add_observer("B", no_params(), Callback::new(2, 0)).unwrap();
    registry.add_observer("A", no_params(), Callback::new(3, 0)).unwrap();
    registry.add_observer("A", no_params(), Callback::new(1, 0)).unwrap();
    assert_eq!(
        registry.trigger("A", &[0]).unwrap().observers,
        vec![call(0, 1), call(2, 3), call(3, 1)]
    );
    assert_eq!(registry.trigger("B", &[0]).unwrap().observers, vec![call(1, 2)]);
}

#[test]
fn entity_observer_fires_for_its_entity_only() {
    let mut registry = SharedRegistry::new();
    registry.register_event("A", 1, 1).unwrap();
    let first = Entity::from_bits(1);
    let second = Entity::from_bits(2);
    registry.add_observer("A", no_params(), Callback::new(1, 0)).unwrap();
    registry.add_entity_observer(first, "A", no_params(), Callback::new(2, 0)).unwrap();
    registry.add_entity_observer(second, "A", no_params(), Callback::new(3, 0)).unwrap();
    registry.add_entity_observer(first, "A", no_params(), Callback::new(4, 0)).unwrap();
    assert_eq!(registry.trigger("A", &[0]).unwrap().observers, vec![call(0, 1)]);
    assert_eq!(
        registry.trigger_targets("A", &[0], first).unwrap().observers,
        vec![call(1, 2), call(3, 4)]
    );
    assert_eq!(registry.trigger_targets("A", &[0], second).unwrap().observers, vec![call(2, 3)]);
    assert_eq!(registry.trigger_targets("A", &[0], Entity::from_bits(9)).unwrap().observers, vec![]);
}

#[test]
fn unknown_event_and_wrong_payload_are_turned_down() {
    let mut registry = SharedRegistry::new();
    assert!(registry.trigger("A", &[]).is_none());
    assert!(registry.add_observer("A", no_params(), Callback::new(1, 0)).is_none());
    assert!(registry
        .add_entity_observer(Entity::from_bits(0), "A", no_params(), Callback::new(1, 0))
        .is_none());
    registry.register_event("A", 2, 1).unwrap();
    assert!(registry.trigger("A", &[1]).is_none());
    assert!(registry.trigger("A", &[1, 2, 3]).is_none());
    assert!(registry.trigger_targets("A", &[1], Entity::from_bits(0)).is_none());
    assert!(registry.trigger("B", &[1, 2]).is_none());
    let dispatch = registry.trigger("A", &[1, 2]).unwrap();
    assert_eq!(dispatch.observers, vec![]);
    assert_eq!(dispatch.payload, vec![1, 2]);
}

#[test]
fn event_registration_is_idempotent_by_name() {
    let mut registry = SharedRegistry::new();
    assert_eq!(registry.get_event_id("A"), None);
    let a = registry.register_event("A", 4, 4).unwrap();
    let b = registry.register_event("B", 0, 1).unwrap();
    assert_eq!(a, EventId { index: 0 });
    assert_eq!(b, EventId { index: 1 });
    assert_eq!(registry.register_event("A", 4, 4), Ok(a));
    assert_eq!(registry.get_event_id("A"), Some(a));
    assert_eq!(registry.get_event_id("B"), Some(b));
    assert_eq!(registry.register_event("A", 8, 4), Err(RegisterError::LayoutMismatch));
    assert_eq!(registry.register_event("A", 4, 2), Err(RegisterError::LayoutMismatch));
    assert_eq!(registry.register_event("C", 4, 3), Err(RegisterError::InvalidLayout));
    assert_eq!(registry.register_event("C\0", 4, 4), Err(RegisterError::InvalidName));
    assert_eq!(registry.get_event_id("C"), None);
}

#[test]
fn removed_observer_is_not_set_off() {
    let mut registry = SharedRegistry::new();
    registry.register_event("A", 0, 1).unwrap();
    let first = registry.add_observer("A", no_params(), Callback::new(1, 0)).unwrap();
    let second = registry.add_observer("A", no_params(), Callback::new(2, 0)).unwrap();
    let third = registry.add_observer("A", no_params(), Callback::new(3, 0)).unwrap();
    assert!(registry.remove_observer(second));
    assert!(!registry.remove_observer(second));
    assert!(!registry.remove_observer(ObserverId { id: 77 }));
    assert_eq!(registry.trigger("A", &[]).unwrap().observers, vec![call(0, 1), call(2, 3)]);
    let fourth = registry.add_observer("A", no_params(), Callback::new(4, 0)).unwrap();
    assert_eq!((first.id, second.id, third.id, fourth.id), (0, 1, 2, 3));
}

#[test]
fn unloaded_library_leaves_no_observer_behind() {
    let mut registry = SharedRegistry::new();
    registry.register_event("A", 0, 1).unwrap();
    registry.add_observer("A", no_params(), Callback::new(1, 0)).unwrap();
    registry.register_resource(ComponentId::new(40));
    let first = registry.new_library_id().unwrap();
    assert_eq!(first, LibraryId { id: 0 });
    registry.set_current_library(Some(first));
    assert_eq!(registry.current_library(), Some(first));
    registry.add_observer("A", no_params(), Callback::new(2, 0)).unwrap();
    registry.register_resource(ComponentId::new(41));
    let second = registry.new_library_id().unwrap();
    assert_eq!(second, LibraryId { id: 1 });
    registry.set_current_library(Some(second));
    registry.add_observer("A", no_params(), Callback::new(3, 0)).unwrap();
    registry.register_resource(ComponentId::new(42));
    registry.set_current_library(Some(first));
    registry
        .add_entity_observer(Entity::from_bits(5), "A", no_params(), Callback::new(4, 0))
        .unwrap();
    registry.register_resource(ComponentId::new(43));
    registry.set_current_library(None);

    let unloaded = registry.unload_library(first);
    assert_eq!(unloaded.observers, vec![ObserverId { id: 1 }, ObserverId { id: 3 }]);
    assert_eq!(unloaded.resources, vec![ComponentId::new(41), ComponentId::new(43)]);
    assert_eq!(registry.trigger("A", &[]).unwrap().observers, vec![call(0, 1), call(2, 3)]);
    assert_eq!(
        registry.trigger_targets("A", &[], Entity::from_bits(5)).unwrap().observers,
        vec![]
    );
    let nothing = registry.unload_library(first);
    assert_eq!(nothing.observers, vec![]);
    assert_eq!(nothing.resources, vec![]);
    let rest = registry.unload_library(second);
    assert_eq!(rest.observers, vec![ObserverId { id: 2 }]);
    assert_eq!(rest.resources, vec![ComponentId::new(42)]);
    assert_eq!(registry.trigger("A", &[]).unwrap().observers, vec![call(0, 1)]);
}

#[test]
fn unloading_the_loading_library_ends_its_loading() {
    let mut registry = SharedRegistry::new();
    let library = registry.new_library_id().unwrap();
    let other = registry.new_library_id().unwrap();
    registry.set_current_library(Some(library));
    registry.unload_library(other);
    assert_eq!(registry.current_library(), Some(library));
    registry.unload_library(library);
    assert_eq!(registry.current_library(), None);
}

#[test]
fn observer_runs_with_its_own_parameters() {
    let mut world = World::new();
    let a = world
        .register_component_from_type_path(
            "A",
            ComponentLayout::new(1, 1, StorageType::Table),
            ComponentHooks::none(),
        )
        .unwrap();
    let mut registry = SharedRegistry::new();
    registry.register_event("E", 1, 1).unwrap();
    let mut builder = ParamBuilder::new();
    let mut query = QueryBuilder::new();
    query.add(a, Access::Read);
    builder.add_query(query);
    builder.add_commands();
    let state = builder.build(&world).unwrap();
    let body = Callback::new(0xF, 0xC);
    let id = registry.add_observer("E", state, body).unwrap();
    let plain = registry.add_observer("E", with_commands(), Callback::new(1, 1)).unwrap();

    let run = registry.begin_observer(id, &world).unwrap();
    assert_eq!(run.callback, body);
    assert_eq!(run.params.len(), 2);
    assert!(matches!(
        registry.begin_observer(id, &world),
        Err(ObserverError::System(SystemError::AlreadyFetched))
    ));
    assert!(registry.begin_observer(plain, &world).is_ok());
    let mut params = run.params;
    let mut commands = params.pop().unwrap().downcast_commands().unwrap();
    commands.push(Callback::new(8, 8));
    assert_eq!(
        registry.finish_observer(id, vec![DynParam::Commands(commands)]),
        Err(ObserverError::System(SystemError::Mismatch))
    );
    let mut commands = bevy_mod_ffi::system::Commands::new();
    commands.push(Callback::new(8, 8));
    params.push(DynParam::Commands(commands));
    assert_eq!(registry.finish_observer(id, params), Ok(vec![Callback::new(8, 8)]));
    assert_eq!(
        registry.finish_observer(id, Vec::new()),
        Err(ObserverError::System(SystemError::NotFetched))
    );
    assert!(matches!(
        registry.begin_observer(ObserverId { id: 9 }, &world),
        Err(ObserverError::UnknownObserver)
    ));
    assert_eq!(
        registry.finish_observer(ObserverId { id: 9 }, Vec::new()),
        Err(ObserverError::UnknownObserver)
    );
}
