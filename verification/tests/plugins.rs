use bevy_mod_ffi::bridge::{QueryTables, SystemTables};
use bevy_mod_ffi::component::{ComponentLayout, StorageType};
use bevy_mod_ffi::entity::Entity;
use bevy_mod_ffi::plugin::{
    begin_library_load, finish_library_load, handle_library_changes, handle_library_loading,
    library_owner, mark_loaded, unload_library, AssetEvent, AssetId, DynamicPluginHandle,
    DynamicPluginLoaderError, DynamicPlugins, LoadedLibrary, PluginCommand, PluginEntity,
};
use bevy_mod_ffi::registry::{LibraryId, ObserverId, SharedRegistry};
use bevy_mod_ffi::system::{Callback, ParamBuilder};
use bevy_mod_ffi::world::World;

fn plugin(entity: u64, asset: u64, loaded: Option<u64>) -> PluginEntity {
    PluginEntity {
        entity: Entity::from_bits(entity),
        plugin: DynamicPluginHandle {
            handle: AssetId { id: asset },
            loaded: loaded.map(|id| LibraryId { id }),
        },
    }
}

fn load(entity: u64, asset: u64) -> PluginCommand {
    PluginCommand::Load { entity: Entity::from_bits(entity), asset: AssetId { id: asset } }
}

fn unload(library: u64) -> PluginCommand {
    PluginCommand::Unload { library: LibraryId { id: library } }
}

#[test]
fn ready_libraries_without_a_load_are_loaded() {
    let mut tracker = DynamicPlugins::new();
    let plugins = vec![plugin(1, 10, None), plugin(2, 20, Some(5)), plugin(3, 30, None), plugin(4, 40, None)];
    let ready = vec![AssetId { id: 40 }, AssetId { id: 20 }, AssetId { id: 10 }];
    let commands = handle_library_loading(&mut tracker, &plugins, &ready);
    assert_eq!(commands, vec![load(1, 10), load(4, 40)]);
    assert_eq!(tracker.get(AssetId { id: 10 }), Some(Entity::from_bits(1)));
    assert_eq!(tracker.get(AssetId { id: 40 }), Some(Entity::from_bits(4)));
    assert_eq!(tracker.get(AssetId { id: 20 }), None);
    assert_eq!(tracker.get(AssetId { id: 30 }), None);
}

#[test]
fn changed_library_is_unloaded_and_loaded_anew() {
    let mut tracker = DynamicPlugins::new();
    tracker.insert(AssetId { id: 10 }, Entity::from_bits(1));
    tracker.insert(AssetId { id: 20 }, Entity::from_bits(2));
    tracker.insert(AssetId { id: 30 }, Entity::from_bits(3));
    let mut plugins = vec![plugin(1, 10, Some(7)), plugin(2, 20, None), plugin(3, 30, Some(9))];
    let events = vec![
        AssetEvent::Modified { id: AssetId { id: 10 } },
        AssetEvent::Other,
        AssetEvent::Modified { id: AssetId { id: 20 } },
        AssetEvent::Modified { id: AssetId { id: 30 } },
        AssetEvent::Modified { id: AssetId { id: 99 } },
    ];
    let ready = vec![AssetId { id: 10 }, AssetId { id: 20 }];
    let commands = handle_library_changes(&mut tracker, &mut plugins, &events, &ready);
    assert_eq!(commands, vec![unload(7), load(1, 10), load(2, 20), unload(9)]);
    assert_eq!(plugins, vec![plugin(1, 10, None), plugin(2, 20, None), plugin(3, 30, None)]);
    assert_eq!(tracker.get(AssetId { id: 30 }), Some(Entity::from_bits(3)));
}

#[test]
fn removed_library_is_unloaded_and_forgotten() {
    let mut tracker = DynamicPlugins::new();
    tracker.insert(AssetId { id: 10 }, Entity::from_bits(1));
    tracker.insert(AssetId { id: 20 }, Entity::from_bits(2));
    tracker.insert(AssetId { id: 30 }, Entity::from_bits(8));
    let mut plugins = vec![plugin(1, 10, Some(7)), plugin(2, 20, None)];
    let events = vec![
        AssetEvent::Removed { id: AssetId { id: 10 } },
        AssetEvent::Removed { id: AssetId { id: 20 } },
        AssetEvent::Removed { id: AssetId { id: 30 } },
        AssetEvent::Removed { id: AssetId { id: 10 } },
        AssetEvent::Modified { id: AssetId { id: 10 } },
    ];
    let ready = vec![AssetId { id: 10 }];
    let commands = handle_library_changes(&mut tracker, &mut plugins, &events, &ready);
    assert_eq!(commands, vec![unload(7)]);
    assert_eq!(plugins, vec![plugin(1, 10, None), plugin(2, 20, None)]);
    assert_eq!(tracker.get(AssetId { id: 10 }), None);
    assert_eq!(tracker.get(AssetId { id: 20 }), None);
    assert_eq!(tracker.get(AssetId { id: 30 }), None);
}

#[test]
fn changed_file_of_an_entity_without_plugin_is_left_alone() {
    let mut tracker = DynamicPlugins::new();
    tracker.insert(AssetId { id: 10 }, Entity::from_bits(5));
    let mut plugins = vec![plugin(1, 10, Some(7))];
    let events = vec![AssetEvent::Modified { id: AssetId { id: 10 } }];
    let ready = vec![AssetId { id: 10 }];
    assert_eq!(handle_library_changes(&mut tracker, &mut plugins, &events, &ready), vec![]);
    assert_eq!(plugins, vec![plugin(1, 10, Some(7))]);
}

#[test]
fn tracker_keeps_one_entity_per_asset() {
    let mut tracker = DynamicPlugins::new();
    assert_eq!(tracker.get(AssetId { id: 1 }), None);
    assert_eq!(tracker.remove(AssetId { id: 1 }), None);
    tracker.insert(AssetId { id: 1 }, Entity::from_bits(10));
    tracker.insert(AssetId { id: 2 }, Entity::from_bits(20));
    tracker.insert(AssetId { id: 1 }, Entity::from_bits(11));
    assert_eq!(tracker.get(AssetId { id: 1 }), Some(Entity::from_bits(11)));
    assert_eq!(tracker.remove(AssetId { id: 1 }), Some(Entity::from_bits(11)));
    assert_eq!(tracker.get(AssetId { id: 1 }), None);
    assert_eq!(tracker.get(AssetId { id: 2 }), Some(Entity::from_bits(20)));
}

#[test]
fn loaded_library_is_noted_on_its_entity() {
    let mut plugins = vec![plugin(1, 10, None), plugin(2, 20, None)];
    let library = LoadedLibrary::new(LibraryId { id: 3 });
    assert!(mark_loaded(&mut plugins, Entity::from_bits(2), library));
    assert!(!mark_loaded(&mut plugins, Entity::from_bits(9), library));
    assert_eq!(plugins, vec![plugin(1, 10, None), plugin(2, 20, Some(3))]);
}

#[test]
fn what_a_library_adds_while_loading_goes_with_it() {
    let mut registry = SharedRegistry::new();
    registry.register_event("E", 0, 1).unwrap();
    let world = World::new();
    let host_side = registry
        .add_observer("E", ParamBuilder::new().build(&world).unwrap(), Callback::new(1, 0))
        .unwrap();
    let library = begin_library_load(&mut registry).unwrap();
    assert_eq!(library, LibraryId { id: 0 });
    assert_eq!(registry.current_library(), Some(library));
    let guest_side = registry
        .add_observer("E", ParamBuilder::new().build(&world).unwrap(), Callback::new(2, 0))
        .unwrap();
    let loaded = finish_library_load(&mut registry, library);
    assert_eq!(loaded.id, library);
    assert_eq!(registry.current_library(), None);
    assert_eq!(registry.trigger("E", &[]).unwrap().observers.len(), 2);
    let next = begin_library_load(&mut registry).unwrap();
    assert_eq!(next, LibraryId { id: 1 });
    finish_library_load(&mut registry, next);

    let unloaded = loaded.unload(&mut registry);
    assert_eq!(unloaded.observers, vec![guest_side]);
    assert_eq!(guest_side, ObserverId { id: 1 });
    let left = registry.trigger("E", &[]).unwrap().observers;
    assert_eq!(left.len(), 1);
    assert_eq!(left[0].observer, host_side);
}

#[test]
fn loader_error_says_what_failed() {
    assert_eq!(DynamicPluginLoaderError::NoPath.message(), "Failed to get asset path");
}

#[test]
fn owner_tag_is_the_library_number_plus_one() {
    assert_eq!(library_owner(None), 0);
    assert_eq!(library_owner(Some(LibraryId { id: 0 })), 1);
    assert_eq!(library_owner(Some(LibraryId { id: 41 })), 42);
    assert_eq!(library_owner(Some(LibraryId { id: u64::MAX })), u64::MAX);
}

#[test]
fn unloaded_library_leaves_nothing_behind() {
    let mut registry = SharedRegistry::new();
    let mut world = World::new();
    let mut queries = QueryTables::new();
    let mut systems = SystemTables::new();
    registry.register_event("E", 0, 1).unwrap();
    let layout = ComponentLayout::new(1, 1, StorageType::Table);
    let host_resource = world.register_resource_from_type_path("Host", layout).unwrap();
    world.insert_resource(host_resource, &[1]).unwrap();
    let host_builder = queries.query_builder_new(library_owner(None)).unwrap();

    let library = begin_library_load(&mut registry).unwrap();
    let owner = library_owner(registry.current_library());
    assert_eq!(owner, 1);
    let guest_resource = world.register_resource_from_type_path("Guest", layout).unwrap();
    world.insert_resource(guest_resource, &[2]).unwrap();
    registry.register_resource(guest_resource);
    let guest_builder = queries.query_builder_new(owner).unwrap();
    let guest_params = systems.param_builder_new(owner).unwrap();
    let observer = registry
        .add_observer("E", ParamBuilder::new().build(&world).unwrap(), Callback::new(1, 0))
        .unwrap();
    let loaded = finish_library_load(&mut registry, library);

    let unloaded = unload_library(loaded, &mut registry, &mut world, &mut queries, &mut systems);
    assert_eq!(unloaded.observers, vec![observer]);
    assert_eq!(unloaded.resources, vec![guest_resource]);
    assert_eq!(world.get_resource_by_id(guest_resource), None);
    assert_eq!(world.get_resource_by_id(host_resource), Some(&[1u8][..]));
    assert!(!queries.query_builder_drop(guest_builder));
    assert!(!systems.param_builder_drop(guest_params));
    assert!(queries.query_builder_drop(host_builder));
    assert_eq!(registry.trigger("E", &[]).unwrap().observers, vec![]);
    assert_eq!(world.get_resource_id_from_type_path("Guest"), Some(guest_resource));
}
