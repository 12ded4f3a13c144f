use bevy_mod_ffi::component::{ComponentHooks, ComponentId, ComponentLayout, StorageType};
use bevy_mod_ffi::query::{find_matching, Access, AccessTerm, QueryBuilder};
use bevy_mod_ffi::system::{Callback, DynParam, ParamBuilder, ParamCursor};
use bevy_mod_ffi::world::World;

const COUNTER: &str = "bevy_mod_ffi_test_core::Counter";
const TEST_MARKER: &str = "bevy_mod_ffi_test_core::TestMarker";
const GUEST_MARKER: &str = "bevy_mod_ffi_test_guest::GuestMarker";

fn setup_world() -> World {
    let mut world = World::new();
    world
        .register_component_from_type_path(
            COUNTER,
            ComponentLayout::new(4, 4, StorageType::Table),
            ComponentHooks::none(),
        )
        .unwrap();
    world
        .register_component_from_type_path(
            TEST_MARKER,
            ComponentLayout::new(0, 1, StorageType::Table),
            ComponentHooks::none(),
        )
        .unwrap();
    world
}

fn spawn(world: &mut World, components: &[(ComponentId, &[u8])]) {
    let entity = world.spawn_empty();
    for (id, bytes) in components {
        world.insert(entity, *id, bytes, None).unwrap();
    }
}

fn run_system(
    world: &mut World,
    terms: &[(ComponentId, Access)],
    mut body: impl FnMut(&mut World, &mut bevy_mod_ffi::query::Query),
) -> Result<(), String> {
    let mut query = QueryBuilder::new();
    for (id, access) in terms {
        query.add(*id, *access);
    }
    let mut params = ParamBuilder::new();
    params.add_query(query);
    let state = params.build(world).map_err(|e| format!("{:?}", e))?;
    let mut system = state.build(Callback::new(1, 0)).map_err(|e| format!("{:?}", e))?;
    let run = system.begin_run(world).map_err(|e| format!("{:?}", e))?;
    let mut cursor = ParamCursor::new(run.params);
    let mut query = cursor.next().unwrap().downcast_query().unwrap();
    body(world, &mut query);
    let commands =
        system.finish_run(vec![DynParam::Query(query)]).map_err(|e| format!("{:?}", e))?;
    assert!(commands.is_empty());
    Ok(())
}

fn guest_main(world: &mut World) -> Result<(), String> {
    let guest_marker = world
        .register_component_from_type_path(
            GUEST_MARKER,
            ComponentLayout::new(0, 1, StorageType::Table),
            ComponentHooks::none(),
        )
        .map_err(|e| format!("{:?}", e))?;
    let counter = world.get_component_id_from_type_path(COUNTER).ok_or("no Counter")?;
    let test_marker = world.get_component_id_from_type_path(TEST_MARKER).ok_or("no TestMarker")?;

    spawn(
        world,
        &[(guest_marker, &[]), (counter, &42i32.to_ne_bytes()), (test_marker, &[])],
    );
    spawn(world, &[(guest_marker, &[]), (counter, &100i32.to_ne_bytes())]);

    run_system(
        world,
        &[(counter, Access::Write), (guest_marker, Access::With)],
        |world, query| {
            let mut iter = query.iter_mut(world);
            while let Some(mut view) = iter.next() {
                let bytes = view.get_mut_by_id(world, counter).unwrap();
                let value = i32::from_ne_bytes([bytes[0], bytes[1], bytes[2], bytes[3]]);
                bytes.copy_from_slice(&(value * 2).to_ne_bytes());
            }
        },
    )?;

    run_system(
        world,
        &[(counter, Access::Read), (test_marker, Access::With)],
        |world, query| {
            let mut iter = query.iter_mut(world);
            let mut count = 0;
            while iter.next().is_some() {
                count += 1;
            }
            assert_eq!(count, 1, "Expected 1 entity with TestMarker, found {}", count);
        },
    )?;

    spawn(world, &[(guest_marker, &[]), (counter, &0i32.to_ne_bytes())]);
    Ok(())
}

fn counters(world: &World) -> Vec<i32> {
    let counter = world.get_component_id_from_type_path(COUNTER).unwrap();
    let terms = vec![AccessTerm { id: counter, access: Access::Read }];
    find_matching(&terms, world)
        .iter()
        .map(|entity| {
            let bytes = world.get(*entity, counter).unwrap();
            i32::from_ne_bytes([bytes[0], bytes[1], bytes[2], bytes[3]])
        })
        .collect()
}

#[test]
fn test_guest_library_loads() {
    let mut world = setup_world();
    let result = guest_main(&mut world);
    assert!(result.is_ok(), "Failed to load guest library: {:?}", result.err());
}

#[test]
fn test_entities_spawned_by_guest() {
    let mut world = setup_world();
    guest_main(&mut world).expect("Failed to load guest library");
    let count = counters(&world).len();
    assert_eq!(count, 3, "Expected 3 entities with Counter, found {}", count);
}

#[test]
fn test_component_values_modified_by_guest() {
    let mut world = setup_world();
    guest_main(&mut world).expect("Failed to load guest library");
    let values: Vec<i32> = counters(&world);
    assert!(values.contains(&84), "Expected counter value 84 (42*2), found {:?}", values);
    assert!(values.contains(&200), "Expected counter value 200 (100*2), found {:?}", values);
}

#[test]
fn test_filter_query_works() {
    let mut world = setup_world();
    guest_main(&mut world).expect("Failed to load guest library");
    let counter = world.get_component_id_from_type_path(COUNTER).unwrap();
    let test_marker = world.get_component_id_from_type_path(TEST_MARKER).unwrap();
    let terms = vec![
        AccessTerm { id: counter, access: Access::Read },
        AccessTerm { id: test_marker, access: Access::Read },
    ];
    let count = find_matching(&terms, &world).len();
    assert_eq!(count, 1, "Expected 1 entity with Counter+TestMarker, found {}", count);
}

#[test]
fn doubled_counters_are_exactly_the_doubles() {
    let mut world = setup_world();
    guest_main(&mut world).unwrap();
    assert_eq!(counters(&world), vec![84, 200, 0]);
}
