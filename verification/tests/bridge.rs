use bevy_mod_ffi::bridge::{QueryTables, SystemTables};
use bevy_mod_ffi::component::{ComponentHooks, ComponentId, ComponentLayout, StorageType};
use bevy_mod_ffi::entity::Entity;
use bevy_mod_ffi::handle::{dyn_system_param, query_builder, Handle};
use bevy_mod_ffi::query::{Access, AccessTerm};
use bevy_mod_ffi::system::Callback;
use bevy_mod_ffi::world::World;

fn world_with(names: &[&str]) -> (World, Vec<ComponentId>) {
    let mut world = World::new();
    let mut ids = Vec::new();
    for name in names {
        let layout = ComponentLayout::new(1, 1, StorageType::Table);
        ids.push(
            world.register_component_from_type_path(name, layout, ComponentHooks::none()).unwrap(),
        );
    }
    (world, ids)
}

#[test]
fn built_builder_leaves_a_stale_handle() {
    let (world, ids) = world_with(&["A"]);
    let mut tables = QueryTables::new();
    let builder = tables.query_builder_new(0).unwrap();
    assert!(tables.query_builder_with_ref(builder, ids[0].index()));
    let state = tables.query_builder_build(builder, &world).unwrap();
    assert!(!tables.query_builder_with_ref(builder, ids[0].index()));
    assert!(tables.query_builder_build(builder, &world).is_none());
    assert!(!tables.query_builder_drop(builder));
    assert_eq!(
        tables.query_state_terms(state),
        Some(vec![AccessTerm { id: ids[0], access: Access::Read }])
    );
    assert!(tables.query_state_drop(state));
    assert!(!tables.query_state_drop(state));
    assert_eq!(tables.query_state_terms(state), None);
}

#[test]
fn failed_build_spends_the_builder_too() {
    let (world, ids) = world_with(&["A"]);
    let mut tables = QueryTables::new();
    let builder = tables.query_builder_new(0).unwrap();
    assert!(tables.query_builder_with_mut(builder, ids[0].index()));
    assert!(tables.query_builder_without(builder, ids[0].index()));
    assert!(tables.query_builder_build(builder, &world).is_none());
    assert!(!tables.query_builder_drop(builder));
    let unknown = tables.query_builder_new(0).unwrap();
    assert_ne!(unknown.to_bits(), builder.to_bits());
    assert!(tables.query_builder_with(unknown, 9));
    assert!(tables.query_builder_build(unknown, &world).is_none());
}

#[test]
fn handles_of_another_table_are_turned_down() {
    let mut tables = QueryTables::new();
    let forged: Handle<query_builder> = Handle::from_bits(0x1_0000_0000);
    assert!(!tables.query_builder_with_ref(forged, 0));
    assert!(!tables.query_builder_drop(forged));
    assert!(!tables.query_builder_drop(Handle::null()));
    let builder = tables.query_builder_new(0).unwrap();
    assert_eq!(builder.to_bits(), forged.to_bits());
    assert!(tables.query_builder_drop(forged));
    assert!(!tables.query_builder_drop(builder));
}

#[test]
fn iteration_by_handle_reaches_each_match_once() {
    let (mut world, ids) = world_with(&["A", "B"]);
    let (a, b) = (ids[0], ids[1]);
    for i in 0..4u8 {
        let entity = world.spawn_empty();
        world.insert(entity, a, &[i], None).unwrap();
        if i % 2 == 1 {
            world.insert(entity, b, &[i], None).unwrap();
        }
    }
    let mut tables = QueryTables::new();
    let builder = tables.query_builder_new(0).unwrap();
    tables.query_builder_with_mut(builder, a.index());
    tables.query_builder_with(builder, b.index());
    let state = tables.query_builder_build(builder, &world).unwrap();
    let iter = tables.query_state_iter_mut(state, &world).unwrap();
    let mut seen = Vec::new();
    while let Some((bits, view)) = tables.query_iter_next(iter) {
        assert_eq!(tables.filtered_entity_mut_access(view, a.index(), false), Some(Entity::from_bits(bits)));
        assert_eq!(tables.filtered_entity_mut_access(view, a.index(), true), Some(Entity::from_bits(bits)));
        assert_eq!(tables.filtered_entity_mut_access(view, b.index(), false), None);
        assert_eq!(tables.filtered_entity_mut_get_component(view, &world, b.index()), None);
        let bytes = tables.filtered_entity_mut_get_component_mut(view, &mut world, a.index()).unwrap();
        bytes[0] *= 10;
        assert!(tables.filtered_entity_mut_drop(view));
        assert!(!tables.filtered_entity_mut_drop(view));
        assert_eq!(tables.filtered_entity_mut_get_component(view, &world, a.index()), None);
        seen.push(bits);
    }
    assert_eq!(seen, vec![1, 3]);
    assert!(tables.query_iter_next(iter).is_none());
    assert!(tables.query_iter_drop(iter));
    assert!(tables.query_iter_next(iter).is_none());
    assert!(!tables.query_iter_drop(iter));
    assert_eq!(world.get(Entity::from_bits(1), a), Some(&[10u8][..]));
    assert_eq!(world.get(Entity::from_bits(3), a), Some(&[30u8][..]));
    assert_eq!(world.get(Entity::from_bits(2), a), Some(&[2u8][..]));
    assert!(tables.query_state_iter_mut(state, &world).is_some());
}

#[test]
fn query_builder_is_handed_over_to_the_param_builder() {
    let (world, ids) = world_with(&["A"]);
    let mut queries = QueryTables::new();
    let mut systems = SystemTables::new();
    let params = systems.param_builder_new(0).unwrap();
    let query = queries.query_builder_new(0).unwrap();
    queries.query_builder_with_ref(query, ids[0].index());
    assert!(!systems.param_builder_add_query(Handle::null(), &mut queries, query));
    assert!(queries.query_builder_with(query, ids[0].index()));
    assert!(systems.param_builder_add_query(params, &mut queries, query));
    assert!(!queries.query_builder_drop(query));
    assert!(!systems.param_builder_add_query(params, &mut queries, query));
    assert!(systems.param_builder_add_commands(params));
    assert!(systems.param_builder_add_deferred_world(params));
    let state = systems.param_builder_build(params, &world).unwrap();
    assert!(!systems.param_builder_add_commands(params));
    assert!(!systems.param_builder_drop(params));
    let handles = systems.system_state_get(state, &world).unwrap();
    assert_eq!(handles.len(), 3);
    assert!(systems.system_state_drop(state));
    assert!(!systems.system_state_drop(state));
    assert!(systems.dyn_system_param_downcast_query(handles[0]).is_none());
}

#[test]
fn fetched_parameters_live_until_the_release() {
    let (world, ids) = world_with(&["A"]);
    let mut queries = QueryTables::new();
    let mut systems = SystemTables::new();
    let params = systems.param_builder_new(0).unwrap();
    let query = queries.query_builder_new(0).unwrap();
    queries.query_builder_with_mut(query, ids[0].index());
    systems.param_builder_add_query(params, &mut queries, query);
    systems.param_builder_add_commands(params);
    let state = systems.param_builder_build(params, &world).unwrap();
    assert!(!systems.dyn_system_params_drop(state));

    let handles = systems.system_state_get(state, &world).unwrap();
    assert!(systems.system_state_get(state, &world).is_none());
    assert!(systems.dyn_system_param_downcast_commands(handles[0]).is_none());
    assert!(systems.dyn_system_param_downcast_deferred_world(handles[0]).is_none());
    let query = systems.dyn_system_param_downcast_query(handles[0]).unwrap();
    assert_eq!(query.to_bits(), handles[0].to_bits());
    assert!(systems.dyn_system_param_downcast_query(handles[0]).is_none());
    assert!(!systems.query_drop(query));
    assert_eq!(
        systems.query_terms(query),
        Some(vec![AccessTerm { id: ids[0], access: Access::Write }])
    );
    assert!(!systems.commands_push(handles[1].cast(), Callback::new(1, 1)));
    let commands = systems.dyn_system_param_downcast_commands(handles[1]).unwrap();
    assert!(systems.commands_push(commands, Callback::new(1, 1)));
    assert!(systems.commands_push(commands, Callback::new(2, 2)));
    assert!(!systems.commands_push(query.cast(), Callback::new(3, 3)));
    assert_eq!(systems.query_terms(commands.cast()), None);

    assert_eq!(systems.system_state_apply(state), Some(vec![]));
    assert!(systems.dyn_system_params_drop(state));
    assert!(!systems.dyn_system_params_drop(state));
    assert_eq!(systems.query_terms(query), None);
    assert!(!systems.commands_push(commands, Callback::new(4, 4)));
    assert!(systems.system_state_get(state, &world).is_none());
    assert_eq!(
        systems.system_state_apply(state),
        Some(vec![Callback::new(1, 1), Callback::new(2, 2)])
    );
    let again = systems.system_state_get(state, &world).unwrap();
    assert_eq!(again.len(), 2);
    let stale: Vec<Handle<dyn_system_param>> = handles;
    assert!(systems.dyn_system_param_downcast_query(stale[0]).is_none());
    assert_ne!(again[0].to_bits(), stale[0].to_bits());
}

#[test]
fn system_runs_by_handle() {
    let (mut world, ids) = world_with(&["A"]);
    let a = ids[0];
    for value in [4u8, 5] {
        let entity = world.spawn_empty();
        world.insert(entity, a, &[value], None).unwrap();
    }
    let mut queries = QueryTables::new();
    let mut systems = SystemTables::new();
    let params = systems.param_builder_new(0).unwrap();
    let query = queries.query_builder_new(0).unwrap();
    queries.query_builder_with_mut(query, a.index());
    systems.param_builder_add_query(params, &mut queries, query);
    systems.param_builder_add_commands(params);
    let state = systems.param_builder_build(params, &world).unwrap();
    let body = Callback::new(0xB0D1, 0xC0);
    assert!(systems.world_run_system(state.cast(), &world).is_none());
    let system = systems.system_state_build(state, body).unwrap();
    assert_ne!(system.to_bits(), state.to_bits());
    assert!(systems.system_state_get(state, &world).is_none());
    assert!(systems.system_state_get(system.cast(), &world).is_none());
    assert!(systems.system_state_build(system.cast(), body).is_none());
    assert!(systems.system_finish_run(system).is_none());

    let call = systems.world_run_system(system, &world).unwrap();
    assert_eq!(call.callback, body);
    assert!(systems.world_run_system(system, &world).is_none());
    let query = systems.dyn_system_param_downcast_query(call.params[0]).unwrap();
    let commands = systems.dyn_system_param_downcast_commands(call.params[1]).unwrap();
    let iter = systems.query_iter_mut(query, &mut queries, &world).unwrap();
    while let Some((bits, view)) = queries.query_iter_next(iter) {
        let bytes = queries.filtered_entity_mut_get_component_mut(view, &mut world, a.index()).unwrap();
        bytes[0] *= 2;
        systems.commands_push(commands, Callback::new(7, bits as usize));
        queries.filtered_entity_mut_drop(view);
    }
    queries.query_iter_drop(iter);
    assert_eq!(
        systems.system_finish_run(system),
        Some(vec![Callback::new(7, 0), Callback::new(7, 1)])
    );
    assert_eq!(world.get(Entity::from_bits(0), a), Some(&[8u8][..]));
    assert_eq!(world.get(Entity::from_bits(1), a), Some(&[10u8][..]));
    assert!(systems.world_run_system(system, &world).is_some());
    assert!(!systems.system_state_drop(system.cast()));
    assert!(systems.system_drop(system));
    assert!(!systems.system_drop(system));
    assert!(systems.world_run_system(system, &world).is_none());
}

#[test]
fn deferred_world_makes_queries_of_its_own() {
    let (mut world, ids) = world_with(&["A"]);
    let entity = world.spawn_empty();
    world.insert(entity, ids[0], &[1], None).unwrap();
    let mut queries = QueryTables::new();
    let mut systems = SystemTables::new();
    let builder = queries.query_builder_new(0).unwrap();
    queries.query_builder_with_ref(builder, ids[0].index());
    let state = queries.query_builder_build(builder, &world).unwrap();
    let deferred = systems.deferred_world_new(0).unwrap();
    assert!(systems.deferred_world_check(deferred));
    assert!(systems.deferred_world_query(deferred, &queries, Handle::null()).is_none());
    assert!(systems.deferred_world_query(Handle::null(), &queries, state).is_none());
    let query = systems.deferred_world_query(deferred, &queries, state).unwrap();
    assert!(!systems.deferred_world_check(query.cast()));
    let iter = systems.query_iter_mut(query, &mut queries, &world).unwrap();
    assert_eq!(queries.query_iter_next(iter).unwrap().0, 0);
    assert!(queries.query_iter_next(iter).is_none());
    assert!(!systems.deferred_world_drop(query.cast()));
    assert!(systems.query_drop(query));
    assert!(!systems.query_drop(query));
    assert!(systems.query_iter_mut(query, &mut queries, &world).is_none());
    assert!(!systems.query_drop(deferred.cast()));
    assert!(systems.deferred_world_drop(deferred));
    assert!(!systems.deferred_world_check(deferred));
    assert!(!systems.deferred_world_drop(deferred));
}

#[test]
fn state_is_taken_out_for_an_observer() {
    let world = World::new();
    let mut systems = SystemTables::new();
    let params = systems.param_builder_new(0).unwrap();
    systems.param_builder_add_commands(params);
    let state = systems.param_builder_build(params, &world).unwrap();
    let handles = systems.system_state_get(state, &world).unwrap();
    assert_eq!(handles.len(), 1);
    assert!(systems.take_system_state(state).is_none());
    assert!(systems.dyn_system_params_drop(state));
    let taken = systems.take_system_state(state).unwrap();
    assert_eq!(taken.param_count(), 1);
    assert!(systems.take_system_state(state).is_none());
    assert!(!systems.system_state_drop(state));
}

#[test]
fn unloaded_owner_leaves_no_handle_behind() {
    let (mut world, ids) = world_with(&["A"]);
    let entity = world.spawn_empty();
    world.insert(entity, ids[0], &[1], None).unwrap();
    let mut queries = QueryTables::new();
    let mut systems = SystemTables::new();

    let kept_builder = queries.query_builder_new(1).unwrap();
    queries.query_builder_with_ref(kept_builder, ids[0].index());
    let kept_state = queries.query_builder_build(kept_builder, &world).unwrap();

    let builder = queries.query_builder_new(2).unwrap();
    queries.query_builder_with_ref(builder, ids[0].index());
    let state = queries.query_builder_build(builder, &world).unwrap();
    assert_eq!(queries.query_state_owner(state), Some(2));
    let iter = queries.query_state_iter_mut(state, &world).unwrap();
    let (_, view) = queries.query_iter_next(iter).unwrap();
    let loose = queries.query_builder_new(2).unwrap();

    let params = systems.param_builder_new(2).unwrap();
    systems.param_builder_add_commands(params);
    let system_state = systems.param_builder_build(params, &world).unwrap();
    let handles = systems.system_state_get(system_state, &world).unwrap();
    let commands = systems.dyn_system_param_downcast_commands(handles[0]).unwrap();
    let kept_params = systems.param_builder_new(1).unwrap();
    let kept_system_state = systems.param_builder_build(kept_params, &world).unwrap();
    let deferred = systems.deferred_world_new(2).unwrap();
    let free_query = systems.deferred_world_query(deferred, &queries, kept_state).unwrap();
    assert_eq!(systems.query_owner(free_query), Some(2));

    queries.purge(2);
    systems.purge(2);

    assert!(!queries.query_builder_drop(loose));
    assert_eq!(queries.query_state_terms(state), None);
    assert!(queries.query_iter_next(iter).is_none());
    assert_eq!(queries.filtered_entity_mut_access(view, ids[0].index(), false), None);
    assert!(!systems.commands_push(commands, Callback::new(1, 1)));
    assert!(!systems.dyn_system_params_drop(system_state));
    assert!(systems.system_state_get(system_state, &world).is_none());
    assert!(!systems.deferred_world_check(deferred));
    assert_eq!(systems.query_terms(free_query), None);

    assert_eq!(queries.query_state_owner(kept_state), Some(1));
    assert!(queries.query_state_iter_mut(kept_state, &world).is_some());
    assert!(systems.system_state_get(kept_system_state, &world).is_some());
}

#[test]
fn fresh_tables_know_no_handle() {
    let mut queries = QueryTables::new();
    assert!(queries
        .query_state_terms(Handle::from_bits((1u64 << 32) | 1))
        .is_none());
    assert!(!queries.query_builder_drop(Handle::<query_builder>::from_bits(1 << 32)));
    let first = queries.query_builder_new(0).expect("room in a fresh table");
    assert!(queries.query_builder_drop(first));

    let mut systems = SystemTables::new();
    assert!(!systems.system_state_drop(Handle::from_bits(1 << 32)));
    assert!(systems.param_builder_new(0).is_some());
}
