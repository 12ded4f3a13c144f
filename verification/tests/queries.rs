use bevy_mod_ffi::component::{ComponentHooks, ComponentId, ComponentLayout, StorageType};
use bevy_mod_ffi::example::DynamicComponent;
use bevy_mod_ffi::entity::Entity;
use bevy_mod_ffi::query::{
    find_matching, is_conflicting, Access, AccessTerm, QueryBuilder, QueryError, QueryFilter, With,
    Without,
};
use bevy_mod_ffi::world::World;

fn world_with(names: &[&str]) -> (World, Vec<ComponentId>) {
    let mut world = World::new();
    let mut ids = Vec::new();
    for name in names {
        let layout = ComponentLayout::new(4, 4, StorageType::Table);
        ids.push(
            world.register_component_from_type_path(name, layout, ComponentHooks::none()).unwrap(),
        );
    }
    (world, ids)
}

fn term(id: ComponentId, access: Access) -> AccessTerm {
    AccessTerm { id, access }
}

#[test]
fn query_yields_the_one_matching_entity_once() {
    let (mut world, ids) = world_with(&["C1", "C2", "C3"]);
    let (c1, c2, c3) = (ids[0], ids[1], ids[2]);
    let only_c1 = world.spawn_empty();
    world.insert(only_c1, c1, &[1; 4], None).unwrap();
    let both = world.spawn_empty();
    world.insert(both, c1, &[1, 1, 1, 1], None).unwrap();
    world.insert(both, c2, &[2, 2, 2, 2], None).unwrap();
    world.insert(both, c3, &[3, 3, 3, 3], None).unwrap();
    let only_c2 = world.spawn_empty();
    world.insert(only_c2, c2, &[2; 4], None).unwrap();

    let mut builder = QueryBuilder::new();
    builder.with_ref_id(c1).with_mut_id(c2);
    let mut state = builder.build(&world).unwrap();
    let mut iter = state.iter_mut(&world);
    let mut view = iter.next().unwrap();
    assert_eq!(view.id(), both);
    assert_eq!(view.get_by_id(&world, c1), Some(&[1u8, 1, 1, 1][..]));
    assert_eq!(view.get_by_id(&world, c2), Some(&[2u8, 2, 2, 2][..]));
    assert_eq!(view.get_by_id(&world, c3), None);
    assert!(world.has(both, c3));
    assert!(view.get_mut_by_id(&mut world, c1).is_none());
    assert!(view.get_mut_by_id(&mut world, c3).is_none());
    {
        let bytes = view.get_mut_by_id(&mut world, c2).unwrap();
        bytes[0] = 9;
    }
    assert_eq!(world.get(both, c2), Some(&[9u8, 2, 2, 2][..]));
    assert!(iter.next().is_none());
    assert!(iter.next().is_none());
}

#[test]
fn spawned_bytes_come_back_bit_for_bit() {
    let (mut world, ids) = world_with(&["Blob"]);
    let entity = world.spawn_empty();
    world.insert(entity, ids[0], &[0x00, 0xFF, 0x80, 0x7F], None).unwrap();
    let mut builder = QueryBuilder::new();
    builder.with_ref_id(ids[0]);
    let mut state = builder.build(&world).unwrap();
    let mut iter = state.iter_mut(&world);
    let view = iter.next().unwrap();
    assert_eq!(view.id(), entity);
    assert_eq!(view.get_by_id(&world, ids[0]), Some(&[0x00u8, 0xFF, 0x80, 0x7F][..]));
    assert!(iter.next().is_none());
}

#[test]
fn matching_entities_come_in_the_order_of_their_rows() {
    let (mut world, ids) = world_with(&["A", "B"]);
    let (a, b) = (ids[0], ids[1]);
    let mut with_a = Vec::new();
    for i in 0..6u8 {
        let entity = world.spawn_empty();
        if i % 2 == 0 {
            world.insert(entity, a, &[i; 4], None).unwrap();
            with_a.push(entity);
        }
        if i % 3 == 0 {
            world.insert(entity, b, &[i; 4], None).unwrap();
        }
    }
    assert_eq!(find_matching(&vec![term(a, Access::Read)], &world), with_a);
    assert_eq!(
        find_matching(&vec![term(a, Access::Read), term(b, Access::Without)], &world),
        vec![Entity::from_bits(2), Entity::from_bits(4)]
    );
    assert_eq!(
        find_matching(&vec![term(a, Access::With), term(b, Access::Write)], &world),
        vec![Entity::from_bits(0)]
    );
    assert_eq!(find_matching(&vec![], &world).len(), 6);
    world.despawn(Entity::from_bits(2), None).unwrap();
    assert_eq!(
        find_matching(&vec![term(a, Access::Read)], &world),
        vec![Entity::from_bits(0), Entity::from_bits(4)]
    );
    assert_eq!(find_matching(&vec![], &world).len(), 5);
}

#[test]
fn iteration_goes_over_the_entities_that_matched_when_it_began() {
    let (mut world, ids) = world_with(&["A"]);
    let a = ids[0];
    let first = world.spawn_empty();
    world.insert(first, a, &[1; 4], None).unwrap();
    let second = world.spawn_empty();
    world.insert(second, a, &[2; 4], None).unwrap();
    let mut builder = QueryBuilder::new();
    builder.with_mut_id(a);
    let mut state = builder.build(&world).unwrap();
    let mut iter = state.iter_mut(&world);
    let third = world.spawn_empty();
    world.insert(third, a, &[3; 4], None).unwrap();
    world.remove(second, a, None).unwrap();
    assert_eq!(iter.next().unwrap().id(), first);
    let gone = iter.next().unwrap();
    assert_eq!(gone.id(), second);
    assert_eq!(gone.get_by_id(&world, a), None);
    assert!(iter.next().is_none());
    let mut again = state.iter_mut(&world);
    assert_eq!(again.next().unwrap().id(), first);
    assert_eq!(again.next().unwrap().id(), third);
    assert!(again.next().is_none());
}

#[test]
fn filters_do_not_open_the_view() {
    let (mut world, ids) = world_with(&["A", "B"]);
    let (a, b) = (ids[0], ids[1]);
    let entity = world.spawn_empty();
    world.insert(entity, a, &[1; 4], None).unwrap();
    world.insert(entity, b, &[2; 4], None).unwrap();
    let mut builder = QueryBuilder::new();
    builder.with_ref_id(a).with_id(b);
    let mut state = builder.build(&world).unwrap();
    let mut iter = state.iter_mut(&world);
    let mut view = iter.next().unwrap();
    assert!(view.get_by_id(&world, a).is_some());
    assert!(view.get_by_id(&world, b).is_none());
    assert!(view.get_mut_by_id(&mut world, a).is_none());
    assert!(view.get_mut_by_id(&mut world, b).is_none());
}

#[test]
fn build_checks_the_terms() {
    let (world, ids) = world_with(&["A", "B"]);
    let (a, b) = (ids[0], ids[1]);
    let mut builder = QueryBuilder::new();
    builder.with_mut_id(a).without_id(a);
    assert!(matches!(builder.build(&world), Err(QueryError::ConflictingAccess)));
    let mut builder = QueryBuilder::new();
    builder.without_id(b).with_id(a).with_ref_id(b);
    assert!(matches!(builder.build(&world), Err(QueryError::ConflictingAccess)));
    let mut builder = QueryBuilder::new();
    builder.with_ref_id(ComponentId::new(7));
    assert!(matches!(builder.build(&world), Err(QueryError::UnknownComponent)));
    let mut builder = QueryBuilder::new();
    builder.with_mut_id(ComponentId::new(7)).without_id(ComponentId::new(7));
    assert!(matches!(builder.build(&world), Err(QueryError::UnknownComponent)));
    let mut builder = QueryBuilder::new();
    builder.with_mut_id(a).without_id(b).with_ref_id(a);
    let state = builder.build(&world).unwrap();
    assert_eq!(
        state.terms(),
        vec![term(a, Access::Write), term(b, Access::Without), term(a, Access::Read)]
    );
    assert!(QueryBuilder::new().build(&world).is_ok());
}

#[test]
fn resource_id_is_no_query_term() {
    let mut world = World::new();
    let clock = world
        .register_resource_from_type_path("Clock", ComponentLayout::new(4, 4, StorageType::Table))
        .unwrap();
    let mut builder = QueryBuilder::new();
    builder.with_ref_id(clock);
    assert!(matches!(builder.build(&world), Err(QueryError::UnknownComponent)));
}

#[test]
fn conflicting_writes_are_detected() {
    let a = ComponentId::new(0);
    let b = ComponentId::new(1);
    let write_a = vec![term(a, Access::Write)];
    let read_a = vec![term(a, Access::Read)];
    let read_b = vec![term(b, Access::Read)];
    let with_a = vec![term(a, Access::With)];
    assert!(is_conflicting(&write_a, &read_a));
    assert!(is_conflicting(&read_a, &write_a));
    assert!(is_conflicting(&write_a, &write_a));
    assert!(!is_conflicting(&read_a, &read_a));
    assert!(!is_conflicting(&write_a, &read_b));
    assert!(!is_conflicting(&write_a, &with_a));
    let write_a_with_b = vec![term(a, Access::Write), term(b, Access::With)];
    let write_a_without_b = vec![term(a, Access::Write), term(b, Access::Without)];
    assert!(!is_conflicting(&write_a_with_b, &write_a_without_b));
    assert!(!is_conflicting(&write_a_without_b, &write_a_with_b));
    assert!(is_conflicting(&write_a_with_b, &write_a));
}

#[test]
fn query_states_report_conflicts() {
    let (world, ids) = world_with(&["A", "B"]);
    let mut first = QueryBuilder::new();
    first.with_mut_id(ids[0]);
    let first = first.build(&world).unwrap();
    let mut second = QueryBuilder::new();
    second.with_ref_id(ids[0]).with_ref_id(ids[1]);
    let second = second.build(&world).unwrap();
    let mut third = QueryBuilder::new();
    third.with_ref_id(ids[1]);
    let third = third.build(&world).unwrap();
    assert!(first.conflicts_with(&second));
    assert!(second.conflicts_with(&first));
    assert!(!first.conflicts_with(&third));
    assert!(!second.conflicts_with(&third));
}

#[test]
fn typed_terms_go_by_the_registered_id() {
    let (mut world, ids) = world_with(&["game::Armor", "bevy_mod_ffi::example::DynamicComponent"]);
    assert_eq!(world.get_component_id::<DynamicComponent>(), Some(ids[1]));
    assert_eq!(world.get_resource_id::<DynamicComponent>(), None);
    let hurt = world.spawn_empty();
    world.insert(hurt, ids[1], &[1; 4], None).unwrap();
    let armored = world.spawn_empty();
    world.insert(armored, ids[0], &[1; 4], None).unwrap();

    let mut builder = QueryBuilder::new();
    builder.with_ref::<DynamicComponent>(&world);
    builder.with_mut::<DynamicComponent>(&world);
    builder.with::<DynamicComponent>(&world);
    assert_eq!(
        builder.into_terms(),
        vec![term(ids[1], Access::Read), term(ids[1], Access::Write), term(ids[1], Access::With)]
    );

    let mut builder = QueryBuilder::new();
    <With<DynamicComponent> as QueryFilter>::filter(&mut builder, &world);
    let mut state = builder.build(&world).unwrap();
    assert_eq!(state.iter_mut(&world).next().unwrap().id(), hurt);

    let mut builder = QueryBuilder::new();
    <Without<DynamicComponent> as QueryFilter>::filter(&mut builder, &world);
    assert_eq!(builder.into_terms(), vec![term(ids[1], Access::Without)]);
    let mut builder = QueryBuilder::new();
    builder.without::<DynamicComponent>(&world);
    let mut state = builder.build(&world).unwrap();
    let mut iter = state.iter_mut(&world);
    assert_eq!(iter.next().unwrap().id(), armored);
    assert!(iter.next().is_none());
}
