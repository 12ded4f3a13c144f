use bevy_mod_ffi::component::{Component, ComponentId, ComponentLayout, StorageType, TypePath};
use bevy_mod_ffi::example::DynamicComponent;
use bevy_mod_ffi::world::World;

#[test]
fn dynamic_component_takes_up_to_eight_values() {
    assert_eq!(DynamicComponent::new([1, 2, 3, 4, 5, 6, 7, 8]).data, [1, 2, 3, 4, 5, 6, 7, 8]);
    assert_eq!(DynamicComponent::zeroed().data, [0; 8]);
    assert_eq!(DynamicComponent::from_slice(&[]).data, [0; 8]);
    assert_eq!(DynamicComponent::from_slice(&[7, 8, 9]).data, [7, 8, 9, 0, 0, 0, 0, 0]);
    assert_eq!(
        DynamicComponent::from_slice(&[1, 2, 3, 4, 5, 6, 7, 8]).data,
        [1, 2, 3, 4, 5, 6, 7, 8]
    );
    assert_eq!(
        DynamicComponent::from_slice(&[1, 2, 3, 4, 5, 6, 7, 8, 9, 10]).data,
        [1, 2, 3, 4, 5, 6, 7, 8]
    );
}

#[test]
fn typed_registration_goes_by_name_and_layout() {
    assert_eq!(DynamicComponent::type_path(), "bevy_mod_ffi::example::DynamicComponent");
    assert_eq!(DynamicComponent::storage_type(), StorageType::Table);
    assert_eq!(
        ComponentLayout::of::<DynamicComponent>(),
        ComponentLayout::new(64, 8, StorageType::Table)
    );
    let mut world = World::new();
    assert_eq!(world.get_component_id::<DynamicComponent>(), None);
    let id = world.register_component::<DynamicComponent>().unwrap();
    assert_eq!(id, ComponentId::new(0));
    assert_eq!(world.register_component::<DynamicComponent>(), Ok(id));
    assert_eq!(world.get_component_id::<DynamicComponent>(), Some(id));
    assert_eq!(
        world.get_component_id_from_type_path("bevy_mod_ffi::example::DynamicComponent"),
        Some(id)
    );
    assert_eq!(world.layout_of(id), Some(ComponentLayout::new(64, 8, StorageType::Table)));
}
