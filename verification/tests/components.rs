use bevy_mod_ffi::component::{
    ComponentHooks, ComponentId, ComponentLayout, HookKind, StorageType,
};

#[test]
fn component_id_keeps_its_number() {
    assert_eq!(ComponentId::new(17).index(), 17);
    assert_eq!(ComponentId::new(0), ComponentId { index: 0 });
}

#[test]
fn layout_needs_power_of_two_alignment() {
    let table = StorageType::Table;
    assert!(ComponentLayout::new(4, 4, table).is_valid());
    assert!(ComponentLayout::new(0, 1, table).is_valid());
    assert!(ComponentLayout::new(12, 8, table).is_valid());
    assert!(!ComponentLayout::new(4, 0, table).is_valid());
    assert!(!ComponentLayout::new(4, 3, table).is_valid());
    assert!(!ComponentLayout::new(4, 12, table).is_valid());
    assert!(ComponentLayout::new(0, 1usize << 20, table).is_valid());
}

#[test]
fn layout_must_fit_the_largest_signed_size() {
    let table = StorageType::Table;
    let max = isize::MAX as usize;
    assert!(ComponentLayout::new(max, 1, table).is_valid());
    assert!(!ComponentLayout::new(max + 1, 1, table).is_valid());
    assert!(!ComponentLayout::new(max, 2, table).is_valid());
    assert!(ComponentLayout::new(max - 1, 2, table).is_valid());
    assert!(ComponentLayout::new(max - 7, 8, table).is_valid());
    assert!(!ComponentLayout::new(max - 6, 8, table).is_valid());
    assert!(ComponentLayout::new(0, max + 1, table).is_valid());
    assert!(!ComponentLayout::new(1, max + 1, table).is_valid());
}

#[test]
fn layouts_are_compared_part_by_part() {
    let a = ComponentLayout::new(4, 4, StorageType::Table);
    assert!(a.same_as(&ComponentLayout::new(4, 4, StorageType::Table)));
    assert!(!a.same_as(&ComponentLayout::new(8, 4, StorageType::Table)));
    assert!(!a.same_as(&ComponentLayout::new(4, 2, StorageType::Table)));
    assert!(!a.same_as(&ComponentLayout::new(4, 4, StorageType::SparseSet)));
}

#[test]
fn storage_type_follows_the_table_flag() {
    assert_eq!(StorageType::from_is_table(true), StorageType::Table);
    assert_eq!(StorageType::from_is_table(false), StorageType::SparseSet);
    assert!(StorageType::Table.is_table());
    assert!(!StorageType::SparseSet.is_table());
    assert_eq!(StorageType::from_wire(1), Some(StorageType::Table));
    assert_eq!(StorageType::from_wire(0), Some(StorageType::SparseSet));
    assert_eq!(StorageType::from_wire(2), None);
    assert_eq!(StorageType::from_wire(255), None);
    assert_eq!(StorageType::Table.to_wire(), 1);
    assert_eq!(StorageType::SparseSet.to_wire(), 0);
}

#[test]
fn hooks_come_in_the_order_of_the_call() {
    let hooks = ComponentHooks::from_array([Some(1), None, Some(3), Some(4), None]);
    assert_eq!(hooks.get(HookKind::Add), Some(1));
    assert_eq!(hooks.get(HookKind::Insert), None);
    assert_eq!(hooks.get(HookKind::Replace), Some(3));
    assert_eq!(hooks.get(HookKind::Remove), Some(4));
    assert_eq!(hooks.get(HookKind::Despawn), None);
    let none = ComponentHooks::none();
    assert_eq!(none.get(HookKind::Add), None);
    assert_eq!(none.get(HookKind::Despawn), None);
}
