use bevy_mod_ffi::handle::{query_builder, query_state, Handle, HandleError, HandleTable};

#[test]
fn handle_destroyed_twice_is_reported_stale() {
    let mut table: HandleTable<query_builder, u32> = HandleTable::new();
    let h = table.insert(7, 0).unwrap();
    assert_eq!(table.remove(h), Ok(7));
    assert_eq!(table.remove(h), Err(HandleError::Stale));
    let again = table.insert(9, 0).unwrap();
    assert_ne!(again.to_bits(), h.to_bits());
    assert_eq!(table.remove(h), Err(HandleError::Stale));
    assert_eq!(table.get(h), Err(HandleError::Stale));
    assert_eq!(table.get(again), Ok(&9));
}

#[test]
fn handle_never_issued_is_reported_unknown() {
    let mut table: HandleTable<query_state, u8> = HandleTable::new();
    assert_eq!(table.get(Handle::null()), Err(HandleError::Unknown));
    assert_eq!(table.remove(Handle::null()), Err(HandleError::Unknown));
    let h = table.insert(1, 0).unwrap();
    let far = Handle::from_bits(h.to_bits() + 5);
    assert_eq!(table.check(far), Err(HandleError::Unknown));
    let later = Handle::from_bits(h.to_bits() + (1u64 << 32));
    assert_eq!(table.get(later), Err(HandleError::Unknown));
    assert_eq!(table.check(h), Ok(()));
}

#[test]
fn handle_bits_hold_generation_and_slot() {
    let mut table: HandleTable<query_builder, char> = HandleTable::new();
    let first = table.insert('a', 0).unwrap();
    let second = table.insert('b', 0).unwrap();
    assert_eq!(first.to_bits(), 0x1_0000_0000);
    assert_eq!(second.to_bits(), 0x1_0000_0001);
    assert!(!first.is_null());
    assert!(Handle::<query_builder>::null().is_null());
    assert_eq!(Handle::<query_builder>::null().to_bits(), 0);
    let back: Handle<query_builder> = Handle::from_bits(second.to_bits());
    assert_eq!(table.get(back), Ok(&'b'));
    assert_eq!(Handle::<query_builder>::from_bits(0xABCD_0000_1234).to_bits(), 0xABCD_0000_1234);
}

#[test]
fn handle_slot_is_reused_under_a_new_generation() {
    let mut table: HandleTable<query_builder, u32> = HandleTable::new();
    let first = table.insert(1, 0).unwrap();
    let kept = table.insert(2, 0).unwrap();
    assert_eq!(table.remove(first), Ok(1));
    let reused = table.insert(3, 0).unwrap();
    assert_eq!(reused.to_bits(), 0x2_0000_0000);
    assert_eq!(table.get(reused), Ok(&3));
    assert_eq!(table.get(kept), Ok(&2));
    assert_eq!(table.get(first), Err(HandleError::Stale));
}

#[test]
fn handle_replace_keeps_the_handle_valid() {
    let mut table: HandleTable<query_builder, u32> = HandleTable::new();
    let h = table.insert(1, 0).unwrap();
    assert_eq!(table.replace(h, 5), Ok(1));
    assert_eq!(table.get(h), Ok(&5));
    assert_eq!(table.remove(h), Ok(5));
    assert_eq!(table.replace(h, 6), Err(HandleError::Stale));
    assert_eq!(table.get(h), Err(HandleError::Stale));
}

#[test]
fn purge_destroys_what_belongs_to_one_owner() {
    let mut table: HandleTable<query_builder, u32> = HandleTable::new();
    let host = table.insert(1, 0).unwrap();
    let first = table.insert(2, 7).unwrap();
    let other = table.insert(3, 8).unwrap();
    let second = table.insert(4, 7).unwrap();
    assert_eq!(table.owner_of(first), Ok(7));
    assert_eq!(table.owner_of(other), Ok(8));
    table.purge(7);
    assert_eq!(table.get(first), Err(HandleError::Stale));
    assert_eq!(table.get(second), Err(HandleError::Stale));
    assert_eq!(table.owner_of(first), Err(HandleError::Stale));
    assert_eq!(table.get(host), Ok(&1));
    assert_eq!(table.get(other), Ok(&3));
    assert_eq!(table.owner_of(host), Ok(0));
    table.purge(7);
    assert_eq!(table.get(other), Ok(&3));
    let reused = table.insert(5, 9).unwrap();
    assert_ne!(reused.to_bits(), first.to_bits());
    assert_eq!(table.get(first), Err(HandleError::Stale));
    assert_eq!(table.owner_of(reused), Ok(9));
    assert_eq!(table.owner_of(Handle::null()), Err(HandleError::Unknown));
}

#[test]
fn table_counts_the_room_that_is_left() {
    let mut table: HandleTable<query_builder, u32> = HandleTable::new();
    assert!(table.has_room_for(0));
    assert!(table.has_room_for(u32::MAX as usize));
    assert!(!table.has_room_for(u32::MAX as usize + 1));
    let h = table.insert(1, 0).unwrap();
    assert!(table.has_room_for(u32::MAX as usize - 1));
    assert!(!table.has_room_for(u32::MAX as usize));
    table.remove(h).unwrap();
    assert!(table.has_room_for(u32::MAX as usize));
}

#[test]
fn object_behind_a_handle_is_changed_in_place() {
    let mut table: HandleTable<query_builder, u32> = HandleTable::new();
    let h = table.insert(1, 0).unwrap();
    *table.get_mut(h).unwrap() += 41;
    assert_eq!(table.get(h), Ok(&42));
    table.remove(h).unwrap();
    assert_eq!(table.get_mut(h), Err(HandleError::Stale));
    assert_eq!(table.get_mut(Handle::null()), Err(HandleError::Unknown));
    let cast: Handle<query_state> = h.cast();
    assert_eq!(cast.to_bits(), h.to_bits());
}
