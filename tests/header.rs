use solcery::crud::{initialize, write_raw, RecordData, CURRENT_VERSION, HEADER_WIDTH};
use solcery::{Key, Slot, StoreError};

fn key(b: u8) -> Key {
    Key::new([b; 32])
}

#[test]
fn initialize_stamps_version_and_owner_and_keeps_payload() {
    let mut slot = Slot::new(key(1), 40);
    slot.data[35] = 7;
    assert_eq!(initialize(&key(9), &mut slot), Ok(()));
    assert_eq!(slot.data[0], CURRENT_VERSION);
    assert!(slot.data[1..33].iter().all(|b| *b == 9));
    assert_eq!(slot.data[35], 7);
}

#[test]
fn initialize_twice_fails_and_keeps_header() {
    let mut slot = Slot::new(key(1), 64);
    assert_eq!(initialize(&key(2), &mut slot), Ok(()));
    let after_first = slot.data.clone();
    assert_eq!(initialize(&key(3), &mut slot), Err(StoreError::AlreadyInitialized));
    assert_eq!(slot.data, after_first);
}

#[test]
fn initialize_on_a_slot_smaller_than_the_header_fails() {
    let mut slot = Slot::new(key(1), 10);
    assert_eq!(initialize(&key(2), &mut slot), Err(StoreError::BufferTooSmall));
    assert_eq!(slot.data, vec![0u8; 10]);
}

#[test]
fn write_zero_fills_the_rest() {
    let mut slot = Slot::new(key(1), 40);
    for b in slot.data.iter_mut() {
        *b = 5;
    }
    assert_eq!(solcery::crud::write(&mut slot, 2, &[1, 2]), Ok(()));
    let mut expected = vec![5u8; 35];
    expected.extend_from_slice(&[1, 2, 0, 0, 0]);
    assert_eq!(slot.data, expected);
}

#[test]
fn write_ending_at_capacity_leaves_no_trailing_bytes() {
    let mut slot = Slot::new(key(1), 40);
    for b in slot.data.iter_mut() {
        *b = 5;
    }
    assert_eq!(solcery::crud::write(&mut slot, 4, &[1, 2, 3]), Ok(()));
    let mut expected = vec![5u8; 37];
    expected.extend_from_slice(&[1, 2, 3]);
    assert_eq!(slot.data, expected);
    assert_eq!(slot.data.len(), 40);
}

#[test]
fn write_past_capacity_fails_and_changes_nothing() {
    let mut slot = Slot::new(key(1), 40);
    for b in slot.data.iter_mut() {
        *b = 5;
    }
    assert_eq!(solcery::crud::write(&mut slot, 5, &[1, 2, 3]), Err(StoreError::BufferTooSmall));
    assert_eq!(slot.data, vec![5u8; 40]);
    assert_eq!(solcery::crud::write(&mut slot, u64::MAX, &[1]), Err(StoreError::BufferTooSmall));
    assert_eq!(slot.data, vec![5u8; 40]);
}

#[test]
fn write_raw_patches_in_place() {
    let mut slot = Slot::new(key(1), 8);
    for b in slot.data.iter_mut() {
        *b = 5;
    }
    assert_eq!(write_raw(&mut slot, 2, &[1, 2]), Ok(()));
    assert_eq!(slot.data, vec![5, 5, 1, 2, 5, 5, 5, 5]);
    assert_eq!(write_raw(&mut slot, 6, &[1, 2, 3]), Err(StoreError::BufferTooSmall));
    assert_eq!(slot.data, vec![5, 5, 1, 2, 5, 5, 5, 5]);
    assert_eq!(write_raw(&mut slot, 6, &[9, 9]), Ok(()));
    assert_eq!(slot.data, vec![5, 5, 1, 2, 5, 5, 9, 9]);
}

#[test]
fn record_data_splits_header_and_payload() {
    let mut slot = Slot::new(key(1), HEADER_WIDTH + 3);
    let before = RecordData::from_slot(&slot).unwrap();
    assert!(!before.is_initialized());
    initialize(&key(4), &mut slot).unwrap();
    slot.data[HEADER_WIDTH] = 8;
    let rd = RecordData::from_slot(&slot).unwrap();
    assert!(rd.is_initialized());
    assert_eq!(rd.version, 1);
    assert_eq!(rd.project, key(4));
    assert_eq!(rd.data.bytes, vec![8, 0, 0]);
    let short = Slot::new(key(1), 5);
    assert!(matches!(RecordData::from_slot(&short), Err(StoreError::DecodeError)));
}
