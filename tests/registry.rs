use solcery::storage::{add, assign, read, remove};
use solcery::{Key, Slot, StoreError};

fn key(b: u8) -> Key {
    Key::new([b; 32])
}

fn members(slot: &Slot) -> Vec<Key> {
    read(slot).unwrap().accounts
}

#[test]
fn assign_stores_an_empty_registry() {
    let mut reg = Slot::new(key(1), 200);
    assert_eq!(assign(&key(7), &mut reg, &key(8)), Ok(()));
    let st = read(&reg).unwrap();
    assert_eq!(st.template, key(8));
    assert!(st.accounts.is_empty());
    assert_eq!(reg.data[0], 1);
    assert!(reg.data[1..33].iter().all(|b| *b == 7));
    assert_eq!(assign(&key(7), &mut reg, &key(8)), Err(StoreError::AlreadyInitialized));
}

#[test]
fn add_appends_in_order_with_duplicates() {
    let mut reg = Slot::new(key(1), 300);
    assign(&key(7), &mut reg, &key(8)).unwrap();
    add(&mut reg, &key(2)).unwrap();
    add(&mut reg, &key(3)).unwrap();
    add(&mut reg, &key(2)).unwrap();
    assert_eq!(members(&reg), vec![key(2), key(3), key(2)]);
}

#[test]
fn add_then_remove_restores_members() {
    let mut reg = Slot::new(key(1), 300);
    assign(&key(7), &mut reg, &key(8)).unwrap();
    add(&mut reg, &key(2)).unwrap();
    add(&mut reg, &key(3)).unwrap();
    let before = members(&reg);
    add(&mut reg, &key(4)).unwrap();
    remove(&mut reg, &key(4)).unwrap();
    assert_eq!(members(&reg), before);
}

#[test]
fn remove_takes_the_first_occurrence() {
    let mut reg = Slot::new(key(1), 300);
    assign(&key(7), &mut reg, &key(8)).unwrap();
    for k in [2u8, 3, 2, 4] {
        add(&mut reg, &key(k)).unwrap();
    }
    remove(&mut reg, &key(2)).unwrap();
    assert_eq!(members(&reg), vec![key(3), key(2), key(4)]);
}

#[test]
fn remove_of_an_absent_key_changes_nothing() {
    let mut reg = Slot::new(key(1), 300);
    assign(&key(7), &mut reg, &key(8)).unwrap();
    add(&mut reg, &key(2)).unwrap();
    let before = reg.data.clone();
    assert_eq!(remove(&mut reg, &key(9)), Ok(()));
    assert_eq!(reg.data, before);
}

#[test]
fn add_to_a_full_registry_fails() {
    let mut reg = Slot::new(key(1), 33 + 32 + 4 + 32);
    assign(&key(7), &mut reg, &key(8)).unwrap();
    add(&mut reg, &key(2)).unwrap();
    let before = reg.data.clone();
    assert_eq!(add(&mut reg, &key(3)), Err(StoreError::BufferTooSmall));
    assert_eq!(reg.data, before);
}

#[test]
fn registry_ops_on_garbage_fail_to_decode() {
    let mut reg = Slot::new(key(1), 40);
    assert_eq!(add(&mut reg, &key(2)), Err(StoreError::DecodeError));
    assert_eq!(remove(&mut reg, &key(2)), Err(StoreError::DecodeError));
    let mut short = Slot::new(key(1), 3);
    assert_eq!(add(&mut short, &key(2)), Err(StoreError::DecodeError));
}
