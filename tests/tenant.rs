use solcery::crud::store;
use solcery::project::{check_access, create, get_uniq_id, read, Project};
use solcery::storage;
use solcery::{Key, Slot, StoreError};

fn key(b: u8) -> Key {
    Key::new([b; 32])
}

fn new_tenant() -> (Slot, Slot) {
    let mut tenant = Slot::new(key(1), 200);
    let mut reg = Slot::new(key(2), 200);
    create(&mut tenant, &mut reg, &key(9)).unwrap();
    (tenant, reg)
}

#[test]
fn create_sets_up_tenant_and_registry() {
    let (tenant, reg) = new_tenant();
    let p = read(&tenant).unwrap();
    assert_eq!(p.name, "New project");
    assert_eq!(p.owner, key(9));
    assert_eq!(p.template_storage, key(2));
    assert_eq!(p.uniq_id, 0);
    assert!(tenant.data[1..33].iter().all(|b| *b == 1));
    let st = storage::read(&reg).unwrap();
    assert_eq!(st.template, key(1));
    assert!(st.accounts.is_empty());
    assert!(reg.data[1..33].iter().all(|b| *b == 1));
}

#[test]
fn create_on_an_initialized_slot_fails() {
    let (mut tenant, _) = new_tenant();
    let mut reg2 = Slot::new(key(3), 200);
    assert_eq!(create(&mut tenant, &mut reg2, &key(9)), Err(StoreError::AlreadyInitialized));
    assert_eq!(reg2.data, vec![0u8; 200]);
}

#[test]
fn ids_are_issued_in_sequence() {
    let (mut tenant, _) = new_tenant();
    let ids: Vec<u32> = (0..5).map(|_| get_uniq_id(&mut tenant).unwrap()).collect();
    assert_eq!(ids, vec![0, 1, 2, 3, 4]);
    assert_eq!(read(&tenant).unwrap().uniq_id, 5);
}

#[test]
fn ids_continue_after_failures_elsewhere() {
    let (mut tenant, _) = new_tenant();
    assert_eq!(get_uniq_id(&mut tenant), Ok(0));
    let mut other = Slot::new(key(5), 10);
    assert_eq!(get_uniq_id(&mut other), Err(StoreError::DecodeError));
    assert_eq!(get_uniq_id(&mut tenant), Ok(1));
}

#[test]
fn the_last_id_is_not_wrapped() {
    let mut tenant = Slot::new(key(1), 200);
    let p = Project {
        name: String::from("t"),
        owner: key(9),
        template_storage: key(2),
        uniq_id: u32::MAX - 1,
    };
    store(&mut tenant, &p).unwrap();
    assert_eq!(get_uniq_id(&mut tenant), Ok(u32::MAX - 1));
    let before = tenant.data.clone();
    assert_eq!(get_uniq_id(&mut tenant), Err(StoreError::ArithmeticOverflow));
    assert_eq!(tenant.data, before);
}

#[test]
fn access_is_granted_to_the_owner_only() {
    let (tenant, _) = new_tenant();
    assert!(check_access(&key(9), &tenant));
    assert!(!check_access(&key(1), &tenant));
    let empty = Slot::new(key(4), 100);
    assert!(!check_access(&key(0), &empty));
}
