use solcery::object::{clone, create, load_data_from_src, read, update, PAYLOAD_START};
use solcery::{project, storage, template};
use solcery::{Key, Slot, StoreError};

fn key(b: u8) -> Key {
    Key::new([b; 32])
}

struct World {
    tenant: Slot,
    instances: Slot,
}

fn world() -> World {
    let mut tenant = Slot::new(key(1), 200);
    let mut templates = Slot::new(key(2), 400);
    project::create(&mut tenant, &mut templates, &key(9)).unwrap();
    let mut schema = Slot::new(key(3), 1024);
    let mut instances = Slot::new(key(4), 400);
    template::create(&mut tenant, &mut schema, &mut instances, &mut templates).unwrap();
    World { tenant, instances }
}

#[test]
fn create_registers_the_instance() {
    let mut w = world();
    let mut obj = Slot::new(key(7), 120);
    assert_eq!(create(&mut w.tenant, &key(3), &mut w.instances, &mut obj), Ok(()));
    let o = read(&obj).unwrap();
    assert_eq!(o.id, 1);
    assert_eq!(o.template, key(3));
    assert!(o.data.field_offsets.is_empty());
    assert!(o.data.field_data.is_empty());
    assert!(obj.data[1..33].iter().all(|b| *b == 1));
    assert_eq!(storage::read(&w.instances).unwrap().accounts, vec![key(7)]);
    assert_eq!(project::read(&w.tenant).unwrap().uniq_id, 2);
}

#[test]
fn create_on_a_taken_slot_fails_before_issuing_an_id() {
    let mut w = world();
    let mut obj = Slot::new(key(7), 120);
    create(&mut w.tenant, &key(3), &mut w.instances, &mut obj).unwrap();
    let r = create(&mut w.tenant, &key(3), &mut w.instances, &mut obj);
    assert_eq!(r, Err(StoreError::AlreadyInitialized));
    assert_eq!(project::read(&w.tenant).unwrap().uniq_id, 2);
    assert_eq!(storage::read(&w.instances).unwrap().accounts, vec![key(7)]);
}

#[test]
fn update_overwrites_the_payload() {
    let mut w = world();
    let mut obj = Slot::new(key(7), 80);
    create(&mut w.tenant, &key(3), &mut w.instances, &mut obj).unwrap();
    let payload = vec![0, 0, 0, 0, 2, 0, 0, 0, 9, 9];
    assert_eq!(update(&mut obj, payload.clone()), Ok(()));
    assert_eq!(&obj.data[PAYLOAD_START..PAYLOAD_START + 10], &payload[..]);
    assert!(obj.data[PAYLOAD_START + 10..].iter().all(|b| *b == 0));
    let o = read(&obj).unwrap();
    assert_eq!(o.id, 1);
    assert_eq!(o.data.field_data, vec![9, 9]);
    let before = obj.data.clone();
    assert_eq!(update(&mut obj, vec![1; 12]), Err(StoreError::BufferTooSmall));
    assert_eq!(obj.data, before);
}

#[test]
fn clone_copies_the_payload() {
    let mut src = Slot::new(key(5), 75);
    for (i, b) in src.data.iter_mut().enumerate() {
        *b = i as u8;
    }
    let mut dst = Slot::new(key(6), 75);
    assert_eq!(clone(&mut dst, &src), Ok(()));
    assert!(dst.data[..PAYLOAD_START].iter().all(|b| *b == 0));
    assert_eq!(&dst.data[PAYLOAD_START..], &src.data[PAYLOAD_START..]);
    let mut small = Slot::new(key(6), 72);
    assert_eq!(clone(&mut small, &src), Err(StoreError::BufferTooSmall));
    assert_eq!(small.data, vec![0u8; 72]);
}

#[test]
fn load_data_from_src_copies_at_offsets() {
    let mut src = Slot::new(key(5), 75);
    for (i, b) in src.data.iter_mut().enumerate() {
        *b = i as u8;
    }
    let mut dst = Slot::new(key(6), 80);
    assert_eq!(load_data_from_src(&mut dst, &src, 2, 3), Ok(()));
    assert_eq!(&dst.data[71..74], &[72, 73, 74]);
    assert!(dst.data[..71].iter().all(|b| *b == 0));
    assert!(dst.data[74..].iter().all(|b| *b == 0));
    assert_eq!(load_data_from_src(&mut dst, &src, 0, 10), Err(StoreError::BufferTooSmall));
    assert_eq!(load_data_from_src(&mut dst, &src, 10, 0), Err(StoreError::BufferTooSmall));
}

#[test]
fn the_scenario_of_one_tenant_one_schema_one_instance() {
    let mut tenant = Slot::new(key(1), 200);
    let mut registry = Slot::new(key(2), 400);
    project::create(&mut tenant, &mut registry, &key(9)).unwrap();
    let mut schema = Slot::new(key(3), 1024);
    let mut instances = Slot::new(key(4), 400);
    template::create(&mut tenant, &mut schema, &mut instances, &mut registry).unwrap();
    let mut obj = Slot::new(key(5), 120);
    create(&mut tenant, &key(3), &mut instances, &mut obj).unwrap();

    assert_eq!(storage::read(&registry).unwrap().accounts, vec![key(3)]);
    assert_eq!(storage::read(&instances).unwrap().accounts, vec![key(5)]);
    assert_eq!(template::read(&schema).unwrap().id, 0);
    assert_eq!(read(&obj).unwrap().id, 1);
    assert_eq!(project::read(&tenant).unwrap().uniq_id, 2);
}
