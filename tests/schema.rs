use solcery::project;
use solcery::storage;
use solcery::template::{
    add_field, change_code, change_name, create, delete_field, read, replace, FieldParams,
    SolceryNestedType, SolceryType, TemplateData,
};
use solcery::{Key, Slot, StoreError};

fn key(b: u8) -> Key {
    Key::new([b; 32])
}

struct World {
    tenant: Slot,
    templates: Slot,
    schema: Slot,
    instances: Slot,
}

fn world() -> World {
    let mut tenant = Slot::new(key(1), 200);
    let mut templates = Slot::new(key(2), 400);
    project::create(&mut tenant, &mut templates, &key(9)).unwrap();
    let mut schema = Slot::new(key(3), 1024);
    let mut instances = Slot::new(key(4), 400);
    create(&mut tenant, &mut schema, &mut instances, &mut templates).unwrap();
    World { tenant, templates, schema, instances }
}

fn params(name: &str, field_type: SolceryType) -> FieldParams {
    FieldParams {
        field_type,
        name: String::from(name),
        code: name.to_lowercase(),
        construct_client: false,
        construct_server: true,
    }
}

#[test]
fn create_stores_the_seed_schema() {
    let w = world();
    let t = read(&w.schema).unwrap();
    assert_eq!(t.id, 0);
    assert_eq!(t.name, "New template");
    assert_eq!(t.code, "newTemplate");
    assert_eq!(t.storages, vec![key(4)]);
    assert_eq!(t.max_field_index, 10);
    assert_eq!(t.fields.len(), 1);
    assert_eq!(t.fields[0].id, 1);
    assert_eq!(t.fields[0].params.name, "Name");
    assert_eq!(t.fields[0].params.code, "name");
    assert!(matches!(t.fields[0].params.field_type, SolceryType::SString));
    assert!(t.fields[0].params.construct_client);
    assert!(!t.fields[0].params.construct_server);
    assert!(t.custom_data.is_empty());
    assert!(w.schema.data[1..33].iter().all(|b| *b == 1));
    let inst = storage::read(&w.instances).unwrap();
    assert_eq!(inst.template, key(3));
    assert!(inst.accounts.is_empty());
    assert_eq!(storage::read(&w.templates).unwrap().accounts, vec![key(3)]);
    assert_eq!(project::read(&w.tenant).unwrap().uniq_id, 1);
}

#[test]
fn add_field_issues_the_next_id() {
    let mut w = world();
    assert_eq!(add_field(&mut w.schema, params("Power", SolceryType::SInt)), Ok(11));
    let link = SolceryType::SLink { template: key(6) };
    assert_eq!(add_field(&mut w.schema, params("Target", link)), Ok(12));
    let t = read(&w.schema).unwrap();
    assert_eq!(t.max_field_index, 12);
    assert_eq!(t.fields.iter().map(|f| f.id).collect::<Vec<_>>(), vec![1, 11, 12]);
    assert_eq!(t.fields[2].params.name, "Target");
    assert!(matches!(t.fields[2].params.field_type, SolceryType::SLink { template } if template == key(6)));
}

#[test]
fn add_then_delete_field_keeps_the_counter() {
    let mut w = world();
    let id = add_field(&mut w.schema, params("Power", SolceryType::SInt)).unwrap();
    assert_eq!(delete_field(&mut w.schema, id), Ok(()));
    let t = read(&w.schema).unwrap();
    assert_eq!(t.fields.len(), 1);
    assert_eq!(t.fields[0].id, 1);
    assert_eq!(t.max_field_index, 11);
    assert_eq!(add_field(&mut w.schema, params("Speed", SolceryType::SBool)), Ok(12));
}

#[test]
fn delete_of_an_unknown_field_fails() {
    let mut w = world();
    let before = w.schema.data.clone();
    assert_eq!(delete_field(&mut w.schema, 42), Err(StoreError::FieldNotFound));
    assert_eq!(w.schema.data, before);
}

#[test]
fn nested_and_container_types_round_trip() {
    let mut w = world();
    let values = vec![String::from("red"), String::from("blue")];
    let ty = SolceryType::SMap {
        key: SolceryNestedType::SEnum { values },
        value: SolceryNestedType::SBrick { brick_type: 3 },
    };
    assert_eq!(add_field(&mut w.schema, params("Colors", ty)), Ok(11));
    let arr = SolceryType::SArray { nested_type: SolceryNestedType::SUrl };
    assert_eq!(add_field(&mut w.schema, params("Links", arr)), Ok(12));
    let t = read(&w.schema).unwrap();
    match &t.fields[1].params.field_type {
        SolceryType::SMap { key: SolceryNestedType::SEnum { values }, value: SolceryNestedType::SBrick { brick_type } } => {
            assert_eq!(values, &vec![String::from("red"), String::from("blue")]);
            assert_eq!(*brick_type, 3);
        }
        other => panic!("unexpected type {:?}", other),
    }
    assert!(matches!(t.fields[2].params.field_type, SolceryType::SArray { nested_type: SolceryNestedType::SUrl }));
}

#[test]
fn rename_and_recode() {
    let mut w = world();
    assert_eq!(change_name(&mut w.schema, String::from("Créature")), Ok(()));
    assert_eq!(change_code(&mut w.schema, String::from("creature")), Ok(()));
    let t = read(&w.schema).unwrap();
    assert_eq!(t.name, "Créature");
    assert_eq!(t.code, "creature");
    assert_eq!(t.fields.len(), 1);
}

#[test]
fn replace_stores_the_given_schema() {
    let mut w = world();
    let record = TemplateData {
        id: 77,
        name: String::from("n"),
        code: String::from("c"),
        storages: vec![],
        max_field_index: 0,
        fields: vec![],
        custom_data: vec![1, 2, 3],
    };
    assert_eq!(replace(&mut w.schema, &record), Ok(()));
    let t = read(&w.schema).unwrap();
    assert_eq!(t.id, 77);
    assert_eq!(t.custom_data, vec![1, 2, 3]);
    assert!(t.fields.is_empty());
}

#[test]
fn schema_that_outgrows_its_slot_is_refused() {
    let mut w = world();
    let before = w.schema.data.clone();
    let long = "x".repeat(2000);
    assert_eq!(change_name(&mut w.schema, long), Err(StoreError::BufferTooSmall));
    assert_eq!(w.schema.data, before);
}

#[test]
fn schema_ops_on_garbage_fail_to_decode() {
    let mut empty = Slot::new(key(3), 100);
    for b in empty.data.iter_mut() {
        *b = 0xff;
    }
    assert_eq!(add_field(&mut empty, params("a", SolceryType::SInt)), Err(StoreError::DecodeError));
    assert_eq!(delete_field(&mut empty, 1), Err(StoreError::DecodeError));
    assert_eq!(change_name(&mut empty, String::from("a")), Err(StoreError::DecodeError));
}

#[test]
fn create_propagates_a_taken_schema_slot() {
    let mut w = world();
    let mut instances2 = Slot::new(key(5), 400);
    let r = create(&mut w.tenant, &mut w.schema, &mut instances2, &mut w.templates);
    assert_eq!(r, Err(StoreError::AlreadyInitialized));
    assert_eq!(instances2.data, vec![0u8; 400]);
    assert_eq!(project::read(&w.tenant).unwrap().uniq_id, 2);
}
