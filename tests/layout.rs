use solcery::codec::{to_bytes, Record};
use solcery::object::{Object, ObjectData, ObjectFieldData};
use solcery::project::Project;
use solcery::storage::AccountStorage;
use solcery::Key;

#[test]
fn text_is_length_prefixed_utf8() {
    assert_eq!(to_bytes(&String::from("abc")), vec![3, 0, 0, 0, b'a', b'b', b'c']);
    assert_eq!(to_bytes(&String::from("é")), vec![2, 0, 0, 0, 0xc3, 0xa9]);
    assert_eq!(to_bytes(&String::new()), vec![0, 0, 0, 0]);
}

#[test]
fn text_is_read_back_with_its_end() {
    let bytes = [2u8, 0, 0, 0, 0xc3, 0xa9, 7];
    let (s, end) = String::decode_at(&bytes, 0).unwrap();
    assert_eq!(s, "é");
    assert_eq!(end, 6);
    let shifted = [9u8, 1, 0, 0, 0, b'z'];
    let (s, end) = String::decode_at(&shifted, 1).unwrap();
    assert_eq!(s, "z");
    assert_eq!(end, 6);
    assert!(String::decode_at(&[1u8, 0, 0, 0, 0xff], 0).is_none());
    assert!(String::decode_at(&[4u8, 0, 0, 0, b'a'], 0).is_none());
    assert!(String::decode_at(&[4u8, 0], 0).is_none());
}

#[test]
fn tenant_layout() {
    let p = Project {
        name: String::from("P"),
        owner: Key::new([1; 32]),
        template_storage: Key::new([2; 32]),
        uniq_id: 258,
    };
    let mut expected = vec![1u8, 0, 0, 0, b'P'];
    expected.extend([1u8; 32]);
    expected.extend([2u8; 32]);
    expected.extend([2u8, 1, 0, 0]);
    assert_eq!(to_bytes(&p), expected);
}

#[test]
fn registry_layout() {
    let st = AccountStorage { template: Key::new([3; 32]), accounts: vec![Key::new([4; 32])] };
    let mut expected = vec![3u8; 32];
    expected.extend([1u8, 0, 0, 0]);
    expected.extend([4u8; 32]);
    assert_eq!(to_bytes(&st), expected);
}

#[test]
fn instance_layout() {
    let o = Object {
        id: 1,
        template: Key::new([5; 32]),
        data: ObjectData {
            field_offsets: vec![ObjectFieldData { field_id: 2, start_offset: 0, end_offset: 3 }],
            field_data: vec![7, 8, 9],
        },
    };
    let bytes = to_bytes(&o);
    let mut expected = vec![1u8, 0, 0, 0];
    expected.extend([5u8; 32]);
    expected.extend([1u8, 0, 0, 0, 2, 0, 0, 0]);
    expected.extend([0u8; 8]);
    expected.extend([3u8, 0, 0, 0, 0, 0, 0, 0]);
    expected.extend([3u8, 0, 0, 0, 7, 8, 9]);
    assert_eq!(bytes, expected);
    let (back, end) = Object::decode_at(&bytes, 0).unwrap();
    assert_eq!(end, bytes.len());
    assert_eq!(back.data.field_data, vec![7, 8, 9]);
    assert_eq!(back.data.field_offsets[0].end_offset, 3);
}
