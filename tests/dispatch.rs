use solcery::codec::to_bytes;
use solcery::instruction::{decode_instruction, Instruction};
use solcery::template::{FieldParams, SolceryType};
use solcery::StoreError;

#[test]
fn tags_pick_the_operation() {
    assert!(matches!(decode_instruction(&[0, 0]), Ok(Instruction::CreateTemplate)));
    assert!(matches!(decode_instruction(&[1, 0]), Ok(Instruction::CreateObject)));
    assert!(matches!(decode_instruction(&[1, 2]), Ok(Instruction::LoadObjectData)));
    assert!(matches!(decode_instruction(&[1, 3]), Ok(Instruction::CloneObject)));
    assert!(matches!(decode_instruction(&[2, 0]), Ok(Instruction::AddToStorage)));
    assert!(matches!(decode_instruction(&[2, 1]), Ok(Instruction::RemoveFromStorage)));
    assert!(matches!(decode_instruction(&[4, 0]), Ok(Instruction::CreateProject)));
}

#[test]
fn unknown_tags_are_invalid() {
    assert!(matches!(decode_instruction(&[]), Err(StoreError::InvalidInstruction)));
    assert!(matches!(decode_instruction(&[0]), Err(StoreError::InvalidInstruction)));
    assert!(matches!(decode_instruction(&[0, 5]), Err(StoreError::InvalidInstruction)));
    assert!(matches!(decode_instruction(&[2, 2]), Err(StoreError::InvalidInstruction)));
    assert!(matches!(decode_instruction(&[5, 0]), Err(StoreError::InvalidInstruction)));
}

#[test]
fn arguments_are_decoded() {
    match decode_instruction(&[0, 2, 7, 1, 0, 0]) {
        Ok(Instruction::DeleteField(id)) => assert_eq!(id, 263),
        other => panic!("unexpected {:?}", other),
    }
    match decode_instruction(&[0, 3, 2, 0, 0, 0, b'h', b'i']) {
        Ok(Instruction::ChangeName(n)) => assert_eq!(n, "hi"),
        other => panic!("unexpected {:?}", other),
    }
    match decode_instruction(&[0, 4, 1, 0, 0, 0, b'c', 9]) {
        Ok(Instruction::ChangeCode(c)) => assert_eq!(c, "c"),
        other => panic!("unexpected {:?}", other),
    }
    match decode_instruction(&[1, 1, 5, 6]) {
        Ok(Instruction::UpdateObject(d)) => assert_eq!(d, vec![5, 6]),
        other => panic!("unexpected {:?}", other),
    }
    match decode_instruction(&[3, 0, 4, 0, 0, 0, 0, 0, 0, 0, 8, 9]) {
        Ok(Instruction::WriteRaw(offset, d)) => {
            assert_eq!(offset, 4);
            assert_eq!(d, vec![8, 9]);
        }
        other => panic!("unexpected {:?}", other),
    }
    let params = FieldParams {
        field_type: SolceryType::SBrick { brick_type: 2 },
        name: String::from("Hp"),
        code: String::from("hp"),
        construct_client: true,
        construct_server: true,
    };
    let mut bytes = vec![0u8, 1];
    bytes.extend(to_bytes(&params));
    match decode_instruction(&bytes) {
        Ok(Instruction::AddField(p)) => {
            assert_eq!(p.name, "Hp");
            assert_eq!(p.code, "hp");
            assert!(matches!(p.field_type, SolceryType::SBrick { brick_type: 2 }));
            assert!(p.construct_client && p.construct_server);
        }
        other => panic!("unexpected {:?}", other),
    }
}

#[test]
fn malformed_arguments_fail_to_decode() {
    assert!(matches!(decode_instruction(&[0, 2, 1, 2]), Err(StoreError::DecodeError)));
    assert!(matches!(decode_instruction(&[0, 3, 5, 0, 0, 0, b'a']), Err(StoreError::DecodeError)));
    assert!(matches!(decode_instruction(&[0, 3, 1, 0, 0, 0, 0xff]), Err(StoreError::DecodeError)));
    assert!(matches!(decode_instruction(&[0, 1, 9]), Err(StoreError::DecodeError)));
    assert!(matches!(decode_instruction(&[3, 0, 1, 2]), Err(StoreError::DecodeError)));
}
