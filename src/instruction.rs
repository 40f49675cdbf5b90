//! Instructions: a component tag, an operation tag and the operation's
//! arguments, decoded from bytes.
use vstd::prelude::*;
use vstd::slice::{slice_subrange, slice_to_vec};

use crate::codec::Record;
use crate::error::StoreError;
use crate::template::{FieldParams, FieldParamsModel};

verus! {

/// Component tag of the schema operations.
pub const TEMPLATE_COMPONENT: u8 = 0;

/// Component tag of the instance operations.
pub const OBJECT_COMPONENT: u8 = 1;

/// Component tag of the registry operations.
pub const STORAGE_COMPONENT: u8 = 2;

/// Component tag of the header operations.
pub const CRUD_COMPONENT: u8 = 3;

/// Component tag of the tenant operations.
pub const PROJECT_COMPONENT: u8 = 4;

/// An operation with its arguments; the slots it works on are handed over
/// separately, in the order each operation lists.
#[derive(Debug)]
pub enum Instruction {
    /// Slots: tenant, schema, instance registry, the tenant's schema registry.
    CreateTemplate,
    /// Slots: schema.
    AddField(FieldParams),
    /// Slots: schema.
    DeleteField(u32),
    /// Slots: schema.
    ChangeName(String),
    /// Slots: schema.
    ChangeCode(String),
    /// Slots: signer, tenant, schema, instance registry, instance.
    CreateObject,
    /// Slots: signer, tenant, instance.
    UpdateObject(Vec<u8>),
    /// Slots: signer, tenant, instance, source.
    LoadObjectData,
    /// Slots: signer, tenant, instance, source.
    CloneObject,
    /// Slots: signer, tenant, registry, member.
    AddToStorage,
    /// Slots: signer, tenant, registry, member.
    RemoveFromStorage,
    /// Slots: the slot written.
    WriteRaw(u64, Vec<u8>),
    /// Slots: tenant, the tenant's schema registry, owner.
    CreateProject,
}

pub enum InstructionModel {
    CreateTemplate,
    AddField(FieldParamsModel),
    DeleteField(u32),
    ChangeName(Seq<char>),
    ChangeCode(Seq<char>),
    CreateObject,
    UpdateObject(Seq<u8>),
    LoadObjectData,
    CloneObject,
    AddToStorage,
    RemoveFromStorage,
    WriteRaw(u64, Seq<u8>),
    CreateProject,
}

impl Instruction {
    pub open spec fn model(&self) -> InstructionModel {
        match self {
            Instruction::CreateTemplate => InstructionModel::CreateTemplate,
            Instruction::AddField(p) => InstructionModel::AddField(p.model()),
            Instruction::DeleteField(id) => InstructionModel::DeleteField(*id),
            Instruction::ChangeName(n) => InstructionModel::ChangeName(n@),
            Instruction::ChangeCode(c) => InstructionModel::ChangeCode(c@),
            Instruction::CreateObject => InstructionModel::CreateObject,
            Instruction::UpdateObject(d) => InstructionModel::UpdateObject(d@),
            Instruction::LoadObjectData => InstructionModel::LoadObjectData,
            Instruction::CloneObject => InstructionModel::CloneObject,
            Instruction::AddToStorage => InstructionModel::AddToStorage,
            Instruction::RemoveFromStorage => InstructionModel::RemoveFromStorage,
            Instruction::WriteRaw(o, d) => InstructionModel::WriteRaw(*o, d@),
            Instruction::CreateProject => InstructionModel::CreateProject,
        }
    }
}

/// The argument of type `T` that starts the payload, if it decodes.
pub open spec fn argument<T: Record>(b: Seq<u8>) -> Result<T::M, StoreError> {
    match T::parse(b, 2) {
        Some((m, _)) => Ok(m),
        None => Err(StoreError::DecodeError),
    }
}

/// What an instruction's bytes mean: the first byte picks the component,
/// the second the operation, and the rest are its arguments. Bytes that
/// name no operation give `InvalidInstruction`; arguments that do not
/// decode give `DecodeError`.
pub open spec fn parse_instruction(b: Seq<u8>) -> Result<InstructionModel, StoreError> {
    if b.len() < 2 {
        Err(StoreError::InvalidInstruction)
    } else {
        let component = b[0];
        let op = b[1];
        let rest = b.subrange(2, b.len() as int);
        if component == TEMPLATE_COMPONENT {
            if op == 0 {
                Ok(InstructionModel::CreateTemplate)
            } else if op == 1 {
                match argument::<FieldParams>(b) {
                    Ok(p) => Ok(InstructionModel::AddField(p)),
                    Err(e) => Err(e),
                }
            } else if op == 2 {
                match argument::<u32>(b) {
                    Ok(id) => Ok(InstructionModel::DeleteField(id)),
                    Err(e) => Err(e),
                }
            } else if op == 3 {
                match argument::<String>(b) {
                    Ok(n) => Ok(InstructionModel::ChangeName(n)),
                    Err(e) => Err(e),
                }
            } else if op == 4 {
                match argument::<String>(b) {
                    Ok(c) => Ok(InstructionModel::ChangeCode(c)),
                    Err(e) => Err(e),
                }
            } else {
                Err(StoreError::InvalidInstruction)
            }
        } else if component == OBJECT_COMPONENT {
            if op == 0 {
                Ok(InstructionModel::CreateObject)
            } else if op == 1 {
                Ok(InstructionModel::UpdateObject(rest))
            } else if op == 2 {
                Ok(InstructionModel::LoadObjectData)
            } else if op == 3 {
                Ok(InstructionModel::CloneObject)
            } else {
                Err(StoreError::InvalidInstruction)
            }
        } else if component == STORAGE_COMPONENT {
            if op == 0 {
                Ok(InstructionModel::AddToStorage)
            } else if op == 1 {
                Ok(InstructionModel::RemoveFromStorage)
            } else {
                Err(StoreError::InvalidInstruction)
            }
        } else if component == CRUD_COMPONENT {
            if op == 0 {
                match argument::<u64>(b) {
                    Ok(offset) => Ok(InstructionModel::WriteRaw(offset, b.subrange(10, b.len() as int))),
                    Err(e) => Err(e),
                }
            } else {
                Err(StoreError::InvalidInstruction)
            }
        } else if component == PROJECT_COMPONENT {
            if op == 0 {
                Ok(InstructionModel::CreateProject)
            } else {
                Err(StoreError::InvalidInstruction)
            }
        } else {
            Err(StoreError::InvalidInstruction)
        }
    }
}

/// Decodes the argument of type `T` that starts the payload.
fn decode_argument<T: Record>(data: &[u8]) -> (r: Result<T, StoreError>)
    requires
        data@.len() >= 2,
    ensures
        match r {
            Ok(v) => argument::<T>(data@) == Ok::<T::M, StoreError>(v.model()),
            Err(e) => argument::<T>(data@) == Err::<T::M, StoreError>(e),
        },
{
    match T::decode_at(data, 2) {
        Some((v, _)) => Ok(v),
        None => Err(StoreError::DecodeError),
    }
}

/// Decodes the bytes of an instruction.
pub fn decode_instruction(data: &[u8]) -> (r: Result<Instruction, StoreError>)
    ensures
        match r {
            Ok(i) => parse_instruction(data@) == Ok::<InstructionModel, StoreError>(i.model()),
            Err(e) => parse_instruction(data@) == Err::<InstructionModel, StoreError>(e),
        },
{
    if data.len() < 2 {
        return Err(StoreError::InvalidInstruction);
    }
    let component = data[0];
    let op = data[1];
    if component == TEMPLATE_COMPONENT {
        if op == 0 {
            Ok(Instruction::CreateTemplate)
        } else if op == 1 {
            Ok(Instruction::AddField(decode_argument::<FieldParams>(data)?))
        } else if op == 2 {
            Ok(Instruction::DeleteField(decode_argument::<u32>(data)?))
        } else if op == 3 {
            Ok(Instruction::ChangeName(decode_argument::<String>(data)?))
        } else if op == 4 {
            Ok(Instruction::ChangeCode(decode_argument::<String>(data)?))
        } else {
            Err(StoreError::InvalidInstruction)
        }
    } else if component == OBJECT_COMPONENT {
        if op == 0 {
            Ok(Instruction::CreateObject)
        } else if op == 1 {
            let rest = slice_to_vec(slice_subrange(data, 2, data.len()));
            Ok(Instruction::UpdateObject(rest))
        } else if op == 2 {
            Ok(Instruction::LoadObjectData)
        } else if op == 3 {
            Ok(Instruction::CloneObject)
        } else {
            Err(StoreError::InvalidInstruction)
        }
    } else if component == STORAGE_COMPONENT {
        if op == 0 {
            Ok(Instruction::AddToStorage)
        } else if op == 1 {
            Ok(Instruction::RemoveFromStorage)
        } else {
            Err(StoreError::InvalidInstruction)
        }
    } else if component == CRUD_COMPONENT {
        if op == 0 {
            let offset = decode_argument::<u64>(data)?;
            let bytes = slice_to_vec(slice_subrange(data, 10, data.len()));
            Ok(Instruction::WriteRaw(offset, bytes))
        } else {
            Err(StoreError::InvalidInstruction)
        }
    } else if component == PROJECT_COMPONENT {
        if op == 0 {
            Ok(Instruction::CreateProject)
        } else {
            Err(StoreError::InvalidInstruction)
        }
    } else {
        Err(StoreError::InvalidInstruction)
    }
}

} // verus!
