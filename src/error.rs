use vstd::prelude::*;

verus! {

/// The ways an operation on a slot can fail.
#[derive(Clone, Copy, Debug, PartialEq, Eq, Structural)]
pub enum StoreError {
    /// The header of the slot was already stamped.
    AlreadyInitialized,
    /// A write would run past the end of the slot.
    BufferTooSmall,
    /// The bytes of a slot or an instruction do not hold the expected record.
    DecodeError,
    /// No field of the schema has the requested id.
    FieldNotFound,
    /// The instruction tag is unknown.
    InvalidInstruction,
    /// The caller is not allowed to perform the operation.
    Unauthorized,
    /// A counter reached the largest value it can hold.
    ArithmeticOverflow,
}

} // verus!
