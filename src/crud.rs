//! The record header: a version byte and the owner's key at the front of
//! every slot, and the writes that respect the slot's fixed capacity.
use vstd::prelude::*;

use crate::codec::{record_at, to_bytes, Record};
use crate::error::StoreError;
use crate::slot::{Key, Slot};

verus! {

/// Version stamped on a slot when it is initialized.
pub const CURRENT_VERSION: u8 = 1;

/// Width of the header: one version byte and a 32-byte owner key.
pub const HEADER_WIDTH: usize = 33;

/// `data` with its header stamped for `owner`; the payload is kept.
pub open spec fn stamped(data: Seq<u8>, owner: Seq<u8>) -> Seq<u8> {
    seq![CURRENT_VERSION] + owner + data.subrange(HEADER_WIDTH as int, data.len() as int)
}

/// The outcome of `initialize`: its result and the slot's bytes afterwards.
pub open spec fn initialize_effect(data: Seq<u8>, owner: Seq<u8>) -> (
    Result<(), StoreError>,
    Seq<u8>,
) {
    if data.len() < HEADER_WIDTH {
        (Err(StoreError::BufferTooSmall), data)
    } else if data[0] != 0 {
        (Err(StoreError::AlreadyInitialized), data)
    } else {
        (Ok(()), stamped(data, owner))
    }
}

/// `data` with `bytes` placed at `start` and the rest of `data` kept.
pub open spec fn spliced(data: Seq<u8>, start: int, bytes: Seq<u8>) -> Seq<u8> {
    data.subrange(0, start) + bytes + data.subrange(start + bytes.len(), data.len() as int)
}

/// The outcome of `write_raw`.
pub open spec fn write_raw_effect(data: Seq<u8>, offset: int, bytes: Seq<u8>) -> (
    Result<(), StoreError>,
    Seq<u8>,
) {
    if offset + bytes.len() > data.len() {
        (Err(StoreError::BufferTooSmall), data)
    } else {
        (Ok(()), spliced(data, offset, bytes))
    }
}

/// `n` zero bytes.
pub open spec fn zeros(n: int) -> Seq<u8> {
    Seq::new(n as nat, |i: int| 0u8)
}

/// The outcome of `write`: the bytes go after the header at `offset`, and
/// everything after them up to the end of the slot becomes zero.
pub open spec fn write_effect(data: Seq<u8>, offset: int, bytes: Seq<u8>) -> (
    Result<(), StoreError>,
    Seq<u8>,
) {
    let start = HEADER_WIDTH + offset;
    if start + bytes.len() > data.len() {
        (Err(StoreError::BufferTooSmall), data)
    } else {
        (Ok(()), data.subrange(0, start) + bytes + zeros(data.len() - start - bytes.len()))
    }
}

/// The version byte of a slot, zero while it is not initialized.
pub open spec fn version_of(data: Seq<u8>) -> u8 {
    data[0]
}

/// The owner key recorded in a slot's header.
pub open spec fn owner_of(data: Seq<u8>) -> Seq<u8> {
    data.subrange(1, HEADER_WIDTH as int)
}

/// Stamps the header of `slot` with the current version and `owner`.
///
/// Fails with `AlreadyInitialized` when the version byte is not zero and with
/// `BufferTooSmall` when the slot cannot hold a header; the payload is
/// never touched.
pub fn initialize(owner: &Key, slot: &mut Slot) -> (r: Result<(), StoreError>)
    ensures
        final(slot).key == old(slot).key,
        (r, final(slot).data@) == initialize_effect(old(slot).data@, owner@),
{
    let cap = slot.data.len();
    if cap < HEADER_WIDTH {
        return Err(StoreError::BufferTooSmall);
    }
    if slot.data[0] != 0 {
        return Err(StoreError::AlreadyInitialized);
    }
    slot.data[0] = CURRENT_VERSION;
    let mut i: usize = 0;
    while i < 32
        invariant
            i <= 32,
            owner@.len() == 32,
            slot.key == old(slot).key,
            slot.data@.len() == cap,
            cap == old(slot).data@.len(),
            cap >= HEADER_WIDTH,
            slot.data@[0] == CURRENT_VERSION,
            forall|j: int| 0 <= j < i ==> slot.data@[1 + j] == owner@[j],
            forall|j: int| 1 + i <= j < cap ==> slot.data@[j] == old(slot).data@[j],
        decreases 32 - i,
    {
        slot.data[1 + i] = owner.bytes[i];
        i += 1;
    }
    assert(slot.data@ =~= stamped(old(slot).data@, owner@));
    Ok(())
}

/// Writes `bytes` verbatim at the absolute position `offset`.
///
/// Fails with `BufferTooSmall`, leaving the slot as it was, when the bytes
/// would run past the end of the slot; no other byte changes.
pub fn write_raw(slot: &mut Slot, offset: u64, bytes: &[u8]) -> (r: Result<(), StoreError>)
    ensures
        final(slot).key == old(slot).key,
        (r, final(slot).data@) == write_raw_effect(old(slot).data@, offset as int, bytes@),
{
    let cap = slot.data.len();
    if (offset as u128) + (bytes.len() as u128) > (cap as u128) {
        return Err(StoreError::BufferTooSmall);
    }
    let start = offset as usize;
    let mut i: usize = 0;
    while i < bytes.len()
        invariant
            i <= bytes@.len(),
            start + bytes@.len() <= cap,
            start == offset,
            slot.key == old(slot).key,
            slot.data@.len() == cap,
            cap == old(slot).data@.len(),
            forall|j: int| 0 <= j < start ==> slot.data@[j] == old(slot).data@[j],
            forall|j: int| 0 <= j < i ==> slot.data@[start + j] == bytes@[j],
            forall|j: int| start + i <= j < cap ==> slot.data@[j] == old(slot).data@[j],
        decreases bytes@.len() - i,
    {
        slot.data[start + i] = bytes[i];
        i += 1;
    }
    assert(slot.data@ =~= spliced(old(slot).data@, offset as int, bytes@));
    Ok(())
}

/// Writes `bytes` at `offset` past the header and zero-fills the rest of
/// the slot.
///
/// Fails with `BufferTooSmall`, leaving the slot as it was, when the bytes
/// would run past the end of the slot.
pub fn write(slot: &mut Slot, offset: u64, bytes: &[u8]) -> (r: Result<(), StoreError>)
    ensures
        final(slot).key == old(slot).key,
        (r, final(slot).data@) == write_effect(old(slot).data@, offset as int, bytes@),
{
    let cap = slot.data.len();
    if (HEADER_WIDTH as u128) + (offset as u128) + (bytes.len() as u128) > (cap as u128) {
        return Err(StoreError::BufferTooSmall);
    }
    let start = HEADER_WIDTH + offset as usize;
    let end = start + bytes.len();
    let mut i: usize = 0;
    while i < bytes.len()
        invariant
            i <= bytes@.len(),
            end == start + bytes@.len(),
            end <= cap,
            start == HEADER_WIDTH + offset,
            slot.key == old(slot).key,
            slot.data@.len() == cap,
            cap == old(slot).data@.len(),
            forall|j: int| 0 <= j < start ==> slot.data@[j] == old(slot).data@[j],
            forall|j: int| 0 <= j < i ==> slot.data@[start + j] == bytes@[j],
        decreases bytes@.len() - i,
    {
        slot.data[start + i] = bytes[i];
        i += 1;
    }
    let mut k: usize = end;
    while k < cap
        invariant
            end <= k <= cap,
            end == start + bytes@.len(),
            start == HEADER_WIDTH + offset,
            slot.key == old(slot).key,
            slot.data@.len() == cap,
            cap == old(slot).data@.len(),
            forall|j: int| 0 <= j < start ==> slot.data@[j] == old(slot).data@[j],
            forall|j: int| 0 <= j < bytes@.len() ==> slot.data@[start + j] == bytes@[j],
            forall|j: int| end <= j < k ==> slot.data@[j] == 0u8,
        decreases cap - k,
    {
        slot.data[k] = 0u8;
        k += 1;
    }
    assert(slot.data@ =~= old(slot).data@.subrange(0, start as int) + bytes@ + zeros(
        cap - start - bytes@.len(),
    ));
    Ok(())
}

/// Initializing twice fails the second time and leaves the bytes as the
/// first initialization left them, for every slot that can hold a header.
pub proof fn initialize_is_once(data: Seq<u8>, first: Seq<u8>, second: Seq<u8>)
    requires
        data.len() >= HEADER_WIDTH,
        first.len() == 32,
    ensures
        initialize_effect(initialize_effect(data, first).1, second).0 == Err::<(), StoreError>(
            StoreError::AlreadyInitialized,
        ),
        initialize_effect(initialize_effect(data, first).1, second).1 == initialize_effect(
            data,
            first,
        ).1,
{
    let d1 = initialize_effect(data, first).1;
    assert(d1.len() == data.len());
    assert(d1[0] != 0) by {
        if data[0] == 0 {
            assert(d1[0] == CURRENT_VERSION);
        }
    }
}

/// A write that ends exactly at the end of the slot succeeds and leaves no
/// trailing bytes to zero.
pub proof fn write_to_the_end(data: Seq<u8>, offset: int, bytes: Seq<u8>)
    requires
        0 <= offset,
        HEADER_WIDTH + offset + bytes.len() == data.len(),
    ensures
        write_effect(data, offset, bytes).0 == Ok::<(), StoreError>(()),
        write_effect(data, offset, bytes).1 == data.subrange(0, HEADER_WIDTH + offset) + bytes,
{
    assert(write_effect(data, offset, bytes).1 =~= data.subrange(0, HEADER_WIDTH + offset)
        + bytes);
}

/// A write that would run past the end of the slot fails with
/// `BufferTooSmall` and changes no byte.
pub proof fn write_past_the_end(data: Seq<u8>, offset: int, bytes: Seq<u8>)
    requires
        HEADER_WIDTH + offset + bytes.len() > data.len(),
    ensures
        write_effect(data, offset, bytes) == (Err::<(), StoreError>(StoreError::BufferTooSmall), data),
{
}

/// The record held in the payload of a slot, if the payload starts with
/// the encoding of one.
pub open spec fn payload_record<T: Record>(data: Seq<u8>) -> Option<T::M> {
    if data.len() >= HEADER_WIDTH {
        record_at::<T>(data, HEADER_WIDTH as int)
    } else {
        None
    }
}

/// The outcome of storing a record in the payload of a slot with `write`.
///
/// A record that the layout cannot carry is refused with `BufferTooSmall`,
/// as one whose encoding does not fit in the slot is.
pub open spec fn store_effect<T: Record>(data: Seq<u8>, m: T::M) -> (
    Result<(), StoreError>,
    Seq<u8>,
) {
    if T::framable(m) {
        write_effect(data, 0, T::enc(m))
    } else {
        (Err(StoreError::BufferTooSmall), data)
    }
}

/// Reads the record held in the payload of a slot.
pub fn load<T: Record>(slot: &Slot) -> (r: Result<T, StoreError>)
    ensures
        match r {
            Ok(v) => payload_record::<T>(slot.data@) == Some(v.model()),
            Err(e) => e == StoreError::DecodeError && payload_record::<T>(slot.data@) is None,
        },
{
    if slot.data.len() < HEADER_WIDTH {
        return Err(StoreError::DecodeError);
    }
    match T::decode_at(slot.data.as_slice(), HEADER_WIDTH) {
        Some((v, _)) => Ok(v),
        None => Err(StoreError::DecodeError),
    }
}

/// Writes the encoding of a record as the payload of a slot, zero-filling
/// the bytes after it.
pub fn store<T: Record>(slot: &mut Slot, v: &T) -> (r: Result<(), StoreError>)
    ensures
        final(slot).key == old(slot).key,
        (r, final(slot).data@) == store_effect::<T>(old(slot).data@, v.model()),
{
    if !v.is_framable() {
        return Err(StoreError::BufferTooSmall);
    }
    let bytes = to_bytes(v);
    write(slot, 0, bytes.as_slice())
}

/// A record that was stored is read back unchanged.
pub proof fn lemma_store_load<T: Record>(data: Seq<u8>, m: T::M)
    requires
        store_effect::<T>(data, m).0 is Ok,
    ensures
        payload_record::<T>(store_effect::<T>(data, m).1) == Some(m),
        store_effect::<T>(data, m).1.len() == data.len(),
        owner_of(store_effect::<T>(data, m).1) == owner_of(data),
        version_of(store_effect::<T>(data, m).1) == version_of(data),
{
    let e = T::enc(m);
    let d = store_effect::<T>(data, m).1;
    let h = HEADER_WIDTH as int;
    assert(d.subrange(h, h + e.len()) =~= e);
    T::lemma_round_trip(m, d, h);
    assert(owner_of(d) =~= owner_of(data));
}

/// A record no longer than the one a slot holds can be stored in its place.
pub proof fn lemma_store_fits<T: Record>(data: Seq<u8>, m: T::M, m2: T::M)
    requires
        payload_record::<T>(data) == Some(m),
        T::framable(m2),
        T::enc(m2).len() <= T::enc(m).len(),
    ensures
        store_effect::<T>(data, m2).0 is Ok,
{
    T::lemma_parse_canonical(data, HEADER_WIDTH as int);
}

/// The payload bytes of a slot.
#[derive(Clone, Debug, Default)]
pub struct Data {
    pub bytes: Vec<u8>,
}

/// A slot split into its header fields and its payload.
#[derive(Clone, Debug)]
pub struct RecordData {
    pub version: u8,
    pub project: Key,
    pub data: Data,
}

impl RecordData {
    /// Whether the header was stamped.
    pub fn is_initialized(&self) -> (r: bool)
        ensures
            r == (self.version != 0),
    {
        self.version != 0
    }

    /// Splits the bytes of a slot into its header fields and its payload.
    ///
    /// Fails with `DecodeError` when the slot cannot hold a header.
    pub fn from_slot(slot: &Slot) -> (r: Result<RecordData, StoreError>)
        ensures
            match r {
                Ok(rd) => {
                    &&& slot.data@.len() >= HEADER_WIDTH
                    &&& rd.version == version_of(slot.data@)
                    &&& rd.project@ == owner_of(slot.data@)
                    &&& rd.data.bytes@ == slot.data@.subrange(
                        HEADER_WIDTH as int,
                        slot.data@.len() as int,
                    )
                },
                Err(e) => e == StoreError::DecodeError && slot.data@.len() < HEADER_WIDTH,
            },
    {
        let len = slot.data.len();
        if len < HEADER_WIDTH {
            return Err(StoreError::DecodeError);
        }
        let all = slot.data.as_slice();
        let project = match Key::decode_at(all, 1) {
            Some((k, _)) => k,
            None => return Err(StoreError::DecodeError),
        };
        let bytes = vstd::slice::slice_to_vec(vstd::slice::slice_subrange(all, HEADER_WIDTH, len));
        Ok(RecordData { version: slot.data[0], project, data: Data { bytes } })
    }
}

} // verus!
