//! Instances: records that conform to a schema, with an id issued by their
//! tenant, followed by their field payload.
use vstd::prelude::*;

use crate::codec::{lemma_split, Record};
use crate::crud::{
    initialize, initialize_effect, load, payload_record, spliced, store, store_effect,
    write_effect, HEADER_WIDTH,
};
use crate::error::StoreError;
use crate::project::{get_uniq_id, uniq_id_effect};
use crate::slot::{Key, Slot};
use crate::storage::add_effect;

verus! {

/// Width of an instance's own metadata (its id and its schema's key),
/// after which its field payload starts.
pub const OBJECT_METADATA_SIZE: usize = 36;

/// Where the field payload of an instance starts in its slot.
pub const PAYLOAD_START: usize = HEADER_WIDTH + OBJECT_METADATA_SIZE;

/// Where the bytes of one field lie in an instance's field data.
#[derive(Debug)]
pub struct ObjectFieldData {
    pub field_id: u32,
    pub start_offset: usize,
    pub end_offset: usize,
}

pub struct ObjectFieldDataModel {
    pub field_id: u32,
    pub start_offset: usize,
    pub end_offset: usize,
}

impl Record for ObjectFieldData {
    type M = ObjectFieldDataModel;

    open spec fn model(&self) -> ObjectFieldDataModel {
        ObjectFieldDataModel {
            field_id: self.field_id,
            start_offset: self.start_offset,
            end_offset: self.end_offset,
        }
    }

    open spec fn framable(m: ObjectFieldDataModel) -> bool {
        true
    }

    open spec fn enc(m: ObjectFieldDataModel) -> Seq<u8> {
        u32::enc(m.field_id) + usize::enc(m.start_offset) + usize::enc(m.end_offset)
    }

    open spec fn parse(b: Seq<u8>, pos: int) -> Option<(ObjectFieldDataModel, int)> {
        match u32::parse(b, pos) {
            Some((field_id, p1)) => match usize::parse(b, p1) {
                Some((start_offset, p2)) => match usize::parse(b, p2) {
                    Some((end_offset, p3)) => Some(
                        (ObjectFieldDataModel { field_id, start_offset, end_offset }, p3),
                    ),
                    None => None,
                },
                None => None,
            },
            None => None,
        }
    }

    proof fn lemma_round_trip(m: ObjectFieldDataModel, b: Seq<u8>, pos: int) {
        let e1 = u32::enc(m.field_id);
        let e2 = usize::enc(m.start_offset);
        let e3 = usize::enc(m.end_offset);
        lemma_split(b, pos, e1 + e2, e3);
        lemma_split(b, pos, e1, e2);
        u32::lemma_round_trip(m.field_id, b, pos);
        usize::lemma_round_trip(m.start_offset, b, pos + e1.len());
        usize::lemma_round_trip(m.end_offset, b, pos + e1.len() + e2.len());
    }

    proof fn lemma_parse_canonical(b: Seq<u8>, pos: int) {
        u32::lemma_parse_canonical(b, pos);
        let (f, p1) = u32::parse(b, pos).unwrap();
        usize::lemma_parse_canonical(b, p1);
        let (s, p2) = usize::parse(b, p1).unwrap();
        usize::lemma_parse_canonical(b, p2);
        let (e, p3) = usize::parse(b, p2).unwrap();
        assert(b.subrange(pos, p3) =~= b.subrange(pos, p1) + b.subrange(p1, p2) + b.subrange(
            p2,
            p3,
        ));
    }

    fn is_framable(&self) -> (r: bool) {
        true
    }

    fn encode_into(&self, out: &mut Vec<u8>) {
        self.field_id.encode_into(out);
        self.start_offset.encode_into(out);
        self.end_offset.encode_into(out);
        assert(out@ =~= old(out)@ + Self::enc(self.model()));
    }

    fn decode_at(b: &[u8], pos: usize) -> (r: Option<(ObjectFieldData, usize)>) {
        let (field_id, p1) = match u32::decode_at(b, pos) {
            Some(x) => x,
            None => return None,
        };
        let (start_offset, p2) = match usize::decode_at(b, p1) {
            Some(x) => x,
            None => return None,
        };
        let (end_offset, p3) = match usize::decode_at(b, p2) {
            Some(x) => x,
            None => return None,
        };
        Some((ObjectFieldData { field_id, start_offset, end_offset }, p3))
    }
}

/// The field payload of an instance: where each field lies, and the bytes.
#[derive(Debug)]
pub struct ObjectData {
    pub field_offsets: Vec<ObjectFieldData>,
    pub field_data: Vec<u8>,
}

pub struct ObjectDataModel {
    pub field_offsets: Seq<ObjectFieldDataModel>,
    pub field_data: Seq<u8>,
}

impl Record for ObjectData {
    type M = ObjectDataModel;

    open spec fn model(&self) -> ObjectDataModel {
        ObjectDataModel {
            field_offsets: self.field_offsets.model(),
            field_data: self.field_data.model(),
        }
    }

    open spec fn framable(m: ObjectDataModel) -> bool {
        Vec::<ObjectFieldData>::framable(m.field_offsets) && Vec::<u8>::framable(m.field_data)
    }

    open spec fn enc(m: ObjectDataModel) -> Seq<u8> {
        Vec::<ObjectFieldData>::enc(m.field_offsets) + Vec::<u8>::enc(m.field_data)
    }

    open spec fn parse(b: Seq<u8>, pos: int) -> Option<(ObjectDataModel, int)> {
        match Vec::<ObjectFieldData>::parse(b, pos) {
            Some((field_offsets, p1)) => match Vec::<u8>::parse(b, p1) {
                Some((field_data, p2)) => Some((ObjectDataModel { field_offsets, field_data }, p2)),
                None => None,
            },
            None => None,
        }
    }

    proof fn lemma_round_trip(m: ObjectDataModel, b: Seq<u8>, pos: int) {
        let e1 = Vec::<ObjectFieldData>::enc(m.field_offsets);
        let e2 = Vec::<u8>::enc(m.field_data);
        lemma_split(b, pos, e1, e2);
        Vec::<ObjectFieldData>::lemma_round_trip(m.field_offsets, b, pos);
        Vec::<u8>::lemma_round_trip(m.field_data, b, pos + e1.len());
    }

    proof fn lemma_parse_canonical(b: Seq<u8>, pos: int) {
        Vec::<ObjectFieldData>::lemma_parse_canonical(b, pos);
        let (fo, p1) = Vec::<ObjectFieldData>::parse(b, pos).unwrap();
        Vec::<u8>::lemma_parse_canonical(b, p1);
        let (fd, p2) = Vec::<u8>::parse(b, p1).unwrap();
        assert(b.subrange(pos, p2) =~= b.subrange(pos, p1) + b.subrange(p1, p2));
    }

    fn is_framable(&self) -> (r: bool) {
        self.field_offsets.is_framable() && self.field_data.is_framable()
    }

    fn encode_into(&self, out: &mut Vec<u8>) {
        self.field_offsets.encode_into(out);
        self.field_data.encode_into(out);
        assert(out@ =~= old(out)@ + Self::enc(self.model()));
    }

    fn decode_at(b: &[u8], pos: usize) -> (r: Option<(ObjectData, usize)>) {
        let (field_offsets, p1) = match Vec::<ObjectFieldData>::decode_at(b, pos) {
            Some(x) => x,
            None => return None,
        };
        let (field_data, p2) = match Vec::<u8>::decode_at(b, p1) {
            Some(x) => x,
            None => return None,
        };
        Some((ObjectData { field_offsets, field_data }, p2))
    }
}

/// An instance: its tenant-scoped id, the key of its schema, and its field
/// payload.
#[derive(Debug)]
pub struct Object {
    pub id: u32,
    pub template: Key,
    pub data: ObjectData,
}

pub struct ObjectModel {
    pub id: u32,
    pub template: Seq<u8>,
    pub data: ObjectDataModel,
}

impl Record for Object {
    type M = ObjectModel;

    open spec fn model(&self) -> ObjectModel {
        ObjectModel { id: self.id, template: self.template@, data: self.data.model() }
    }

    open spec fn framable(m: ObjectModel) -> bool {
        Key::framable(m.template) && ObjectData::framable(m.data)
    }

    open spec fn enc(m: ObjectModel) -> Seq<u8> {
        u32::enc(m.id) + Key::enc(m.template) + ObjectData::enc(m.data)
    }

    open spec fn parse(b: Seq<u8>, pos: int) -> Option<(ObjectModel, int)> {
        match u32::parse(b, pos) {
            Some((id, p1)) => match Key::parse(b, p1) {
                Some((template, p2)) => match ObjectData::parse(b, p2) {
                    Some((data, p3)) => Some((ObjectModel { id, template, data }, p3)),
                    None => None,
                },
                None => None,
            },
            None => None,
        }
    }

    proof fn lemma_round_trip(m: ObjectModel, b: Seq<u8>, pos: int) {
        let e1 = u32::enc(m.id);
        let e2 = Key::enc(m.template);
        let e3 = ObjectData::enc(m.data);
        lemma_split(b, pos, e1 + e2, e3);
        lemma_split(b, pos, e1, e2);
        u32::lemma_round_trip(m.id, b, pos);
        Key::lemma_round_trip(m.template, b, pos + e1.len());
        ObjectData::lemma_round_trip(m.data, b, pos + e1.len() + e2.len());
    }

    proof fn lemma_parse_canonical(b: Seq<u8>, pos: int) {
        u32::lemma_parse_canonical(b, pos);
        let (id, p1) = u32::parse(b, pos).unwrap();
        Key::lemma_parse_canonical(b, p1);
        let (t, p2) = Key::parse(b, p1).unwrap();
        ObjectData::lemma_parse_canonical(b, p2);
        let (d, p3) = ObjectData::parse(b, p2).unwrap();
        assert(b.subrange(pos, p3) =~= b.subrange(pos, p1) + b.subrange(p1, p2) + b.subrange(
            p2,
            p3,
        ));
    }

    fn is_framable(&self) -> (r: bool) {
        self.template.is_framable() && self.data.is_framable()
    }

    fn encode_into(&self, out: &mut Vec<u8>) {
        self.id.encode_into(out);
        self.template.encode_into(out);
        self.data.encode_into(out);
        assert(out@ =~= old(out)@ + Self::enc(self.model()));
    }

    fn decode_at(b: &[u8], pos: usize) -> (r: Option<(Object, usize)>) {
        let (id, p1) = match u32::decode_at(b, pos) {
            Some(x) => x,
            None => return None,
        };
        let (template, p2) = match Key::decode_at(b, p1) {
            Some(x) => x,
            None => return None,
        };
        let (data, p3) = match ObjectData::decode_at(b, p2) {
            Some(x) => x,
            None => return None,
        };
        Some((Object { id, template, data }, p3))
    }
}

/// The record that `create` stores for a new instance.
pub open spec fn new_object(id: u32, template: Seq<u8>) -> ObjectModel {
    ObjectModel {
        id,
        template,
        data: ObjectDataModel { field_offsets: Seq::empty(), field_data: Seq::empty() },
    }
}

/// The outcome of `create`: its result, then the bytes of the tenant slot,
/// the instance registry and the instance slot.
pub open spec fn create_effect(
    project_key: Seq<u8>,
    project: Seq<u8>,
    template: Seq<u8>,
    storage: Seq<u8>,
    object_key: Seq<u8>,
    object: Seq<u8>,
) -> (Result<(), StoreError>, Seq<u8>, Seq<u8>, Seq<u8>) {
    let (r1, o1) = initialize_effect(object, project_key);
    if r1 is Err {
        (r1, project, storage, o1)
    } else {
        let (r2, p2) = uniq_id_effect(project);
        match r2 {
            Err(e) => (Err(e), p2, storage, o1),
            Ok(id) => {
                let (r3, o3) = store_effect::<Object>(o1, new_object(id, template));
                if r3 is Err {
                    (r3, p2, storage, o3)
                } else {
                    let (r4, s4) = add_effect(storage, object_key);
                    (r4, p2, s4, o3)
                }
            },
        }
    }
}

/// The outcome of copying the bytes of `src` from its payload start plus
/// `data_offset` to its end into `dst` at its payload start plus
/// `object_offset`.
pub open spec fn copy_effect(dst: Seq<u8>, src: Seq<u8>, object_offset: int, data_offset: int) -> (
    Result<(), StoreError>,
    Seq<u8>,
) {
    let from = PAYLOAD_START + data_offset;
    let to = PAYLOAD_START + object_offset;
    if from > src.len() || to + (src.len() - from) > dst.len() {
        (Err(StoreError::BufferTooSmall), dst)
    } else {
        (Ok(()), spliced(dst, to, src.subrange(from, src.len() as int)))
    }
}

/// Creates an instance of the schema `template` in `object` for the tenant
/// in `project`, and lists it in the instance registry `storage`.
///
/// Stamps the instance's header for the tenant, issues its id from the
/// tenant, stores it with an empty field payload and adds its key to
/// `storage`. Fails, at the first step that fails, as those steps do.
pub fn create(project: &mut Slot, template: &Key, storage: &mut Slot, object: &mut Slot) -> (r:
    Result<(), StoreError>)
    ensures
        final(project).key == old(project).key,
        final(storage).key == old(storage).key,
        final(object).key == old(object).key,
        (r, final(project).data@, final(storage).data@, final(object).data@) == create_effect(
            old(project).key@,
            old(project).data@,
            template@,
            old(storage).data@,
            old(object).key@,
            old(object).data@,
        ),
{
    let project_key = project.key;
    initialize(&project_key, object)?;
    let id = get_uniq_id(project)?;
    let record = Object {
        id,
        template: *template,
        data: ObjectData { field_offsets: Vec::new(), field_data: Vec::new() },
    };
    assert(record.model() =~= new_object(id, template@)) by {
        assert(record.data.field_offsets.model() =~= Seq::<ObjectFieldDataModel>::empty());
        assert(record.data.field_data.model() =~= Seq::<u8>::empty());
    }
    store(object, &record)?;
    let object_key = object.key;
    crate::storage::add(storage, &object_key)
}

/// Replaces the field payload of the instance in `object` with `data`,
/// zero-filling the rest of the slot; `data` is not checked against the
/// schema.
///
/// Fails with `BufferTooSmall`, leaving the slot as it was, when `data`
/// does not fit.
pub fn update(object: &mut Slot, data: Vec<u8>) -> (r: Result<(), StoreError>)
    ensures
        final(object).key == old(object).key,
        (r, final(object).data@) == write_effect(
            old(object).data@,
            OBJECT_METADATA_SIZE as int,
            data@,
        ),
{
    crate::crud::write(object, OBJECT_METADATA_SIZE as u64, data.as_slice())
}

/// Copies the bytes of `src` from its payload start plus `data_offset` to
/// its end into `object` at its payload start plus `object_offset`; the
/// other bytes of `object` are kept.
///
/// Fails with `BufferTooSmall`, leaving `object` as it was, when the
/// source range does not exist or does not fit.
pub fn load_data_from_src(object: &mut Slot, src: &Slot, object_offset: usize, data_offset: usize)
    -> (r: Result<(), StoreError>)
    ensures
        final(object).key == old(object).key,
        (r, final(object).data@) == copy_effect(
            old(object).data@,
            src.data@,
            object_offset as int,
            data_offset as int,
        ),
{
    let src_len = src.data.len();
    let dst_len = object.data.len();
    if data_offset > src_len || PAYLOAD_START > src_len - data_offset {
        return Err(StoreError::BufferTooSmall);
    }
    let from = PAYLOAD_START + data_offset;
    let n = src_len - from;
    if object_offset > dst_len || PAYLOAD_START > dst_len - object_offset || n > dst_len
        - object_offset - PAYLOAD_START {
        return Err(StoreError::BufferTooSmall);
    }
    let to = PAYLOAD_START + object_offset;
    let mut i: usize = 0;
    while i < n
        invariant
            i <= n,
            from + n == src_len,
            src_len == src.data@.len(),
            to + n <= dst_len,
            object.key == old(object).key,
            object.data@.len() == dst_len,
            dst_len == old(object).data@.len(),
            forall|j: int| 0 <= j < to ==> object.data@[j] == old(object).data@[j],
            forall|j: int| to <= j < to + i ==> #[trigger] object.data@[j] == src.data@[from + (j - to)],
            forall|j: int| to + i <= j < dst_len ==> object.data@[j] == old(object).data@[j],
        decreases n - i,
    {
        object.data[to + i] = src.data[from + i];
        i += 1;
    }
    assert(object.data@ =~= spliced(
        old(object).data@,
        to as int,
        src.data@.subrange(from as int, src_len as int),
    ));
    Ok(())
}

/// Copies the field payload of `src` over that of `object`.
///
/// Fails with `BufferTooSmall`, leaving `object` as it was, when it does
/// not fit.
pub fn clone(object: &mut Slot, src: &Slot) -> (r: Result<(), StoreError>)
    ensures
        final(object).key == old(object).key,
        (r, final(object).data@) == copy_effect(old(object).data@, src.data@, 0, 0),
{
    load_data_from_src(object, src, 0, 0)
}

/// Reads the instance held in `object`.
pub fn read(object: &Slot) -> (r: Result<Object, StoreError>)
    ensures
        match r {
            Ok(o) => payload_record::<Object>(object.data@) == Some(o.model()),
            Err(e) => e == StoreError::DecodeError && payload_record::<Object>(object.data@) is None,
        },
{
    load::<Object>(object)
}

} // verus!
