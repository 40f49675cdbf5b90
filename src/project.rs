//! Tenants: the root records that own a registry of schemas and issue
//! ids that are never reused.
use vstd::bytes::lemma_auto_spec_u32_to_from_le_bytes;
use vstd::prelude::*;
use vstd::string::StringExecFns;

use crate::codec::{lemma_split, Record};
use crate::crud::{
    initialize, initialize_effect, lemma_store_fits, lemma_store_load, load, payload_record, store,
    store_effect,
};
use crate::error::StoreError;
use crate::slot::{Key, Slot};
use crate::storage::{assign, assign_effect};

verus! {

/// A tenant: its display name, the identity that owns it, the registry of
/// its schemas, and the next id it will issue.
#[derive(Debug)]
pub struct Project {
    pub name: String,
    pub owner: Key,
    pub template_storage: Key,
    pub uniq_id: u32,
}

pub struct ProjectModel {
    pub name: Seq<char>,
    pub owner: Seq<u8>,
    pub template_storage: Seq<u8>,
    pub uniq_id: u32,
}

impl Record for Project {
    type M = ProjectModel;

    open spec fn model(&self) -> ProjectModel {
        ProjectModel {
            name: self.name@,
            owner: self.owner@,
            template_storage: self.template_storage@,
            uniq_id: self.uniq_id,
        }
    }

    open spec fn framable(m: ProjectModel) -> bool {
        String::framable(m.name) && Key::framable(m.owner) && Key::framable(m.template_storage)
    }

    open spec fn enc(m: ProjectModel) -> Seq<u8> {
        String::enc(m.name) + Key::enc(m.owner) + Key::enc(m.template_storage) + u32::enc(
            m.uniq_id,
        )
    }

    open spec fn parse(b: Seq<u8>, pos: int) -> Option<(ProjectModel, int)> {
        match String::parse(b, pos) {
            Some((name, p1)) => match Key::parse(b, p1) {
                Some((owner, p2)) => match Key::parse(b, p2) {
                    Some((template_storage, p3)) => match u32::parse(b, p3) {
                        Some((uniq_id, p4)) => Some(
                            (ProjectModel { name, owner, template_storage, uniq_id }, p4),
                        ),
                        None => None,
                    },
                    None => None,
                },
                None => None,
            },
            None => None,
        }
    }

    proof fn lemma_round_trip(m: ProjectModel, b: Seq<u8>, pos: int) {
        let e1 = String::enc(m.name);
        let e2 = Key::enc(m.owner);
        let e3 = Key::enc(m.template_storage);
        let e4 = u32::enc(m.uniq_id);
        lemma_split(b, pos, e1 + e2 + e3, e4);
        lemma_split(b, pos, e1 + e2, e3);
        lemma_split(b, pos, e1, e2);
        String::lemma_round_trip(m.name, b, pos);
        Key::lemma_round_trip(m.owner, b, pos + e1.len());
        Key::lemma_round_trip(m.template_storage, b, pos + e1.len() + e2.len());
        u32::lemma_round_trip(m.uniq_id, b, pos + e1.len() + e2.len() + e3.len());
    }

    proof fn lemma_parse_canonical(b: Seq<u8>, pos: int) {
        String::lemma_parse_canonical(b, pos);
        let (name, p1) = String::parse(b, pos).unwrap();
        Key::lemma_parse_canonical(b, p1);
        let (owner, p2) = Key::parse(b, p1).unwrap();
        Key::lemma_parse_canonical(b, p2);
        let (ts, p3) = Key::parse(b, p2).unwrap();
        u32::lemma_parse_canonical(b, p3);
        let (id, p4) = u32::parse(b, p3).unwrap();
        assert(b.subrange(pos, p4) =~= b.subrange(pos, p1) + b.subrange(p1, p2) + b.subrange(
            p2,
            p3,
        ) + b.subrange(p3, p4));
    }

    fn is_framable(&self) -> (r: bool) {
        self.name.is_framable() && self.owner.is_framable() && self.template_storage.is_framable()
    }

    fn encode_into(&self, out: &mut Vec<u8>) {
        self.name.encode_into(out);
        self.owner.encode_into(out);
        self.template_storage.encode_into(out);
        self.uniq_id.encode_into(out);
        assert(out@ =~= old(out)@ + Self::enc(self.model()));
    }

    fn decode_at(b: &[u8], pos: usize) -> (r: Option<(Project, usize)>) {
        let (name, p1) = match String::decode_at(b, pos) {
            Some(x) => x,
            None => return None,
        };
        let (owner, p2) = match Key::decode_at(b, p1) {
            Some(x) => x,
            None => return None,
        };
        let (template_storage, p3) = match Key::decode_at(b, p2) {
            Some(x) => x,
            None => return None,
        };
        let (uniq_id, p4) = match u32::decode_at(b, p3) {
            Some(x) => x,
            None => return None,
        };
        Some((Project { name, owner, template_storage, uniq_id }, p4))
    }
}

/// The name a new tenant gets.
pub open spec fn placeholder_name() -> Seq<char> {
    "New project"@
}

/// The record that `create` stores for a new tenant.
pub open spec fn new_project(owner: Seq<u8>, template_storage: Seq<u8>) -> ProjectModel {
    ProjectModel { name: placeholder_name(), owner, template_storage, uniq_id: 0 }
}

/// The outcome of `create`: its result, then the bytes of the tenant slot
/// and of the registry slot afterwards.
pub open spec fn create_effect(
    project_key: Seq<u8>,
    project: Seq<u8>,
    templates_key: Seq<u8>,
    templates: Seq<u8>,
    owner: Seq<u8>,
) -> (Result<(), StoreError>, Seq<u8>, Seq<u8>) {
    let (r1, p1) = initialize_effect(project, project_key);
    if r1 is Err {
        (r1, p1, templates)
    } else {
        let (r2, p2) = store_effect::<Project>(p1, new_project(owner, templates_key));
        if r2 is Err {
            (r2, p2, templates)
        } else {
            let (r3, t3) = assign_effect(project_key, templates, project_key);
            (r3, p2, t3)
        }
    }
}

/// The outcome of `get_uniq_id`: the id issued and the tenant slot's bytes.
pub open spec fn uniq_id_effect(data: Seq<u8>) -> (Result<u32, StoreError>, Seq<u8>) {
    match payload_record::<Project>(data) {
        Some(p) => if p.uniq_id == u32::MAX {
            (Err(StoreError::ArithmeticOverflow), data)
        } else {
            let (r, d) = store_effect::<Project>(
                data,
                ProjectModel { uniq_id: (p.uniq_id + 1) as u32, ..p },
            );
            match r {
                Ok(()) => (Ok(p.uniq_id), d),
                Err(e) => (Err(e), d),
            }
        },
        None => (Err(StoreError::DecodeError), data),
    }
}

/// Whether `user` owns the tenant held in a slot.
pub open spec fn owns(user: Seq<u8>, data: Seq<u8>) -> bool {
    match payload_record::<Project>(data) {
        Some(p) => p.owner == user,
        None => false,
    }
}

/// Creates a tenant in `project`, owned by `owner`, whose schemas are
/// listed in `templates`.
///
/// The tenant's header names the tenant itself as owner; the tenant starts
/// issuing ids at zero; `templates` becomes an empty registry of this
/// tenant. Fails, at the first step that fails, as `initialize`, `write`
/// and `assign` do.
pub fn create(project: &mut Slot, templates: &mut Slot, owner: &Key) -> (r: Result<
    (),
    StoreError,
>)
    ensures
        final(project).key == old(project).key,
        final(templates).key == old(templates).key,
        (r, final(project).data@, final(templates).data@) == create_effect(
            old(project).key@,
            old(project).data@,
            old(templates).key@,
            old(templates).data@,
            owner@,
        ),
{
    let project_key = project.key;
    initialize(&project_key, project)?;
    let record = Project {
        name: String::from_str("New project"),
        owner: *owner,
        template_storage: templates.key,
        uniq_id: 0,
    };
    store(project, &record)?;
    assign(&project_key, templates, &project_key)
}

/// Issues the tenant's next id: returns it and stores its successor.
///
/// Fails with `DecodeError` when the slot holds no tenant and with
/// `ArithmeticOverflow` when every id has been issued.
pub fn get_uniq_id(project: &mut Slot) -> (r: Result<u32, StoreError>)
    ensures
        final(project).key == old(project).key,
        (r, final(project).data@) == uniq_id_effect(old(project).data@),
{
    let mut record = load::<Project>(project)?;
    if record.uniq_id == u32::MAX {
        return Err(StoreError::ArithmeticOverflow);
    }
    let id = record.uniq_id;
    record.uniq_id = id + 1;
    store(project, &record)?;
    Ok(id)
}

/// Whether `user` is the owner of the tenant held in `project`; a slot that
/// holds no tenant has no owner.
pub fn check_access(user: &Key, project: &Slot) -> (r: bool)
    ensures
        r == owns(user@, project.data@),
{
    match load::<Project>(project) {
        Ok(record) => record.owner == *user,
        Err(_) => false,
    }
}

/// Reads the tenant held in `project`.
pub fn read(project: &Slot) -> (r: Result<Project, StoreError>)
    ensures
        match r {
            Ok(p) => payload_record::<Project>(project.data@) == Some(p.model()),
            Err(e) => e == StoreError::DecodeError && payload_record::<Project>(project.data@) is None,
        },
{
    load::<Project>(project)
}

/// The results of `n` calls of `get_uniq_id` in a row, and the bytes of the
/// tenant slot after them.
pub open spec fn uniq_ids(data: Seq<u8>, n: nat) -> (Seq<Result<u32, StoreError>>, Seq<u8>)
    decreases n,
{
    if n == 0 {
        (Seq::empty(), data)
    } else {
        let (rs, d) = uniq_ids(data, (n - 1) as nat);
        let (r, d2) = uniq_id_effect(d);
        (rs.push(r), d2)
    }
}

/// `n` calls of `get_uniq_id` in a row issue `k, k + 1, ..., k + n - 1`,
/// where `k` is the tenant's next id (zero for a new tenant), and leave
/// `k + n` as the next id.
pub proof fn uniq_ids_are_sequential(data: Seq<u8>, n: nat)
    requires
        payload_record::<Project>(data) is Some,
        payload_record::<Project>(data).unwrap().uniq_id + n <= u32::MAX,
    ensures
        uniq_ids(data, n).0 == Seq::new(
            n,
            |i: int| Ok::<u32, StoreError>((payload_record::<Project>(data).unwrap().uniq_id + i) as u32),
        ),
        payload_record::<Project>(uniq_ids(data, n).1) == Some(
            ProjectModel {
                uniq_id: (payload_record::<Project>(data).unwrap().uniq_id + n) as u32,
                ..payload_record::<Project>(data).unwrap()
            },
        ),
    decreases n,
{
    let p = payload_record::<Project>(data).unwrap();
    if n > 0 {
        uniq_ids_are_sequential(data, (n - 1) as nat);
        let (rs, d) = uniq_ids(data, (n - 1) as nat);
        let pk = ProjectModel { uniq_id: (p.uniq_id + n - 1) as u32, ..p };
        let next = ProjectModel { uniq_id: (pk.uniq_id + 1) as u32, ..pk };
        assert(Project::enc(next).len() == Project::enc(pk).len()) by {
            lemma_auto_spec_u32_to_from_le_bytes();
        }
        Project::lemma_parse_canonical(d, 33);
        lemma_store_fits::<Project>(d, pk, next);
        lemma_store_load::<Project>(d, next);
        assert(uniq_ids(data, n).0 =~= Seq::new(
            n,
            |i: int| Ok::<u32, StoreError>((p.uniq_id + i) as u32),
        ));
    }
}

} // verus!
