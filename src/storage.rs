//! Registries: ordered lists of slot keys held in the payload of a slot,
//! with the kind of member they list.
use vstd::prelude::*;

use vstd::bytes::lemma_auto_spec_u32_to_from_le_bytes;

use crate::codec::{enc_items, lemma_split, Record};
use crate::crud::{
    initialize, initialize_effect, lemma_store_load, load, payload_record, store, store_effect,
};
use crate::error::StoreError;
use crate::slot::{Key, Slot};

verus! {

/// A registry: `template` says what its members are (the registry's owner
/// for a registry of schemas, the schema for one of instances), `accounts`
/// lists the members in the order they were added.
#[derive(Debug)]
pub struct AccountStorage {
    pub template: Key,
    pub accounts: Vec<Key>,
}

pub struct StorageModel {
    pub template: Seq<u8>,
    pub accounts: Seq<Seq<u8>>,
}

impl Record for AccountStorage {
    type M = StorageModel;

    open spec fn model(&self) -> StorageModel {
        StorageModel { template: self.template.model(), accounts: self.accounts.model() }
    }

    open spec fn framable(m: StorageModel) -> bool {
        Key::framable(m.template) && Vec::<Key>::framable(m.accounts)
    }

    open spec fn enc(m: StorageModel) -> Seq<u8> {
        Key::enc(m.template) + Vec::<Key>::enc(m.accounts)
    }

    open spec fn parse(b: Seq<u8>, pos: int) -> Option<(StorageModel, int)> {
        match Key::parse(b, pos) {
            Some((template, p1)) => match Vec::<Key>::parse(b, p1) {
                Some((accounts, p2)) => Some((StorageModel { template, accounts }, p2)),
                None => None,
            },
            None => None,
        }
    }

    proof fn lemma_round_trip(m: StorageModel, b: Seq<u8>, pos: int) {
        let e1 = Key::enc(m.template);
        let e2 = Vec::<Key>::enc(m.accounts);
        lemma_split(b, pos, e1, e2);
        Key::lemma_round_trip(m.template, b, pos);
        Vec::<Key>::lemma_round_trip(m.accounts, b, pos + e1.len());
    }

    proof fn lemma_parse_canonical(b: Seq<u8>, pos: int) {
        Key::lemma_parse_canonical(b, pos);
        let (t, p1) = Key::parse(b, pos).unwrap();
        Vec::<Key>::lemma_parse_canonical(b, p1);
        let (a, p2) = Vec::<Key>::parse(b, p1).unwrap();
        assert(b.subrange(pos, p2) =~= b.subrange(pos, p1) + b.subrange(p1, p2));
    }

    fn is_framable(&self) -> (r: bool) {
        self.template.is_framable() && self.accounts.is_framable()
    }

    fn encode_into(&self, out: &mut Vec<u8>) {
        self.template.encode_into(out);
        self.accounts.encode_into(out);
        assert(out@ =~= old(out)@ + Self::enc(self.model()));
    }

    fn decode_at(b: &[u8], pos: usize) -> (r: Option<(AccountStorage, usize)>) {
        let (template, p1) = match Key::decode_at(b, pos) {
            Some(x) => x,
            None => return None,
        };
        let (accounts, p2) = match Vec::<Key>::decode_at(b, p1) {
            Some(x) => x,
            None => return None,
        };
        Some((AccountStorage { template, accounts }, p2))
    }
}

/// `s` without the first item equal to `x`; `s` itself when none is.
pub open spec fn remove_first(s: Seq<Seq<u8>>, x: Seq<u8>) -> Seq<Seq<u8>>
    decreases s.len(),
{
    if s.len() == 0 {
        s
    } else if s[0] == x {
        s.drop_first()
    } else {
        seq![s[0]] + remove_first(s.drop_first(), x)
    }
}

/// The outcome of `assign` on the registry slot.
pub open spec fn assign_effect(owner: Seq<u8>, data: Seq<u8>, subject: Seq<u8>) -> (
    Result<(), StoreError>,
    Seq<u8>,
) {
    let (r, d) = initialize_effect(data, owner);
    if r is Err {
        (r, d)
    } else {
        store_effect::<AccountStorage>(
            d,
            StorageModel { template: subject, accounts: Seq::empty() },
        )
    }
}

/// The outcome of `add` on the registry slot.
pub open spec fn add_effect(data: Seq<u8>, member: Seq<u8>) -> (Result<(), StoreError>, Seq<u8>) {
    match payload_record::<AccountStorage>(data) {
        Some(st) => store_effect::<AccountStorage>(
            data,
            StorageModel { accounts: st.accounts.push(member), ..st },
        ),
        None => (Err(StoreError::DecodeError), data),
    }
}

/// The outcome of `remove` on the registry slot.
pub open spec fn remove_effect(data: Seq<u8>, member: Seq<u8>) -> (
    Result<(), StoreError>,
    Seq<u8>,
) {
    match payload_record::<AccountStorage>(data) {
        Some(st) => store_effect::<AccountStorage>(
            data,
            StorageModel { accounts: remove_first(st.accounts, member), ..st },
        ),
        None => (Err(StoreError::DecodeError), data),
    }
}

/// Stamps the registry slot's header for `owner` and stores an empty
/// registry of `subject`.
///
/// Fails as `initialize` does when the slot is already initialized or too
/// small for a header, and with `BufferTooSmall` when the empty registry
/// does not fit.
pub fn assign(owner: &Key, storage: &mut Slot, subject: &Key) -> (r: Result<(), StoreError>)
    ensures
        final(storage).key == old(storage).key,
        (r, final(storage).data@) == assign_effect(owner@, old(storage).data@, subject@),
{
    initialize(owner, storage)?;
    let st = AccountStorage { template: *subject, accounts: Vec::new() };
    assert(st.accounts.model() =~= Seq::<Seq<u8>>::empty());
    store(storage, &st)
}

/// Appends `member` to the registry held in `storage`.
///
/// Fails with `DecodeError` when the payload holds no registry and with
/// `BufferTooSmall` when the longer registry does not fit; the slot is then
/// unchanged.
pub fn add(storage: &mut Slot, member: &Key) -> (r: Result<(), StoreError>)
    ensures
        final(storage).key == old(storage).key,
        (r, final(storage).data@) == add_effect(old(storage).data@, member@),
{
    let mut st = load::<AccountStorage>(storage)?;
    let ghost before = st.accounts.model();
    st.accounts.push(*member);
    assert(st.accounts.model() =~= before.push(member@));
    store(storage, &st)
}

/// Removes the first occurrence of `member` from the registry held in
/// `storage`; a registry without it is written back unchanged.
///
/// Fails with `DecodeError` when the payload holds no registry.
pub fn remove(storage: &mut Slot, member: &Key) -> (r: Result<(), StoreError>)
    ensures
        final(storage).key == old(storage).key,
        (r, final(storage).data@) == remove_effect(old(storage).data@, member@),
{
    let mut st = load::<AccountStorage>(storage)?;
    let ghost before = st.accounts.model();
    let ghost m0 = st.model();
    let mut i: usize = 0;
    while i < st.accounts.len()
        invariant
            i <= st.accounts@.len(),
            before == st.accounts.model(),
            m0 == st.model(),
            *storage == *old(storage),
            payload_record::<AccountStorage>(storage.data@) == Some(m0),
            forall|j: int| 0 <= j < i ==> before[j] != member@,
        decreases st.accounts@.len() - i,
    {
        if st.accounts[i] == *member {
            proof {
                lemma_remove_first_at(before, member@, i as int);
            }
            st.accounts.remove(i);
            assert(st.accounts.model() =~= before.remove(i as int));
            return store(storage, &st);
        }
        i += 1;
    }
    proof {
        lemma_remove_first_absent(before, member@);
    }
    store(storage, &st)
}

/// Reads the registry held in `storage`.
pub fn read(storage: &Slot) -> (r: Result<AccountStorage, StoreError>)
    ensures
        match r {
            Ok(st) => payload_record::<AccountStorage>(storage.data@) == Some(st.model()),
            Err(e) => e == StoreError::DecodeError && payload_record::<AccountStorage>(
                storage.data@,
            ) is None,
        },
{
    load::<AccountStorage>(storage)
}

proof fn lemma_remove_first_at(s: Seq<Seq<u8>>, x: Seq<u8>, i: int)
    requires
        0 <= i < s.len(),
        s[i] == x,
        forall|j: int| 0 <= j < i ==> s[j] != x,
    ensures
        remove_first(s, x) == s.remove(i),
    decreases s.len(),
{
    if i > 0 {
        let t = s.drop_first();
        assert forall|j: int| 0 <= j < i - 1 implies t[j] != x by {
            assert(t[j] == s[j + 1]);
        }
        lemma_remove_first_at(t, x, i - 1);
        assert(s[0] != x);
        assert(seq![s[0]] + t.remove(i - 1) =~= s.remove(i));
    } else {
        assert(s.drop_first() =~= s.remove(0));
    }
}

proof fn lemma_remove_first_absent(s: Seq<Seq<u8>>, x: Seq<u8>)
    requires
        forall|j: int| 0 <= j < s.len() ==> s[j] != x,
    ensures
        remove_first(s, x) == s,
    decreases s.len(),
{
    if s.len() > 0 {
        let t = s.drop_first();
        assert forall|j: int| 0 <= j < t.len() implies t[j] != x by {
            assert(t[j] == s[j + 1]);
        }
        lemma_remove_first_absent(t, x);
        assert(s[0] != x);
        assert(seq![s[0]] + t =~= s);
    }
}

proof fn lemma_remove_first_pushed(s: Seq<Seq<u8>>, x: Seq<u8>)
    requires
        !s.contains(x),
    ensures
        remove_first(s.push(x), x) == s,
{
    let t = s.push(x);
    assert forall|j: int| 0 <= j < s.len() implies t[j] != x by {
        assert(t[j] == s[j]);
        if t[j] == x {
            assert(s.contains(x));
        }
    }
    lemma_remove_first_at(t, x, s.len() as int);
    assert(t.remove(s.len() as int) =~= s);
}

/// Adding a key that the registry does not list and then removing it
/// leaves the registry as it was, members and their order included.
pub proof fn add_then_remove_restores(data: Seq<u8>, member: Seq<u8>)
    requires
        member.len() == 32,
        payload_record::<AccountStorage>(data) matches Some(st) && !st.accounts.contains(member),
        add_effect(data, member).0 is Ok,
    ensures
        remove_effect(add_effect(data, member).1, member).0 is Ok,
        payload_record::<AccountStorage>(remove_effect(add_effect(data, member).1, member).1)
            == payload_record::<AccountStorage>(data),
{
    let st = payload_record::<AccountStorage>(data).unwrap();
    let grown = StorageModel { accounts: st.accounts.push(member), ..st };
    lemma_store_load::<AccountStorage>(data, grown);
    let d1 = add_effect(data, member).1;
    lemma_remove_first_pushed(st.accounts, member);
    let back = StorageModel { accounts: remove_first(grown.accounts, member), ..grown };
    assert(back == st);
    assert forall|i: int| 0 <= i < st.accounts.len() implies Key::framable(
        #[trigger] st.accounts[i],
    ) by {
        assert(grown.accounts[i] == st.accounts[i]);
    }
    assert(AccountStorage::framable(st));
    assert(AccountStorage::enc(st).len() < AccountStorage::enc(grown).len()) by {
        lemma_auto_spec_u32_to_from_le_bytes();
        assert(grown.accounts.drop_last() =~= st.accounts);
        assert(enc_items::<Key>(grown.accounts) == enc_items::<Key>(st.accounts) + member);
    }
    lemma_store_load::<AccountStorage>(d1, st);
}

} // verus!
