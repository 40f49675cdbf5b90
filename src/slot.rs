use vstd::prelude::*;

verus! {

/// Width in bytes of a slot key.
pub const KEY_WIDTH: usize = 32;

/// The opaque fixed-width address of a slot.
#[derive(Clone, Copy, Debug)]
pub struct Key {
    pub bytes: [u8; 32],
}

impl View for Key {
    type V = Seq<u8>;

    open spec fn view(&self) -> Seq<u8> {
        self.bytes@
    }
}

impl Key {
    pub fn new(bytes: [u8; 32]) -> (k: Key)
        ensures
            k@ == bytes@,
    {
        Key { bytes }
    }
}

impl PartialEq for Key {
    fn eq(&self, other: &Key) -> (r: bool)
        ensures
            r == (self@ == other@),
    {
        let mut i: usize = 0;
        while i < KEY_WIDTH
            invariant
                self@.len() == 32,
                other@.len() == 32,
                i <= 32,
                forall|j: int| 0 <= j < i ==> self@[j] == other@[j],
            decreases 32 - i,
        {
            if self.bytes[i] != other.bytes[i] {
                return false;
            }
            i += 1;
        }
        assert(self@ =~= other@);
        true
    }
}

impl vstd::std_specs::cmp::PartialEqSpecImpl for Key {
    open spec fn obeys_eq_spec() -> bool {
        true
    }

    open spec fn eq_spec(&self, other: &Key) -> bool {
        self@ == other@
    }
}

/// A fixed-capacity byte buffer owned by the host, with its address.
///
/// The capacity is the length of `data`; no operation of this library
/// changes it.
#[derive(Debug)]
pub struct Slot {
    pub key: Key,
    pub data: Vec<u8>,
}

impl Slot {
    /// A zero-filled slot of the given capacity.
    pub fn new(key: Key, capacity: usize) -> (s: Slot)
        ensures
            s.key == key,
            s.data@ == Seq::new(capacity as nat, |i: int| 0u8),
    {
        let data = vec![0u8; capacity];
        let s = Slot { key, data };
        assert(s.data@ =~= Seq::new(capacity as nat, |i: int| 0u8));
        s
    }

    pub fn capacity(&self) -> (n: usize)
        ensures
            n == self.data@.len(),
    {
        self.data.len()
    }
}

} // verus!
