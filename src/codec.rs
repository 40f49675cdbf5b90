//! The byte layout of records: little-endian integers, 32-byte keys,
//! length-prefixed UTF-8 text and length-prefixed lists, with each record
//! laid out as its fields in order.
use vstd::bytes::{
    lemma_auto_spec_u32_to_from_le_bytes, lemma_auto_spec_u64_to_from_le_bytes,
    spec_u32_from_le_bytes, spec_u32_to_le_bytes, spec_u64_from_le_bytes, spec_u64_to_le_bytes,
    u32_from_le_bytes, u32_to_le_bytes, u64_from_le_bytes, u64_to_le_bytes,
};
use vstd::prelude::*;
use vstd::slice::slice_subrange;
use vstd::utf8::{
    decode_utf8, decode_utf8_encode_utf8, encode_utf8, encode_utf8_decode_utf8,
    encode_utf8_valid_utf8, valid_utf8,
};

use crate::slot::Key;

verus! {

/// A value with a byte encoding.
///
/// `enc` lays a model out as bytes and `parse` reads one back from a
/// position of a byte sequence, giving the position after it. `framable`
/// holds of the models that the layout can carry (each length prefix is 32
/// bits).
pub trait Record: Sized {
    type M;

    spec fn model(&self) -> Self::M;

    spec fn framable(m: Self::M) -> bool;

    spec fn enc(m: Self::M) -> Seq<u8>;

    spec fn parse(b: Seq<u8>, pos: int) -> Option<(Self::M, int)>;

    /// Reading the encoding of a model back gives the model, whatever
    /// bytes surround it.
    proof fn lemma_round_trip(m: Self::M, b: Seq<u8>, pos: int)
        requires
            Self::framable(m),
            0 <= pos,
            pos + Self::enc(m).len() <= b.len(),
            b.subrange(pos, pos + Self::enc(m).len()) == Self::enc(m),
        ensures
            Self::parse(b, pos) == Some((m, pos + Self::enc(m).len())),
    ;

    /// Whatever is read is carried by the layout, and the bytes read are
    /// exactly its encoding.
    proof fn lemma_parse_canonical(b: Seq<u8>, pos: int)
        requires
            0 <= pos,
            Self::parse(b, pos) is Some,
        ensures
            ({
                let (m, q) = Self::parse(b, pos).unwrap();
                &&& Self::framable(m)
                &&& q == pos + Self::enc(m).len()
                &&& q <= b.len()
                &&& b.subrange(pos, q) == Self::enc(m)
            }),
    ;

    fn is_framable(&self) -> (r: bool)
        ensures
            r == Self::framable(self.model()),
    ;

    fn encode_into(&self, out: &mut Vec<u8>)
        requires
            Self::framable(self.model()),
        ensures
            final(out)@ == old(out)@ + Self::enc(self.model()),
    ;

    fn decode_at(b: &[u8], pos: usize) -> (r: Option<(Self, usize)>)
        requires
            pos <= b@.len(),
        ensures
            match r {
                Some((v, q)) => {
                    &&& Self::parse(b@, pos as int) == Some((v.model(), q as int))
                    &&& pos <= q <= b@.len()
                },
                None => Self::parse(b@, pos as int) is None,
            },
    ;
}

/// The model of a record decoded from `b`, if it starts at `pos`.
pub open spec fn record_at<T: Record>(b: Seq<u8>, pos: int) -> Option<T::M> {
    match T::parse(b, pos) {
        Some((m, _)) => Some(m),
        None => None,
    }
}

/// Encodes a record into a fresh byte vector.
pub fn to_bytes<T: Record>(v: &T) -> (out: Vec<u8>)
    requires
        T::framable(v.model()),
    ensures
        out@ == T::enc(v.model()),
{
    let mut out: Vec<u8> = Vec::new();
    v.encode_into(&mut out);
    assert(out@ =~= T::enc(v.model()));
    out
}

/// Splits a byte sequence that holds `x + y` at `pos` into its two parts.
pub proof fn lemma_split(b: Seq<u8>, pos: int, x: Seq<u8>, y: Seq<u8>)
    requires
        0 <= pos,
        pos + x.len() + y.len() <= b.len(),
        b.subrange(pos, pos + x.len() + y.len()) == x + y,
    ensures
        b.subrange(pos, pos + x.len()) == x,
        b.subrange(pos + x.len(), pos + x.len() + y.len()) == y,
{
    assert(b.subrange(pos, pos + x.len()) =~= (x + y).subrange(0, x.len() as int));
    assert(b.subrange(pos + x.len(), pos + x.len() + y.len()) =~= (x + y).subrange(
        x.len() as int,
        (x.len() + y.len()) as int,
    ));
}

impl Record for u8 {
    type M = u8;

    open spec fn model(&self) -> u8 {
        *self
    }

    open spec fn framable(m: u8) -> bool {
        true
    }

    open spec fn enc(m: u8) -> Seq<u8> {
        seq![m]
    }

    open spec fn parse(b: Seq<u8>, pos: int) -> Option<(u8, int)> {
        if 0 <= pos && pos + 1 <= b.len() {
            Some((b[pos], pos + 1))
        } else {
            None
        }
    }

    proof fn lemma_round_trip(m: u8, b: Seq<u8>, pos: int) {
        assert(b[pos] == b.subrange(pos, pos + 1)[0]);
    }

    proof fn lemma_parse_canonical(b: Seq<u8>, pos: int) {
        assert(b.subrange(pos, pos + 1) =~= seq![b[pos]]);
    }

    fn is_framable(&self) -> (r: bool) {
        true
    }

    fn encode_into(&self, out: &mut Vec<u8>) {
        out.push(*self);
    }

    fn decode_at(b: &[u8], pos: usize) -> (r: Option<(u8, usize)>) {
        if pos < b.len() {
            Some((b[pos], pos + 1))
        } else {
            None
        }
    }
}

impl Record for bool {
    type M = bool;

    open spec fn model(&self) -> bool {
        *self
    }

    open spec fn framable(m: bool) -> bool {
        true
    }

    open spec fn enc(m: bool) -> Seq<u8> {
        if m {
            seq![1u8]
        } else {
            seq![0u8]
        }
    }

    open spec fn parse(b: Seq<u8>, pos: int) -> Option<(bool, int)> {
        if 0 <= pos && pos + 1 <= b.len() && b[pos] <= 1 {
            Some((b[pos] == 1, pos + 1))
        } else {
            None
        }
    }

    proof fn lemma_round_trip(m: bool, b: Seq<u8>, pos: int) {
        assert(b[pos] == b.subrange(pos, pos + 1)[0]);
    }

    proof fn lemma_parse_canonical(b: Seq<u8>, pos: int) {
        if b[pos] == 1 {
            assert(b.subrange(pos, pos + 1) =~= seq![1u8]);
        } else {
            assert(b.subrange(pos, pos + 1) =~= seq![0u8]);
        }
    }

    fn is_framable(&self) -> (r: bool) {
        true
    }

    fn encode_into(&self, out: &mut Vec<u8>) {
        if *self {
            out.push(1u8);
        } else {
            out.push(0u8);
        }
    }

    fn decode_at(b: &[u8], pos: usize) -> (r: Option<(bool, usize)>) {
        if pos < b.len() && b[pos] <= 1 {
            Some((b[pos] == 1, pos + 1))
        } else {
            None
        }
    }
}

impl Record for u32 {
    type M = u32;

    open spec fn model(&self) -> u32 {
        *self
    }

    open spec fn framable(m: u32) -> bool {
        true
    }

    open spec fn enc(m: u32) -> Seq<u8> {
        spec_u32_to_le_bytes(m)
    }

    open spec fn parse(b: Seq<u8>, pos: int) -> Option<(u32, int)> {
        if 0 <= pos && pos + 4 <= b.len() {
            Some((spec_u32_from_le_bytes(b.subrange(pos, pos + 4)), pos + 4))
        } else {
            None
        }
    }

    proof fn lemma_round_trip(m: u32, b: Seq<u8>, pos: int) {
        lemma_auto_spec_u32_to_from_le_bytes();
    }

    proof fn lemma_parse_canonical(b: Seq<u8>, pos: int) {
        lemma_auto_spec_u32_to_from_le_bytes();
    }

    fn is_framable(&self) -> (r: bool) {
        true
    }

    fn encode_into(&self, out: &mut Vec<u8>) {
        let mut bytes = u32_to_le_bytes(*self);
        out.append(&mut bytes);
    }

    fn decode_at(b: &[u8], pos: usize) -> (r: Option<(u32, usize)>) {
        if b.len() - pos >= 4 {
            let s = slice_subrange(b, pos, pos + 4);
            Some((u32_from_le_bytes(s), pos + 4))
        } else {
            None
        }
    }
}

impl Record for u64 {
    type M = u64;

    open spec fn model(&self) -> u64 {
        *self
    }

    open spec fn framable(m: u64) -> bool {
        true
    }

    open spec fn enc(m: u64) -> Seq<u8> {
        spec_u64_to_le_bytes(m)
    }

    open spec fn parse(b: Seq<u8>, pos: int) -> Option<(u64, int)> {
        if 0 <= pos && pos + 8 <= b.len() {
            Some((spec_u64_from_le_bytes(b.subrange(pos, pos + 8)), pos + 8))
        } else {
            None
        }
    }

    proof fn lemma_round_trip(m: u64, b: Seq<u8>, pos: int) {
        lemma_auto_spec_u64_to_from_le_bytes();
    }

    proof fn lemma_parse_canonical(b: Seq<u8>, pos: int) {
        lemma_auto_spec_u64_to_from_le_bytes();
    }

    fn is_framable(&self) -> (r: bool) {
        true
    }

    fn encode_into(&self, out: &mut Vec<u8>) {
        let mut bytes = u64_to_le_bytes(*self);
        out.append(&mut bytes);
    }

    fn decode_at(b: &[u8], pos: usize) -> (r: Option<(u64, usize)>) {
        if b.len() - pos >= 8 {
            let s = slice_subrange(b, pos, pos + 8);
            Some((u64_from_le_bytes(s), pos + 8))
        } else {
            None
        }
    }
}

/// A `usize` is laid out as a 64-bit integer.
impl Record for usize {
    type M = usize;

    open spec fn model(&self) -> usize {
        *self
    }

    open spec fn framable(m: usize) -> bool {
        true
    }

    open spec fn enc(m: usize) -> Seq<u8> {
        spec_u64_to_le_bytes(m as u64)
    }

    open spec fn parse(b: Seq<u8>, pos: int) -> Option<(usize, int)> {
        match u64::parse(b, pos) {
            Some((v, q)) => if v <= usize::MAX {
                Some((v as usize, q))
            } else {
                None
            },
            None => None,
        }
    }

    proof fn lemma_round_trip(m: usize, b: Seq<u8>, pos: int) {
        lemma_auto_spec_u64_to_from_le_bytes();
    }

    proof fn lemma_parse_canonical(b: Seq<u8>, pos: int) {
        lemma_auto_spec_u64_to_from_le_bytes();
    }

    fn is_framable(&self) -> (r: bool) {
        true
    }

    fn encode_into(&self, out: &mut Vec<u8>) {
        let mut bytes = u64_to_le_bytes(*self as u64);
        out.append(&mut bytes);
    }

    fn decode_at(b: &[u8], pos: usize) -> (r: Option<(usize, usize)>) {
        match u64::decode_at(b, pos) {
            Some((v, q)) => if v <= usize::MAX as u64 {
                Some((v as usize, q))
            } else {
                None
            },
            None => None,
        }
    }
}

impl Record for Key {
    type M = Seq<u8>;

    open spec fn model(&self) -> Seq<u8> {
        self@
    }

    open spec fn framable(m: Seq<u8>) -> bool {
        m.len() == 32
    }

    open spec fn enc(m: Seq<u8>) -> Seq<u8> {
        m
    }

    open spec fn parse(b: Seq<u8>, pos: int) -> Option<(Seq<u8>, int)> {
        if 0 <= pos && pos + 32 <= b.len() {
            Some((b.subrange(pos, pos + 32), pos + 32))
        } else {
            None
        }
    }

    proof fn lemma_round_trip(m: Seq<u8>, b: Seq<u8>, pos: int) {
    }

    proof fn lemma_parse_canonical(b: Seq<u8>, pos: int) {
    }

    fn is_framable(&self) -> (r: bool) {
        true
    }

    fn encode_into(&self, out: &mut Vec<u8>) {
        let mut i: usize = 0;
        while i < 32
            invariant
                i <= 32,
                self@.len() == 32,
                out@ == old(out)@ + self@.subrange(0, i as int),
            decreases 32 - i,
        {
            out.push(self.bytes[i]);
            i += 1;
            assert(out@ =~= old(out)@ + self@.subrange(0, i as int));
        }
        assert(self@.subrange(0, 32) =~= self@);
    }

    fn decode_at(b: &[u8], pos: usize) -> (r: Option<(Key, usize)>) {
        if b.len() - pos < 32 {
            return None;
        }
        let mut bytes = [0u8; 32];
        let mut i: usize = 0;
        while i < 32
            invariant
                i <= 32,
                pos + 32 <= b@.len(),
                bytes@.len() == 32,
                forall|j: int| 0 <= j < i ==> bytes@[j] == b@[pos + j],
            decreases 32 - i,
        {
            bytes[i] = b[pos + i];
            i += 1;
        }
        let k = Key { bytes };
        assert(k@ =~= b@.subrange(pos as int, pos + 32));
        Some((k, pos + 32))
    }
}

/// Relies on borsh's `BorshSerialize` for `String`: the byte length as a
/// little-endian `u32`, then the UTF-8 bytes; it fails only when the length
/// does not fit in a `u32`.
#[verifier::external_body]
fn borsh_text_bytes(s: &String) -> (r: Option<Vec<u8>>)
    ensures
        r is Some <==> encode_utf8(s@).len() <= u32::MAX,
        r matches Some(v) ==> v@ == spec_u32_to_le_bytes(encode_utf8(s@).len() as u32)
            + encode_utf8(s@),
{
    borsh::to_vec(s).ok()
}

/// Relies on borsh's `BorshDeserialize` for `String` on a byte slice: a
/// little-endian `u32` length, then that many bytes, which must be UTF-8;
/// on success it also gives how many bytes of the slice were not read.
#[verifier::external_body]
fn borsh_read_text(buf: &[u8]) -> (r: Option<(String, usize)>)
    ensures
        r is Some <==> {
            &&& buf@.len() >= 4
            &&& 4 + spec_u32_from_le_bytes(buf@.subrange(0, 4)) <= buf@.len()
            &&& valid_utf8(buf@.subrange(4, 4 + spec_u32_from_le_bytes(buf@.subrange(0, 4))))
        },
        r matches Some((s, rest)) ==> {
            let n = spec_u32_from_le_bytes(buf@.subrange(0, 4));
            &&& encode_utf8(s@) == buf@.subrange(4, 4 + n)
            &&& rest == buf@.len() - 4 - n
        },
{
    let mut rest: &[u8] = buf;
    match <String as borsh::BorshDeserialize>::deserialize(&mut rest) {
        Ok(s) => Some((s, rest.len())),
        Err(_) => None,
    }
}

impl Record for String {
    type M = Seq<char>;

    open spec fn model(&self) -> Seq<char> {
        self@
    }

    open spec fn framable(m: Seq<char>) -> bool {
        encode_utf8(m).len() <= u32::MAX
    }

    open spec fn enc(m: Seq<char>) -> Seq<u8> {
        spec_u32_to_le_bytes(encode_utf8(m).len() as u32) + encode_utf8(m)
    }

    open spec fn parse(b: Seq<u8>, pos: int) -> Option<(Seq<char>, int)> {
        match u32::parse(b, pos) {
            Some((n, p)) => if p + n <= b.len() && valid_utf8(b.subrange(p, p + n)) {
                Some((decode_utf8(b.subrange(p, p + n)), p + n))
            } else {
                None
            },
            None => None,
        }
    }

    proof fn lemma_round_trip(m: Seq<char>, b: Seq<u8>, pos: int) {
        lemma_auto_spec_u32_to_from_le_bytes();
        let t = encode_utf8(m);
        let n = t.len() as u32;
        lemma_split(b, pos, spec_u32_to_le_bytes(n), t);
        encode_utf8_valid_utf8(m);
        encode_utf8_decode_utf8(m);
    }

    proof fn lemma_parse_canonical(b: Seq<u8>, pos: int) {
        lemma_auto_spec_u32_to_from_le_bytes();
        let (n, p) = u32::parse(b, pos).unwrap();
        let t = b.subrange(p, p + n);
        decode_utf8_encode_utf8(t);
        assert(b.subrange(pos, p + n) =~= b.subrange(pos, p) + t);
    }

    fn is_framable(&self) -> (r: bool) {
        self.as_str().as_bytes().len() <= u32::MAX as usize
    }

    fn encode_into(&self, out: &mut Vec<u8>) {
        match borsh_text_bytes(self) {
            Some(v) => {
                let mut v = v;
                out.append(&mut v);
            },
            None => {},
        }
    }

    fn decode_at(b: &[u8], pos: usize) -> (r: Option<(String, usize)>) {
        let tail = slice_subrange(b, pos, b.len());
        let ghost bs = b@;
        match borsh_read_text(tail) {
            Some((s, rest)) => {
                proof {
                    lemma_auto_spec_u32_to_from_le_bytes();
                    let n = spec_u32_from_le_bytes(tail@.subrange(0, 4));
                    assert(tail@.subrange(0, 4) =~= bs.subrange(pos as int, pos + 4));
                    assert(tail@.subrange(4, 4 + n) =~= bs.subrange(pos + 4, pos + 4 + n));
                    decode_utf8_encode_utf8(bs.subrange(pos + 4, pos + 4 + n));
                    encode_utf8_valid_utf8(s@);
                    encode_utf8_decode_utf8(s@);
                }
                Some((s, b.len() - rest))
            },
            None => {
                proof {
                    if tail@.len() >= 4 {
                        let n = spec_u32_from_le_bytes(tail@.subrange(0, 4));
                        assert(tail@.subrange(0, 4) =~= bs.subrange(pos as int, pos + 4));
                        if 4 + n <= tail@.len() {
                            assert(tail@.subrange(4, 4 + n) =~= bs.subrange(pos + 4, pos + 4 + n));
                        }
                    }
                }
                None
            },
        }
    }
}

/// The items of a list laid out one after another.
pub open spec fn enc_items<T: Record>(s: Seq<T::M>) -> Seq<u8>
    decreases s.len(),
{
    if s.len() == 0 {
        Seq::empty()
    } else {
        enc_items::<T>(s.drop_last()) + T::enc(s.last())
    }
}

/// Reads `n` items one after another from `pos`.
pub open spec fn parse_items<T: Record>(b: Seq<u8>, pos: int, n: nat) -> Option<(Seq<T::M>, int)>
    decreases n,
{
    if n == 0 {
        Some((Seq::empty(), pos))
    } else {
        match parse_items::<T>(b, pos, (n - 1) as nat) {
            Some((xs, p)) => match T::parse(b, p) {
                Some((x, q)) => Some((xs.push(x), q)),
                None => None,
            },
            None => None,
        }
    }
}

pub proof fn lemma_items_round_trip<T: Record>(s: Seq<T::M>, b: Seq<u8>, pos: int)
    requires
        forall|i: int| 0 <= i < s.len() ==> T::framable(#[trigger] s[i]),
        0 <= pos,
        pos + enc_items::<T>(s).len() <= b.len(),
        b.subrange(pos, pos + enc_items::<T>(s).len()) == enc_items::<T>(s),
    ensures
        parse_items::<T>(b, pos, s.len()) == Some((s, pos + enc_items::<T>(s).len())),
    decreases s.len(),
{
    if s.len() > 0 {
        let init = s.drop_last();
        let e0 = enc_items::<T>(init);
        let e1 = T::enc(s.last());
        lemma_split(b, pos, e0, e1);
        assert forall|i: int| 0 <= i < init.len() implies T::framable(#[trigger] init[i]) by {
            assert(init[i] == s[i]);
        }
        lemma_items_round_trip::<T>(init, b, pos);
        assert(T::framable(s[s.len() - 1]));
        T::lemma_round_trip(s.last(), b, pos + e0.len());
        assert(init.push(s.last()) =~= s);
    }
}

/// Items that were read are carried by the layout, and the bytes read are
/// exactly their encodings.
pub proof fn lemma_items_canonical<T: Record>(b: Seq<u8>, pos: int, n: nat)
    requires
        0 <= pos <= b.len(),
        parse_items::<T>(b, pos, n) is Some,
    ensures
        ({
            let (xs, q) = parse_items::<T>(b, pos, n).unwrap();
            &&& xs.len() == n
            &&& forall|i: int| 0 <= i < xs.len() ==> T::framable(#[trigger] xs[i])
            &&& q == pos + enc_items::<T>(xs).len()
            &&& q <= b.len()
            &&& b.subrange(pos, q) == enc_items::<T>(xs)
        }),
    decreases n,
{
    if n > 0 {
        lemma_items_canonical::<T>(b, pos, (n - 1) as nat);
        let (xs, p) = parse_items::<T>(b, pos, (n - 1) as nat).unwrap();
        T::lemma_parse_canonical(b, p);
        let (x, q) = T::parse(b, p).unwrap();
        let ys = xs.push(x);
        assert(ys.drop_last() =~= xs);
        assert forall|i: int| 0 <= i < ys.len() implies T::framable(#[trigger] ys[i]) by {
            if i < xs.len() {
                assert(ys[i] == xs[i]);
            }
        }
        assert(b.subrange(pos, q) =~= b.subrange(pos, p) + b.subrange(p, q));
    }
}

/// Once reading `k` items fails, reading more fails too.
pub proof fn lemma_items_fail_onward<T: Record>(b: Seq<u8>, pos: int, k: nat, n: nat)
    requires
        k <= n,
        parse_items::<T>(b, pos, k) is None,
    ensures
        parse_items::<T>(b, pos, n) is None,
    decreases n - k,
{
    if k < n {
        lemma_items_fail_onward::<T>(b, pos, k, (n - 1) as nat);
    }
}

/// A list: its length as a little-endian `u32`, then its items.
impl<T: Record> Record for Vec<T> {
    type M = Seq<T::M>;

    open spec fn model(&self) -> Seq<T::M> {
        self@.map_values(|x: T| x.model())
    }

    open spec fn framable(m: Seq<T::M>) -> bool {
        &&& m.len() <= u32::MAX
        &&& forall|i: int| 0 <= i < m.len() ==> T::framable(#[trigger] m[i])
    }

    open spec fn enc(m: Seq<T::M>) -> Seq<u8> {
        spec_u32_to_le_bytes(m.len() as u32) + enc_items::<T>(m)
    }

    open spec fn parse(b: Seq<u8>, pos: int) -> Option<(Seq<T::M>, int)> {
        match u32::parse(b, pos) {
            Some((n, p)) => parse_items::<T>(b, p, n as nat),
            None => None,
        }
    }

    proof fn lemma_round_trip(m: Seq<T::M>, b: Seq<u8>, pos: int) {
        lemma_auto_spec_u32_to_from_le_bytes();
        lemma_split(b, pos, spec_u32_to_le_bytes(m.len() as u32), enc_items::<T>(m));
        lemma_items_round_trip::<T>(m, b, pos + 4);
    }

    proof fn lemma_parse_canonical(b: Seq<u8>, pos: int) {
        lemma_auto_spec_u32_to_from_le_bytes();
        let (n, p) = u32::parse(b, pos).unwrap();
        lemma_items_canonical::<T>(b, p, n as nat);
        let (xs, q) = parse_items::<T>(b, p, n as nat).unwrap();
        assert(b.subrange(pos, q) =~= b.subrange(pos, p) + b.subrange(p, q));
    }

    fn is_framable(&self) -> (r: bool) {
        if self.len() > u32::MAX as usize {
            return false;
        }
        let mut i: usize = 0;
        while i < self.len()
            invariant
                i <= self@.len(),
                forall|j: int| 0 <= j < i ==> T::framable(#[trigger] self.model()[j]),
            decreases self@.len() - i,
        {
            if !self[i].is_framable() {
                assert(self.model()[i as int] == self@[i as int].model());
                return false;
            }
            i += 1;
        }
        true
    }

    fn encode_into(&self, out: &mut Vec<u8>) {
        let ghost m = self.model();
        let mut head = u32_to_le_bytes(self.len() as u32);
        out.append(&mut head);
        let mut i: usize = 0;
        while i < self.len()
            invariant
                i <= self@.len(),
                m == self.model(),
                Self::framable(m),
                out@ == old(out)@ + spec_u32_to_le_bytes(m.len() as u32) + enc_items::<T>(
                    m.subrange(0, i as int),
                ),
            decreases self@.len() - i,
        {
            assert(m[i as int] == self@[i as int].model());
            self[i].encode_into(out);
            proof {
                assert(m.subrange(0, i + 1).drop_last() =~= m.subrange(0, i as int));
                assert(m.subrange(0, i + 1).last() == m[i as int]);
            }
            i += 1;
        }
        assert(m.subrange(0, m.len() as int) =~= m);
    }

    fn decode_at(b: &[u8], pos: usize) -> (r: Option<(Vec<T>, usize)>) {
        let (n, p) = match u32::decode_at(b, pos) {
            Some(x) => x,
            None => return None,
        };
        let mut items: Vec<T> = Vec::new();
        let mut q: usize = p;
        let mut i: u32 = 0;
        while i < n
            invariant
                i <= n,
                p <= q <= b@.len(),
                u32::parse(b@, pos as int) == Some((n, p as int)),
                parse_items::<T>(b@, p as int, i as nat) == Some((items.model(), q as int)),
            decreases n - i,
        {
            match T::decode_at(b, q) {
                Some((x, q2)) => {
                    let ghost before = items.model();
                    items.push(x);
                    proof {
                        assert(items.model() =~= before.push(x.model()));
                    }
                    q = q2;
                },
                None => {
                    proof {
                        let k = (i + 1) as nat;
                        assert((k - 1) as nat == i as nat);
                        assert(T::parse(b@, q as int) is None);
                        assert(parse_items::<T>(b@, p as int, k) is None);
                        lemma_items_fail_onward::<T>(b@, p as int, k, n as nat);
                        assert(u32::parse(b@, pos as int) == Some((n, p as int)));
                        assert(Self::parse(b@, pos as int) is None);
                    }
                    return None;
                },
            }
            proof {
                let k = (i + 1) as nat;
                assert((k - 1) as nat == i as nat);
            }
            i += 1;
        }
        Some((items, q))
    }
}

} // verus!
