//! Byte values of the four index tables.
//!
//! A stored value is a framing tag followed by the record's canonical
//! bytes: an address as its raw bytes, a token sequence as fixed-width
//! little-endian chunks.  The tag keeps every stored value non-empty,
//! which the backing store demands, and decoding drops it again.  The
//! round-trip lemmas let every read state exactly what was written.

use vstd::prelude::*;
use vstd::bytes::*;
use vstd::slice::*;
use crate::types::{Addr, TokenId};

verus! {

/// Framing tag that opens every stored value.
pub const VALUE_TAG: u8 = 1;

pub open spec fn enc_addr(a: Seq<u8>) -> Seq<u8> {
    seq![VALUE_TAG] + a
}

pub open spec fn dec_addr(b: Seq<u8>) -> Seq<u8> {
    if b.len() >= 1 {
        b.skip(1)
    } else {
        Seq::empty()
    }
}

/// The canonical bytes of a token sequence: one fixed-width
/// little-endian chunk per id, in order.
pub open spec fn flat_ids(s: Seq<TokenId>) -> Seq<u8>
    decreases s.len(),
{
    if s.len() == 0 {
        Seq::empty()
    } else {
        spec_u128_to_le_bytes(s[0].0) + flat_ids(s.skip(1))
    }
}

pub open spec fn enc_ids(s: Seq<TokenId>) -> Seq<u8> {
    seq![VALUE_TAG] + flat_ids(s)
}

/// Reads a byte string as consecutive fixed-width chunks, dropping any
/// trailing fragment.
pub open spec fn chunks_ids(b: Seq<u8>) -> Seq<TokenId>
    decreases b.len(),
{
    if b.len() < 16 {
        Seq::empty()
    } else {
        seq![TokenId(spec_u128_from_le_bytes(b.take(16)))] + chunks_ids(b.skip(16))
    }
}

pub open spec fn dec_ids(b: Seq<u8>) -> Seq<TokenId> {
    if b.len() >= 1 {
        chunks_ids(b.skip(1))
    } else {
        Seq::empty()
    }
}

pub proof fn lemma_addr_round_trip(a: Seq<u8>)
    ensures
        dec_addr(enc_addr(a)) == a,
{
    assert(dec_addr(enc_addr(a)) =~= a);
}

pub proof fn lemma_chunks_flat(s: Seq<TokenId>)
    ensures
        chunks_ids(flat_ids(s)) == s,
    decreases s.len(),
{
    lemma_auto_spec_u128_to_from_le_bytes();
    if s.len() == 0 {
        assert(chunks_ids(flat_ids(s)) =~= s);
    } else {
        let head = spec_u128_to_le_bytes(s[0].0);
        let rest = flat_ids(s.skip(1));
        assert(head.len() == 16);
        assert((head + rest).take(16) =~= head);
        assert((head + rest).skip(16) =~= rest);
        lemma_chunks_flat(s.skip(1));
        assert(chunks_ids(flat_ids(s)) =~= s);
    }
}

pub proof fn lemma_ids_round_trip(s: Seq<TokenId>)
    ensures
        dec_ids(enc_ids(s)) == s,
{
    lemma_chunks_flat(s);
    assert(enc_ids(s).skip(1) =~= flat_ids(s));
}

pub proof fn lemma_flat_ids_push(s: Seq<TokenId>, x: TokenId)
    ensures
        flat_ids(s.push(x)) == flat_ids(s) + spec_u128_to_le_bytes(x.0),
    decreases s.len(),
{
    if s.len() == 0 {
        assert(s.push(x)[0] == x);
        assert(s.push(x).skip(1) =~= Seq::<TokenId>::empty());
        assert(flat_ids(Seq::<TokenId>::empty()) == Seq::<u8>::empty());
        assert(flat_ids(s.push(x)) =~= flat_ids(s) + spec_u128_to_le_bytes(x.0));
    } else {
        lemma_flat_ids_push(s.skip(1), x);
        assert(s.push(x).skip(1) =~= s.skip(1).push(x));
        assert(flat_ids(s.push(x)) =~= flat_ids(s) + spec_u128_to_le_bytes(x.0));
    }
}

pub fn encode_addr(a: &Addr) -> (r: Vec<u8>)
    ensures
        r@ == enc_addr(a@),
{
    crate::keys::prefixed(VALUE_TAG, a.bytes.as_slice())
}

pub fn decode_addr(b: &Vec<u8>) -> (r: Addr)
    ensures
        r@ == dec_addr(b@),
{
    if b.len() < 1 {
        let r = Addr::new(Vec::new());
        proof {
            assert(r@ =~= dec_addr(b@));
        }
        r
    } else {
        let s = slice_subrange(b.as_slice(), 1, b.len());
        let r = Addr::new(slice_to_vec(s));
        proof {
            assert(r@ =~= dec_addr(b@));
        }
        r
    }
}

pub fn encode_ids(ids: &Vec<TokenId>) -> (r: Vec<u8>)
    ensures
        r@ == enc_ids(ids@),
{
    let mut v: Vec<u8> = Vec::new();
    v.push(VALUE_TAG);
    proof {
        assert(v@ =~= seq![VALUE_TAG] + flat_ids(ids@.take(0)));
    }
    let mut i: usize = 0;
    while i < ids.len()
        invariant
            i <= ids.len(),
            v@ == seq![VALUE_TAG] + flat_ids(ids@.take(i as int)),
        decreases ids.len() - i,
    {
        let mut b = u128_to_le_bytes(ids[i].0);
        v.append(&mut b);
        proof {
            assert(ids@.take(i as int + 1) =~= ids@.take(i as int).push(ids@[i as int]));
            lemma_flat_ids_push(ids@.take(i as int), ids@[i as int]);
            assert(v@ =~= seq![VALUE_TAG] + flat_ids(ids@.take(i as int + 1)));
        }
        i = i + 1;
    }
    proof {
        assert(ids@.take(ids@.len() as int) =~= ids@);
    }
    v
}

pub fn decode_ids(b: &Vec<u8>) -> (r: Vec<TokenId>)
    ensures
        r@ == dec_ids(b@),
{
    let mut r: Vec<TokenId> = Vec::new();
    if b.len() < 1 {
        proof {
            assert(r@ =~= dec_ids(b@));
        }
        return r;
    }
    let mut i: usize = 1;
    proof {
        assert(r@ + chunks_ids(b@.skip(1)) =~= dec_ids(b@));
    }
    while b.len() - i >= 16
        invariant
            1 <= i <= b.len(),
            dec_ids(b@) == r@ + chunks_ids(b@.skip(i as int)),
        decreases b.len() - i,
    {
        let chunk = slice_subrange(b.as_slice(), i, i + 16);
        let x = u128_from_le_bytes(chunk);
        r.push(TokenId(x));
        proof {
            assert(b@.skip(i as int).take(16) =~= b@.subrange(i as int, i as int + 16));
            assert(b@.skip(i as int).skip(16) =~= b@.skip(i as int + 16));
            assert(r@ + chunks_ids(b@.skip(i as int + 16)) =~= dec_ids(b@));
        }
        i = i + 16;
    }
    proof {
        assert(chunks_ids(b@.skip(i as int)) =~= Seq::<TokenId>::empty());
        assert(r@ =~= dec_ids(b@));
    }
    r
}

/// Byte-for-byte comparison of two byte strings.
pub fn bytes_eq(a: &[u8], b: &[u8]) -> (r: bool)
    ensures
        r == (a@ == b@),
{
    if a.len() != b.len() {
        return false;
    }
    let mut i: usize = 0;
    while i < a.len()
        invariant
            i <= a.len(),
            a@.len() == b@.len(),
            forall|j: int| 0 <= j < i ==> a@[j] == b@[j],
        decreases a.len() - i,
    {
        if a[i] != b[i] {
            return false;
        }
        i = i + 1;
    }
    proof {
        assert(a@ =~= b@);
    }
    true
}

} // verus!
