//! Byte keys of the four index tables.
//!
//! Every key starts with a namespace tag, so the tables live in
//! disjoint key spaces of one flat byte-keyed store.  Within a
//! namespace the rest of the key is the canonical form of the index's
//! argument — the owner's bytes, or the token id in its fixed-width
//! little-endian form — so distinct arguments give distinct keys.

use vstd::prelude::*;
use vstd::bytes::*;
use crate::types::Addr;

verus! {

/// Namespace tag of the Owner→TokenSet table.
pub const OWNER_TOKENS_TAG: u8 = 0;

/// Namespace tag of the Token→Owner table.
pub const TOKEN_OWNER_TAG: u8 = 1;

/// Namespace tag of the Token→Approval table.
pub const TOKEN_APPROVALS_TAG: u8 = 2;

/// Namespace tag of the minted-sequence singleton.
pub const MINTED_TOKENS_TAG: u8 = 3;

pub open spec fn owner_tokens_key(a: Seq<u8>) -> Seq<u8> {
    seq![OWNER_TOKENS_TAG] + a
}

pub open spec fn token_owner_key(id: u128) -> Seq<u8> {
    seq![TOKEN_OWNER_TAG] + spec_u128_to_le_bytes(id)
}

pub open spec fn token_approvals_key(id: u128) -> Seq<u8> {
    seq![TOKEN_APPROVALS_TAG] + spec_u128_to_le_bytes(id)
}

pub open spec fn minted_tokens_key() -> Seq<u8> {
    seq![MINTED_TOKENS_TAG]
}

/// Distinct owners have distinct keys in the Owner→TokenSet table.
pub proof fn lemma_owner_tokens_key_injective(a: Seq<u8>, b: Seq<u8>)
    requires
        owner_tokens_key(a) == owner_tokens_key(b),
    ensures
        a == b,
{
    assert(a =~= owner_tokens_key(a).skip(1));
    assert(b =~= owner_tokens_key(b).skip(1));
}

/// Distinct token ids have distinct keys in both token-keyed tables,
/// and no two of the four key spaces ever share a key.
pub proof fn lemma_keys_distinct(a: Seq<u8>, i: u128, j: u128)
    ensures
        owner_tokens_key(a) != token_owner_key(i),
        owner_tokens_key(a) != token_approvals_key(i),
        owner_tokens_key(a) != minted_tokens_key(),
        token_owner_key(i) != token_approvals_key(j),
        token_owner_key(i) != minted_tokens_key(),
        token_approvals_key(i) != minted_tokens_key(),
        i != j ==> token_owner_key(i) != token_owner_key(j),
        i != j ==> token_approvals_key(i) != token_approvals_key(j),
{
    lemma_auto_spec_u128_to_from_le_bytes();
    assert(owner_tokens_key(a)[0] == OWNER_TOKENS_TAG);
    assert(token_owner_key(i)[0] == TOKEN_OWNER_TAG);
    assert(token_approvals_key(i)[0] == TOKEN_APPROVALS_TAG);
    assert(token_approvals_key(j)[0] == TOKEN_APPROVALS_TAG);
    assert(minted_tokens_key()[0] == MINTED_TOKENS_TAG);
    if i != j {
        if token_owner_key(i) == token_owner_key(j) {
            assert(spec_u128_to_le_bytes(i) =~= token_owner_key(i).skip(1));
            assert(spec_u128_to_le_bytes(j) =~= token_owner_key(j).skip(1));
            assert(i == spec_u128_from_le_bytes(spec_u128_to_le_bytes(i)));
            assert(false);
        }
        if token_approvals_key(i) == token_approvals_key(j) {
            assert(spec_u128_to_le_bytes(i) =~= token_approvals_key(i).skip(1));
            assert(spec_u128_to_le_bytes(j) =~= token_approvals_key(j).skip(1));
            assert(i == spec_u128_from_le_bytes(spec_u128_to_le_bytes(i)));
            assert(false);
        }
    }
}

/// Builds a tagged byte string: the namespace or framing tag followed
/// by the given bytes.
pub fn prefixed(tag: u8, rest: &[u8]) -> (r: Vec<u8>)
    ensures
        r@ == seq![tag] + rest@,
{
    let mut v: Vec<u8> = Vec::new();
    v.push(tag);
    proof {
        assert(v@ =~= seq![tag] + rest@.take(0));
    }
    let mut i: usize = 0;
    while i < rest.len()
        invariant
            i <= rest.len(),
            v@ == seq![tag] + rest@.take(i as int),
        decreases rest.len() - i,
    {
        v.push(rest[i]);
        proof {
            assert(rest@.take(i as int + 1) =~= rest@.take(i as int).push(rest@[i as int]));
            assert(v@ =~= seq![tag] + rest@.take(i as int + 1));
        }
        i = i + 1;
    }
    proof {
        assert(rest@.take(rest@.len() as int) =~= rest@);
    }
    v
}

pub fn make_owner_tokens_key(a: &Addr) -> (r: Vec<u8>)
    ensures
        r@ == owner_tokens_key(a@),
{
    prefixed(OWNER_TOKENS_TAG, a.bytes.as_slice())
}

pub fn make_token_owner_key(id: u128) -> (r: Vec<u8>)
    ensures
        r@ == token_owner_key(id),
{
    let b = u128_to_le_bytes(id);
    prefixed(TOKEN_OWNER_TAG, b.as_slice())
}

pub fn make_token_approvals_key(id: u128) -> (r: Vec<u8>)
    ensures
        r@ == token_approvals_key(id),
{
    let b = u128_to_le_bytes(id);
    prefixed(TOKEN_APPROVALS_TAG, b.as_slice())
}

pub fn make_minted_tokens_key() -> (r: Vec<u8>)
    ensures
        r@ == minted_tokens_key(),
{
    let mut v: Vec<u8> = Vec::new();
    v.push(MINTED_TOKENS_TAG);
    proof {
        assert(v@ =~= minted_tokens_key());
    }
    v
}

} // verus!
