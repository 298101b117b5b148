//! The mathematical model of the registry.
//!
//! The store contents — one map from byte keys to byte values — are
//! read back through four views: the minted sequence, each owner's
//! token sequence, each token's recorded owner, and each token's
//! recorded approval.  The registry invariant ties the views together:
//! ids are assigned sequentially, every minted id has exactly one
//! recorded owner, and an id stands in an owner's sequence exactly
//! when that owner is recorded for it.  Each operation's effect on the
//! store is a model transformer, and the lemmas here show that every
//! transformer preserves the invariant.

use vstd::prelude::*;
use crate::codec::{dec_addr, dec_ids, enc_addr, enc_ids};
use crate::keys::{
    lemma_keys_distinct, lemma_owner_tokens_key_injective, minted_tokens_key, owner_tokens_key,
    token_approvals_key, token_owner_key,
};
use crate::types::TokenId;

verus! {

// ---------------------------------------------------------------------
// Token sequences
// ---------------------------------------------------------------------

/// No id occurs twice in the sequence.
pub open spec fn distinct_ids(s: Seq<TokenId>) -> bool {
    forall|i: int, j: int| 0 <= i < j < s.len() ==> s[i] != s[j]
}

/// The sequence with every occurrence of the id dropped; the relative
/// order of the remaining ids is preserved.
pub open spec fn remove_id(s: Seq<TokenId>, id: u128) -> Seq<TokenId>
    decreases s.len(),
{
    if s.len() == 0 {
        Seq::empty()
    } else {
        let prefix = remove_id(s.drop_last(), id);
        if s.last().0 == id {
            prefix
        } else {
            prefix.push(s.last())
        }
    }
}

proof fn lemma_contains_split(s: Seq<TokenId>, y: TokenId)
    requires
        s.len() > 0,
    ensures
        s.contains(y) <==> (s.drop_last().contains(y) || s.last() == y),
{
    if s.contains(y) {
        let k = choose|k: int| 0 <= k < s.len() && s[k] == y;
        if k < s.len() - 1 {
            assert(s.drop_last()[k] == y);
        }
    }
    if s.drop_last().contains(y) {
        let k = choose|k: int| 0 <= k < s.drop_last().len() && s.drop_last()[k] == y;
        assert(s[k] == y);
    }
    if s.last() == y {
        assert(s[s.len() - 1] == y);
    }
}

pub proof fn lemma_push_contains(s: Seq<TokenId>, x: TokenId, y: TokenId)
    ensures
        s.push(x).contains(y) <==> (s.contains(y) || y == x),
{
    assert(s.push(x).drop_last() =~= s);
    assert(s.push(x).last() == x);
    lemma_contains_split(s.push(x), y);
}

pub proof fn lemma_remove_id_contains(s: Seq<TokenId>, id: u128, y: TokenId)
    ensures
        remove_id(s, id).contains(y) <==> (s.contains(y) && y.0 != id),
    decreases s.len(),
{
    if s.len() == 0 {
    } else {
        lemma_remove_id_contains(s.drop_last(), id, y);
        lemma_contains_split(s, y);
        if s.last().0 == id {
        } else {
            lemma_push_contains(remove_id(s.drop_last(), id), s.last(), y);
        }
    }
}

pub proof fn lemma_remove_id_distinct(s: Seq<TokenId>, id: u128)
    requires
        distinct_ids(s),
    ensures
        distinct_ids(remove_id(s, id)),
    decreases s.len(),
{
    if s.len() == 0 {
    } else {
        assert(forall|i: int, j: int|
            0 <= i < j < s.drop_last().len() ==> s.drop_last()[i] != s.drop_last()[j]) by {
            assert(forall|i: int| 0 <= i < s.drop_last().len() ==> s.drop_last()[i] == s[i]);
        }
        lemma_remove_id_distinct(s.drop_last(), id);
        if s.last().0 == id {
        } else {
            let prefix = remove_id(s.drop_last(), id);
            assert forall|i: int, j: int|
                0 <= i < j < prefix.push(s.last()).len() implies prefix.push(s.last())[i]
                != prefix.push(s.last())[j] by {
                if j == prefix.len() {
                    assert(prefix.push(s.last())[j] == s.last());
                    assert(prefix.push(s.last())[i] == prefix[i]);
                    if prefix[i] == s.last() {
                        lemma_remove_id_contains(s.drop_last(), id, s.last());
                        assert(prefix.contains(prefix[i]));
                        let k = choose|k: int|
                            0 <= k < s.drop_last().len() && s.drop_last()[k] == s.last();
                        assert(s[k] == s[s.len() - 1]);
                        assert(false);
                    }
                }
            }
        }
    }
}

pub proof fn lemma_remove_id_len(s: Seq<TokenId>, id: u128)
    requires
        distinct_ids(s),
    ensures
        s.contains(TokenId(id)) ==> remove_id(s, id).len() == s.len() - 1,
        !s.contains(TokenId(id)) ==> remove_id(s, id) == s,
    decreases s.len(),
{
    if s.len() == 0 {
        if !s.contains(TokenId(id)) {
            assert(remove_id(s, id) =~= s);
        }
    } else {
        assert(forall|i: int| 0 <= i < s.drop_last().len() ==> s.drop_last()[i] == s[i]);
        lemma_remove_id_len(s.drop_last(), id);
        lemma_contains_split(s, TokenId(id));
        let prefix = remove_id(s.drop_last(), id);
        if s.last().0 == id {
            assert(s.last() == TokenId(id));
            assert(s[s.len() - 1] == TokenId(id));
            assert(s.contains(TokenId(id)));
            if s.drop_last().contains(TokenId(id)) {
                let k = choose|k: int|
                    0 <= k < s.drop_last().len() && s.drop_last()[k] == TokenId(id);
                assert(s[k] == s[s.len() - 1]);
                assert(false);
            }
            assert(remove_id(s, id) == prefix);
            assert(prefix == s.drop_last());
            assert(remove_id(s, id).len() == s.len() - 1);
        } else {
            assert(s.last() != TokenId(id));
            if s.contains(TokenId(id)) {
                assert(s.drop_last().contains(TokenId(id)));
                assert(remove_id(s, id).len() == prefix.len() + 1);
            } else {
                assert(prefix == s.drop_last());
                assert(remove_id(s, id) =~= s);
            }
        }
    }
}

// ---------------------------------------------------------------------
// Views of the store contents
// ---------------------------------------------------------------------

/// The sequence of all minted ids, in minting order.
pub open spec fn minted_of(m: Map<Seq<u8>, Seq<u8>>) -> Seq<TokenId> {
    if m.dom().contains(minted_tokens_key()) {
        dec_ids(m[minted_tokens_key()])
    } else {
        Seq::empty()
    }
}

/// The sequence of ids the owner currently holds, in insertion order;
/// empty for an owner that never held a token.
pub open spec fn tokens_of(m: Map<Seq<u8>, Seq<u8>>, a: Seq<u8>) -> Seq<TokenId> {
    if m.dom().contains(owner_tokens_key(a)) {
        dec_ids(m[owner_tokens_key(a)])
    } else {
        Seq::empty()
    }
}

/// The recorded owner of the id; None if the id was never minted.
pub open spec fn owner_rec_of(m: Map<Seq<u8>, Seq<u8>>, id: u128) -> Option<Seq<u8>> {
    if m.dom().contains(token_owner_key(id)) {
        Some(dec_addr(m[token_owner_key(id)]))
    } else {
        None
    }
}

/// The recorded approval of the id; None if no delegate is active.
pub open spec fn approval_of(m: Map<Seq<u8>, Seq<u8>>, id: u128) -> Option<Seq<u8>> {
    if m.dom().contains(token_approvals_key(id)) {
        Some(dec_addr(m[token_approvals_key(id)]))
    } else {
        None
    }
}

/// The id stands in this owner's token sequence.
pub open spec fn owns(m: Map<Seq<u8>, Seq<u8>>, a: Seq<u8>, id: u128) -> bool {
    tokens_of(m, a).contains(TokenId(id))
}

// ---------------------------------------------------------------------
// The registry invariant
// ---------------------------------------------------------------------

/// Ids are assigned sequentially from zero: the nth minted id is n.
pub open spec fn sequential_ok(m: Map<Seq<u8>, Seq<u8>>) -> bool {
    forall|n: int| 0 <= n < minted_of(m).len() ==> (#[trigger] minted_of(m)[n]).0 == n
}

/// An owner is recorded for an id exactly when the id was minted.
pub open spec fn owners_ok(m: Map<Seq<u8>, Seq<u8>>) -> bool {
    forall|id: u128|
        #[trigger] owner_rec_of(m, id) is Some <==> (id as nat) < minted_of(m).len()
}

/// An id stands in an owner's sequence exactly when that owner is
/// recorded for it — so every id has at most one holder.
pub open spec fn ownership_ok(m: Map<Seq<u8>, Seq<u8>>) -> bool {
    forall|a: Seq<u8>, id: u128| #[trigger] owns(m, a, id) <==> owner_rec_of(m, id) == Some(a)
}

/// No owner's sequence lists an id twice.
pub open spec fn distinct_ok(m: Map<Seq<u8>, Seq<u8>>) -> bool {
    forall|a: Seq<u8>| distinct_ids(#[trigger] tokens_of(m, a))
}

pub open spec fn inv(m: Map<Seq<u8>, Seq<u8>>) -> bool {
    &&& sequential_ok(m)
    &&& owners_ok(m)
    &&& ownership_ok(m)
    &&& distinct_ok(m)
}

pub proof fn lemma_empty_inv()
    ensures
        inv(crate::store::kv_empty()),
{
    let m = crate::store::kv_empty();
    assert(!m.dom().contains(minted_tokens_key()));
    assert forall|a: Seq<u8>, id: u128| !owns(m, a, id) by {
        assert(!m.dom().contains(owner_tokens_key(a)));
    }
    assert forall|a: Seq<u8>| distinct_ids(#[trigger] tokens_of(m, a)) by {
        assert(!m.dom().contains(owner_tokens_key(a)));
    }
}

// ---------------------------------------------------------------------
// Model transformers, in the order the operations write
// ---------------------------------------------------------------------

/// The store after minting the id to the owner.
pub open spec fn mint_model(m: Map<Seq<u8>, Seq<u8>>, owner: Seq<u8>, id: u128) -> Map<
    Seq<u8>,
    Seq<u8>,
> {
    m.insert(token_owner_key(id), enc_addr(owner)).insert(
        minted_tokens_key(),
        enc_ids(minted_of(m).push(TokenId(id))),
    ).insert(owner_tokens_key(owner), enc_ids(tokens_of(m, owner).push(TokenId(id))))
}

/// The store after transferring the id between the owners.
pub open spec fn transfer_model(m: Map<Seq<u8>, Seq<u8>>, from: Seq<u8>, to: Seq<u8>, id: u128) -> Map<
    Seq<u8>,
    Seq<u8>,
> {
    let from_toks = remove_id(tokens_of(m, from), id);
    let to_toks = if to == from {
        from_toks
    } else {
        tokens_of(m, to)
    };
    m.insert(owner_tokens_key(from), enc_ids(from_toks)).insert(
        owner_tokens_key(to),
        enc_ids(to_toks.push(TokenId(id))),
    ).insert(token_owner_key(id), enc_addr(to))
}

/// The store after approving the delegate for the id.
pub open spec fn approve_model(m: Map<Seq<u8>, Seq<u8>>, id: u128, delegate: Seq<u8>) -> Map<
    Seq<u8>,
    Seq<u8>,
> {
    m.insert(token_approvals_key(id), enc_addr(delegate))
}

// ---------------------------------------------------------------------
// How the transformers read back through the views
// ---------------------------------------------------------------------

pub proof fn lemma_mint_model_views(m: Map<Seq<u8>, Seq<u8>>, owner: Seq<u8>, id: u128)
    ensures
        minted_of(mint_model(m, owner, id)) == minted_of(m).push(TokenId(id)),
        tokens_of(mint_model(m, owner, id), owner) == tokens_of(m, owner).push(TokenId(id)),
        forall|a: Seq<u8>|
            a != owner ==> #[trigger] tokens_of(mint_model(m, owner, id), a) == tokens_of(m, a),
        owner_rec_of(mint_model(m, owner, id), id) == Some(owner),
        forall|i: u128|
            i != id ==> #[trigger] owner_rec_of(mint_model(m, owner, id), i) == owner_rec_of(m, i),
        forall|i: u128| #[trigger] approval_of(mint_model(m, owner, id), i) == approval_of(m, i),
{
    let mm = mint_model(m, owner, id);
    lemma_keys_distinct(owner, id, id);
    crate::codec::lemma_ids_round_trip(minted_of(m).push(TokenId(id)));
    crate::codec::lemma_ids_round_trip(tokens_of(m, owner).push(TokenId(id)));
    crate::codec::lemma_addr_round_trip(owner);
    assert forall|a: Seq<u8>| a != owner implies #[trigger] tokens_of(mm, a) == tokens_of(m, a) by {
        lemma_keys_distinct(a, id, id);
        lemma_owner_tokens_key_injective_contra(a, owner);
    }
    assert forall|i: u128| i != id implies #[trigger] owner_rec_of(mm, i) == owner_rec_of(m, i) by {
        lemma_keys_distinct(owner, i, id);
        lemma_keys_distinct(owner, id, i);
    }
    assert forall|i: u128| #[trigger] approval_of(mm, i) == approval_of(m, i) by {
        lemma_keys_distinct(owner, i, id);
        lemma_keys_distinct(owner, id, i);
    }
}

/// Distinct owners never share a key.
pub proof fn lemma_owner_tokens_key_injective_contra(a: Seq<u8>, b: Seq<u8>)
    requires
        a != b,
    ensures
        owner_tokens_key(a) != owner_tokens_key(b),
{
    if owner_tokens_key(a) == owner_tokens_key(b) {
        lemma_owner_tokens_key_injective(a, b);
    }
}

pub proof fn lemma_transfer_model_views(m: Map<Seq<u8>, Seq<u8>>, from: Seq<u8>, to: Seq<u8>, id: u128)
    ensures
        minted_of(transfer_model(m, from, to, id)) == minted_of(m),
        tokens_of(transfer_model(m, from, to, id), to) == (if to == from {
            remove_id(tokens_of(m, from), id)
        } else {
            tokens_of(m, to)
        }).push(TokenId(id)),
        from != to ==> tokens_of(transfer_model(m, from, to, id), from) == remove_id(
            tokens_of(m, from),
            id,
        ),
        forall|a: Seq<u8>|
            a != from && a != to ==> #[trigger] tokens_of(transfer_model(m, from, to, id), a)
                == tokens_of(m, a),
        owner_rec_of(transfer_model(m, from, to, id), id) == Some(to),
        forall|i: u128|
            i != id ==> #[trigger] owner_rec_of(transfer_model(m, from, to, id), i)
                == owner_rec_of(m, i),
        forall|i: u128| #[trigger] approval_of(transfer_model(m, from, to, id), i) == approval_of(m, i),
{
    let mm = transfer_model(m, from, to, id);
    let from_toks = remove_id(tokens_of(m, from), id);
    let to_toks = if to == from {
        from_toks
    } else {
        tokens_of(m, to)
    };
    lemma_keys_distinct(from, id, id);
    lemma_keys_distinct(to, id, id);
    crate::codec::lemma_ids_round_trip(from_toks);
    crate::codec::lemma_ids_round_trip(to_toks.push(TokenId(id)));
    crate::codec::lemma_addr_round_trip(to);
    if from != to {
        lemma_owner_tokens_key_injective_contra(from, to);
    }
    assert forall|a: Seq<u8>|
        a != from && a != to implies #[trigger] tokens_of(mm, a) == tokens_of(m, a) by {
        lemma_keys_distinct(a, id, id);
        lemma_owner_tokens_key_injective_contra(a, from);
        lemma_owner_tokens_key_injective_contra(a, to);
    }
    assert forall|i: u128| i != id implies #[trigger] owner_rec_of(mm, i) == owner_rec_of(m, i) by {
        lemma_keys_distinct(from, i, id);
        lemma_keys_distinct(to, i, id);
        lemma_keys_distinct(to, id, i);
    }
    assert forall|i: u128| #[trigger] approval_of(mm, i) == approval_of(m, i) by {
        lemma_keys_distinct(from, i, id);
        lemma_keys_distinct(to, i, id);
        lemma_keys_distinct(to, id, i);
    }
}

pub proof fn lemma_approve_model_views(m: Map<Seq<u8>, Seq<u8>>, id: u128, delegate: Seq<u8>)
    ensures
        minted_of(approve_model(m, id, delegate)) == minted_of(m),
        forall|a: Seq<u8>| #[trigger] tokens_of(approve_model(m, id, delegate), a) == tokens_of(m, a),
        forall|i: u128|
            #[trigger] owner_rec_of(approve_model(m, id, delegate), i) == owner_rec_of(m, i),
        approval_of(approve_model(m, id, delegate), id) == Some(delegate),
        forall|i: u128|
            i != id ==> #[trigger] approval_of(approve_model(m, id, delegate), i) == approval_of(
                m,
                i,
            ),
{
    let mm = approve_model(m, id, delegate);
    lemma_keys_distinct(delegate, id, id);
    crate::codec::lemma_addr_round_trip(delegate);
    assert forall|a: Seq<u8>| #[trigger] tokens_of(mm, a) == tokens_of(m, a) by {
        lemma_keys_distinct(a, id, id);
    }
    assert forall|i: u128| #[trigger] owner_rec_of(mm, i) == owner_rec_of(m, i) by {
        lemma_keys_distinct(delegate, i, id);
    }
    assert forall|i: u128| i != id implies #[trigger] approval_of(mm, i) == approval_of(m, i) by {
        lemma_keys_distinct(delegate, i, id);
        lemma_keys_distinct(delegate, id, i);
    }
}

// ---------------------------------------------------------------------
// The transformers preserve the invariant
// ---------------------------------------------------------------------

pub proof fn lemma_mint_preserves_inv(m: Map<Seq<u8>, Seq<u8>>, owner: Seq<u8>, id: u128)
    requires
        inv(m),
        id as nat == minted_of(m).len(),
    ensures
        inv(mint_model(m, owner, id)),
{
    let mm = mint_model(m, owner, id);
    lemma_mint_model_views(m, owner, id);
    let old_minted = minted_of(m);
    // The fresh id was held by nobody.
    assert(owner_rec_of(m, id) is None);
    assert forall|a: Seq<u8>| !owns(m, a, id) by {
        assert(owns(m, a, id) <==> owner_rec_of(m, id) == Some(a));
    }
    // Sequential allocation.
    assert forall|n: int| 0 <= n < minted_of(mm).len() implies (#[trigger] minted_of(mm)[n]).0
        == n by {
        if n < old_minted.len() {
            assert(minted_of(mm)[n] == old_minted[n]);
        } else {
            assert(minted_of(mm)[n] == TokenId(id));
        }
    }
    // Owner records exist exactly for minted ids.
    assert forall|i: u128| #[trigger] owner_rec_of(mm, i) is Some <==> (i as nat) < minted_of(
        mm,
    ).len() by {
        if i != id {
            assert(owner_rec_of(mm, i) == owner_rec_of(m, i));
            assert((i as nat) < old_minted.len() <==> (i as nat) < minted_of(mm).len());
        }
    }
    // Ownership matches the token sequences.
    assert forall|a: Seq<u8>, i: u128| #[trigger] owns(mm, a, i) <==> owner_rec_of(mm, i) == Some(
        a,
    ) by {
        if a == owner {
            lemma_push_contains(tokens_of(m, owner), TokenId(id), TokenId(i));
            if i != id {
                assert(owns(m, a, i) <==> owner_rec_of(m, i) == Some(a));
                assert(owns(mm, a, i) <==> owns(m, a, i));
            }
        } else {
            assert(tokens_of(mm, a) == tokens_of(m, a));
            assert(owns(mm, a, i) <==> owns(m, a, i));
            assert(owns(m, a, i) <==> owner_rec_of(m, i) == Some(a));
            if i == id {
                assert(!owns(m, a, id));
                assert(owner_rec_of(mm, id) == Some(owner));
            }
        }
    }
    // No duplicates.
    assert forall|a: Seq<u8>| distinct_ids(#[trigger] tokens_of(mm, a)) by {
        assert(distinct_ids(tokens_of(m, a)));
        if a == owner {
            let old_toks = tokens_of(m, owner);
            let new_toks = tokens_of(mm, owner);
            assert(new_toks == old_toks.push(TokenId(id)));
            assert forall|i: int, j: int| 0 <= i < j < new_toks.len() implies new_toks[i]
                != new_toks[j] by {
                if j == old_toks.len() {
                    assert(new_toks[j] == TokenId(id));
                    assert(new_toks[i] == old_toks[i]);
                    if old_toks[i] == TokenId(id) {
                        assert(old_toks.contains(TokenId(id)));
                        assert(owns(m, owner, id));
                        assert(false);
                    }
                } else {
                    assert(new_toks[i] == old_toks[i]);
                    assert(new_toks[j] == old_toks[j]);
                }
            }
        }
    }
}

pub proof fn lemma_transfer_preserves_inv(m: Map<Seq<u8>, Seq<u8>>, from: Seq<u8>, to: Seq<u8>, id: u128)
    requires
        inv(m),
        owner_rec_of(m, id) == Some(from),
    ensures
        inv(transfer_model(m, from, to, id)),
        from != to ==> tokens_of(transfer_model(m, from, to, id), from).len() == tokens_of(
            m,
            from,
        ).len() - 1,
        tokens_of(transfer_model(m, from, to, id), to).len() == (if to == from {
            tokens_of(m, to).len()
        } else {
            tokens_of(m, to).len() + 1
        }),
{
    let mm = transfer_model(m, from, to, id);
    lemma_transfer_model_views(m, from, to, id);
    let old_from = tokens_of(m, from);
    let from_toks = remove_id(old_from, id);
    let to_base = if to == from {
        from_toks
    } else {
        tokens_of(m, to)
    };
    assert(owns(m, from, id) <==> owner_rec_of(m, id) == Some(from));
    assert(old_from.contains(TokenId(id)));
    assert(distinct_ids(old_from));
    lemma_remove_id_len(old_from, id);
    lemma_remove_id_distinct(old_from, id);
    if to != from {
        assert(owns(m, to, id) <==> owner_rec_of(m, id) == Some(to));
        assert(!tokens_of(m, to).contains(TokenId(id)));
        lemma_push_contains(tokens_of(m, to), TokenId(id), TokenId(id));
    }
    // Minted and owner-record cardinality facts carry over directly.
    assert(minted_of(mm) == minted_of(m));
    assert forall|i: u128| #[trigger] owner_rec_of(mm, i) is Some <==> (i as nat) < minted_of(
        mm,
    ).len() by {
        if i != id {
            assert(owner_rec_of(mm, i) == owner_rec_of(m, i));
        } else {
            assert(owner_rec_of(m, id) is Some);
        }
    }
    // Ownership matches the token sequences.
    assert forall|a: Seq<u8>, i: u128| #[trigger] owns(mm, a, i) <==> owner_rec_of(mm, i) == Some(
        a,
    ) by {
        lemma_remove_id_contains(old_from, id, TokenId(i));
        lemma_push_contains(to_base, TokenId(id), TokenId(i));
        assert(owns(m, a, i) <==> owner_rec_of(m, i) == Some(a));
        if a == to {
            if i != id {
                if to == from {
                    assert(owns(m, from, i) <==> owner_rec_of(m, i) == Some(from));
                } else {
                    assert(owns(m, to, i) <==> owner_rec_of(m, i) == Some(to));
                }
            }
        } else if a == from {
            // to != from here, so from's sequence is the filtered one.
            assert(tokens_of(mm, from) == from_toks);
            if i == id {
                assert(!from_toks.contains(TokenId(id)));
            }
        } else {
            assert(tokens_of(mm, a) == tokens_of(m, a));
            if i == id {
                assert(owns(m, a, id) <==> owner_rec_of(m, id) == Some(a));
            }
        }
    }
    // No duplicates.
    assert forall|a: Seq<u8>| distinct_ids(#[trigger] tokens_of(mm, a)) by {
        assert(distinct_ids(tokens_of(m, a)));
        if a == to {
            let new_toks = tokens_of(mm, to);
            assert(new_toks == to_base.push(TokenId(id)));
            assert(distinct_ids(to_base));
            assert(!to_base.contains(TokenId(id))) by {
                lemma_remove_id_contains(old_from, id, TokenId(id));
            }
            assert forall|i: int, j: int| 0 <= i < j < new_toks.len() implies new_toks[i]
                != new_toks[j] by {
                if j == to_base.len() {
                    assert(new_toks[j] == TokenId(id));
                    assert(new_toks[i] == to_base[i]);
                    if to_base[i] == TokenId(id) {
                        assert(to_base.contains(TokenId(id)));
                        assert(false);
                    }
                } else {
                    assert(new_toks[i] == to_base[i]);
                    assert(new_toks[j] == to_base[j]);
                }
            }
        } else if a == from {
            assert(tokens_of(mm, from) == from_toks);
        }
    }
    // Balance facts.
    if to != from {
        assert(from_toks.len() == old_from.len() - 1);
    }
}

pub proof fn lemma_approve_preserves_inv(m: Map<Seq<u8>, Seq<u8>>, id: u128, delegate: Seq<u8>)
    requires
        inv(m),
    ensures
        inv(approve_model(m, id, delegate)),
{
    let mm = approve_model(m, id, delegate);
    lemma_approve_model_views(m, id, delegate);
    assert forall|n: int| 0 <= n < minted_of(mm).len() implies (#[trigger] minted_of(mm)[n]).0
        == n by {
        assert(minted_of(mm) == minted_of(m));
    }
    assert forall|i: u128| #[trigger] owner_rec_of(mm, i) is Some <==> (i as nat) < minted_of(
        mm,
    ).len() by {
        assert(owner_rec_of(mm, i) == owner_rec_of(m, i));
    }
    assert forall|a: Seq<u8>, i: u128| #[trigger] owns(mm, a, i) <==> owner_rec_of(mm, i) == Some(
        a,
    ) by {
        assert(tokens_of(mm, a) == tokens_of(m, a));
        assert(owns(mm, a, i) <==> owns(m, a, i));
        assert(owns(m, a, i) <==> owner_rec_of(m, i) == Some(a));
    }
    assert forall|a: Seq<u8>| distinct_ids(#[trigger] tokens_of(mm, a)) by {
        assert(tokens_of(mm, a) == tokens_of(m, a));
        assert(distinct_ids(tokens_of(m, a)));
    }
}

} // verus!
