//! The registry core.
//!
//! A `Registry` exclusively owns its backing key-value store together
//! with the immutable configuration, and exposes the three mutating
//! operations — mint, transfer, approve — and the read-only queries.
//! Every operation validates before it writes, so a failed operation
//! leaves the store untouched, and every operation preserves the
//! registry invariant.

use vstd::prelude::*;
use vstd::string::StrSliceExecFns;
use cosmwasm_std::MemoryStorage;
use crate::codec::{bytes_eq, decode_addr, decode_ids, enc_addr, enc_ids, encode_addr, encode_ids};
use crate::keys::{
    make_minted_tokens_key, make_owner_tokens_key, make_token_approvals_key, make_token_owner_key,
    minted_tokens_key, owner_tokens_key, token_approvals_key, token_owner_key,
};
use crate::model::{
    approval_of, approve_model, inv, lemma_approve_model_views, lemma_approve_preserves_inv,
    lemma_empty_inv, lemma_mint_model_views, lemma_mint_preserves_inv,
    lemma_owner_tokens_key_injective_contra, lemma_transfer_model_views,
    lemma_transfer_preserves_inv, minted_of, mint_model, owner_rec_of, remove_id, tokens_of,
    transfer_model,
};
use crate::store::{kv_empty, kv_get, kv_new, kv_set, kv_view};
use crate::types::{
    Addr, Error, ExecuteMsg, InstantiateMsg, Outcome, QueryAnswer, QueryMsg, State, TokenId,
};
use crate::{MAX_NAME_LEN, MIN_NAME_LEN};

verus! {

/// The complete ownership and approval state for all tokens under one
/// name/symbol configuration.
pub struct Registry {
    /// The backing byte-keyed store holding the four index tables.
    pub store: MemoryStorage,
    /// The immutable configuration, validated at creation.
    pub state: State,
}

/// The exact error an ownership check reports: the id may have no
/// recorded owner at all, or a different one than asserted.
pub open spec fn owner_check_error(m: Map<Seq<u8>, Seq<u8>>, owner: Seq<u8>, id: u128) -> Option<
    Error,
> {
    if owner_rec_of(m, id) is None {
        Some(Error::OwnerNotFound)
    } else if owner_rec_of(m, id) != Some(owner) {
        Some(Error::InvalidOwner)
    } else {
        None
    }
}

/// The exact error the pre-mutation checks of a plain transfer report:
/// the id must lie within the minted range and the asserted owner must
/// be the recorded one.
pub open spec fn transfer_base_error(m: Map<Seq<u8>, Seq<u8>>, from: Seq<u8>, id: u128) -> Option<
    Error,
> {
    if !(minted_of(m).len() > 0 && id <= minted_of(m).last().0) {
        Some(Error::TokenNotFound)
    } else if owner_check_error(m, from, id) is Some {
        owner_check_error(m, from, id)
    } else {
        None
    }
}

/// The exact error the authorization check reports: an approval must
/// exist and must name the asserted delegate.
pub open spec fn allowance_error(m: Map<Seq<u8>, Seq<u8>>, id: u128, delegate: Seq<u8>) -> Option<
    Error,
> {
    if approval_of(m, id) is None {
        Some(Error::AllowanceNotFound)
    } else if approval_of(m, id) != Some(delegate) {
        Some(Error::InvalidAllowance)
    } else {
        None
    }
}

/// The registry creation parameters are accepted exactly when both
/// lengths are within bounds.
pub open spec fn valid_config(name: Seq<char>, symbol: Seq<char>) -> bool {
    &&& MIN_NAME_LEN as nat <= name.len() <= MAX_NAME_LEN as nat
    &&& MIN_NAME_LEN as nat <= symbol.len() <= MAX_NAME_LEN as nat
}

/// The name must carry between three and thirty characters.
pub fn is_valid_name(name: &str) -> (r: Result<(), Error>)
    ensures
        r is Ok <==> MIN_NAME_LEN as nat <= name@.len() <= MAX_NAME_LEN as nat,
        r matches Err(e) ==> e == Error::InvalidNameFormat,
{
    let n = name.unicode_len();
    if n < MIN_NAME_LEN || n > MAX_NAME_LEN {
        Err(Error::InvalidNameFormat)
    } else {
        Ok(())
    }
}

/// The symbol must carry between three and thirty characters.
pub fn is_valid_symbol(symbol: &str) -> (r: Result<(), Error>)
    ensures
        r is Ok <==> MIN_NAME_LEN as nat <= symbol@.len() <= MAX_NAME_LEN as nat,
        r matches Err(e) ==> e == Error::InvalidSymbolFormat,
{
    let n = symbol.unicode_len();
    if n < MIN_NAME_LEN || n > MAX_NAME_LEN {
        Err(Error::InvalidSymbolFormat)
    } else {
        Ok(())
    }
}

impl Registry {
    /// The store contents this registry governs.
    pub open spec fn contents(&self) -> Map<Seq<u8>, Seq<u8>> {
        kv_view(self.store)
    }

    /// The sequence of all minted ids, in minting order.
    pub open spec fn minted(&self) -> Seq<TokenId> {
        minted_of(self.contents())
    }

    /// The ids the owner currently holds, in insertion order.
    pub open spec fn tokens(&self, a: Seq<u8>) -> Seq<TokenId> {
        tokens_of(self.contents(), a)
    }

    /// The recorded owner of the id; None if never minted.
    pub open spec fn owner_rec(&self, id: u128) -> Option<Seq<u8>> {
        owner_rec_of(self.contents(), id)
    }

    /// The recorded approval of the id; None if no delegate is active.
    pub open spec fn approval_rec(&self, id: u128) -> Option<Seq<u8>> {
        approval_of(self.contents(), id)
    }

    /// The registry invariant holds of the store contents.
    pub open spec fn wf(&self) -> bool {
        inv(self.contents())
    }

    /// Creates a registry over a fresh, empty store after validating
    /// the configuration.
    pub fn instantiate(msg: InstantiateMsg) -> (r: Result<Registry, Error>)
        ensures
            r is Ok <==> valid_config(msg.name@, msg.symbol@),
            r matches Err(e) ==> e == (if MIN_NAME_LEN as nat <= msg.name@.len() <= MAX_NAME_LEN
                as nat {
                Error::InvalidSymbolFormat
            } else {
                Error::InvalidNameFormat
            }),
            r matches Ok(reg) ==> {
                &&& reg.wf()
                &&& reg.contents() == kv_empty()
                &&& reg.state == (State { name: msg.name, symbol: msg.symbol })
            },
    {
        match is_valid_name(msg.name.as_str()) {
            Err(e) => {
                return Err(e);
            },
            Ok(_) => {},
        }
        match is_valid_symbol(msg.symbol.as_str()) {
            Err(e) => {
                return Err(e);
            },
            Ok(_) => {},
        }
        let store = kv_new();
        proof {
            lemma_empty_inv();
        }
        Ok(Registry { store, state: State { name: msg.name, symbol: msg.symbol } })
    }

    // -----------------------------------------------------------------
    // Index layer: read and write the four tables
    // -----------------------------------------------------------------

    /// Reads the owner's token sequence; empty if the owner never held
    /// a token.
    pub fn read_owner_tokens_store(&self, owner: &Addr) -> (r: Vec<TokenId>)
        ensures
            r@ == self.tokens(owner@),
    {
        let key = make_owner_tokens_key(owner);
        match kv_get(&self.store, &key) {
            None => {
                let v: Vec<TokenId> = Vec::new();
                proof {
                    assert(v@ =~= self.tokens(owner@));
                }
                v
            },
            Some(bytes) => decode_ids(&bytes),
        }
    }

    /// Overwrites the owner's token sequence.
    pub fn write_owner_tokens_store(&mut self, owner: &Addr, token_id_set: Vec<TokenId>)
        ensures
            final(self).contents() == old(self).contents().insert(
                owner_tokens_key(owner@),
                enc_ids(token_id_set@),
            ),
            final(self).state == old(self).state,
    {
        let key = make_owner_tokens_key(owner);
        let value = encode_ids(&token_id_set);
        kv_set(&mut self.store, &key, &value);
    }

    /// Reads the recorded owner of the id.
    pub fn read_token_owner_store(&self, token_id: &TokenId) -> (r: Option<Addr>)
        ensures
            r is Some <==> self.owner_rec(token_id.0) is Some,
            r matches Some(a) ==> self.owner_rec(token_id.0) == Some(a@),
    {
        let key = make_token_owner_key(token_id.0);
        match kv_get(&self.store, &key) {
            None => None,
            Some(bytes) => Some(decode_addr(&bytes)),
        }
    }

    /// Records the owner of the id, overwriting any previous record.
    pub fn write_token_owner_store(&mut self, token_id: &TokenId, owner: &Addr)
        ensures
            final(self).contents() == old(self).contents().insert(
                token_owner_key(token_id.0),
                enc_addr(owner@),
            ),
            final(self).state == old(self).state,
    {
        let key = make_token_owner_key(token_id.0);
        let value = encode_addr(owner);
        kv_set(&mut self.store, &key, &value);
    }

    /// Reads the minted sequence; None if nothing was ever minted.
    pub fn read_minted_token_id_store(&self) -> (r: Option<Vec<TokenId>>)
        ensures
            r is None ==> self.minted().len() == 0,
            r matches Some(v) ==> v@ == self.minted(),
    {
        let key = make_minted_tokens_key();
        match kv_get(&self.store, &key) {
            None => None,
            Some(bytes) => Some(decode_ids(&bytes)),
        }
    }

    /// Overwrites the minted sequence.
    pub fn write_minted_token_id_store(&mut self, token_id_set: Vec<TokenId>)
        ensures
            final(self).contents() == old(self).contents().insert(
                minted_tokens_key(),
                enc_ids(token_id_set@),
            ),
            final(self).state == old(self).state,
    {
        let key = make_minted_tokens_key();
        let value = encode_ids(&token_id_set);
        kv_set(&mut self.store, &key, &value);
    }

    /// Reads the recorded approval of the id.
    pub fn read_token_approvals_store(&self, token_id: &TokenId) -> (r: Option<Addr>)
        ensures
            r is Some <==> self.approval_rec(token_id.0) is Some,
            r matches Some(a) ==> self.approval_rec(token_id.0) == Some(a@),
    {
        let key = make_token_approvals_key(token_id.0);
        match kv_get(&self.store, &key) {
            None => None,
            Some(bytes) => Some(decode_addr(&bytes)),
        }
    }

    /// Records the approval of the id, overwriting any previous
    /// delegate.
    pub fn write_token_approvals_store(&mut self, token_id: &TokenId, addr: &Addr)
        ensures
            final(self).contents() == old(self).contents().insert(
                token_approvals_key(token_id.0),
                enc_addr(addr@),
            ),
            final(self).state == old(self).state,
    {
        let key = make_token_approvals_key(token_id.0);
        let value = encode_addr(addr);
        kv_set(&mut self.store, &key, &value);
    }

    // -----------------------------------------------------------------
    // Validation
    // -----------------------------------------------------------------

    /// The id of the most recently minted token, if any.
    fn get_current_token_id(&self) -> (r: Option<TokenId>)
        ensures
            r is Some <==> self.minted().len() > 0,
            r matches Some(t) ==> t == self.minted().last(),
    {
        match self.read_minted_token_id_store() {
            None => None,
            Some(v) => {
                if v.len() == 0 {
                    None
                } else {
                    Some(v[v.len() - 1])
                }
            },
        }
    }

    /// The id must not exceed the highest minted id.
    pub fn validate_token_id(&self, token_id: &TokenId) -> (r: Result<(), Error>)
        ensures
            r is Ok <==> (self.minted().len() > 0 && token_id.0 <= self.minted().last().0),
            r matches Err(e) ==> e == Error::TokenNotFound,
    {
        match self.get_current_token_id() {
            None => Err(Error::TokenNotFound),
            Some(cur) => {
                if cur.as_u128() < token_id.as_u128() {
                    Err(Error::TokenNotFound)
                } else {
                    Ok(())
                }
            },
        }
    }

    /// The asserted owner must be the recorded owner of the id.
    pub fn validate_token_owner(&self, token_id: &TokenId, addr: &Addr) -> (r: Result<(), Error>)
        ensures
            r is Ok <==> self.owner_rec(token_id.0) == Some(addr@),
            r matches Err(e) ==> Some(e) == owner_check_error(self.contents(), addr@, token_id.0),
    {
        match self.read_token_owner_store(token_id) {
            None => Err(Error::OwnerNotFound),
            Some(owner) => {
                if bytes_eq(owner.bytes.as_slice(), addr.bytes.as_slice()) {
                    Ok(())
                } else {
                    Err(Error::InvalidOwner)
                }
            },
        }
    }

    /// The asserted delegate must be the recorded approval of the id.
    pub fn validate_allowance(&self, token_id: &TokenId, addr: &Addr) -> (r: Result<(), Error>)
        ensures
            r is Ok <==> self.approval_rec(token_id.0) == Some(addr@),
            r matches Err(e) ==> Some(e) == allowance_error(self.contents(), token_id.0, addr@),
    {
        match self.read_token_approvals_store(token_id) {
            None => Err(Error::AllowanceNotFound),
            Some(approved) => {
                if bytes_eq(approved.bytes.as_slice(), addr.bytes.as_slice()) {
                    Ok(())
                } else {
                    Err(Error::InvalidAllowance)
                }
            },
        }
    }

    // -----------------------------------------------------------------
    // Registry core: mint, transfer, approve
    // -----------------------------------------------------------------

    /// The id the next mint will assign: zero if nothing was minted,
    /// the last assigned id plus one otherwise.
    pub fn allocate_next_id(&self) -> (r: TokenId)
        requires
            self.wf(),
        ensures
            r.0 as nat == self.minted().len(),
            self.minted().len() == 0 ==> r.0 == 0,
            self.minted().len() > 0 ==> r.0 == self.minted().last().0 + 1,
    {
        match self.read_minted_token_id_store() {
            None => TokenId::new(0),
            Some(v) => {
                if v.len() == 0 {
                    TokenId::new(0)
                } else {
                    let n = v.len();
                    let last = v[n - 1];
                    proof {
                        assert(minted_of(self.contents())[n - 1].0 == n - 1);
                    }
                    TokenId::new(last.as_u128() + 1)
                }
            },
        }
    }

    /// Mints a fresh token to the owner: assigns the next sequential
    /// id, records the owner, and appends the id to the minted
    /// sequence and to the owner's sequence.  Cannot fail; no
    /// authorization check is performed.
    pub fn mint(&mut self, owner: &Addr) -> (r: TokenId)
        requires
            old(self).wf(),
        ensures
            final(self).wf(),
            final(self).state == old(self).state,
            r.0 as nat == old(self).minted().len(),
            final(self).contents() == mint_model(old(self).contents(), owner@, r.0),
            final(self).minted() == old(self).minted().push(r),
            final(self).owner_rec(r.0) == Some(owner@),
            final(self).tokens(owner@) == old(self).tokens(owner@).push(r),
            forall|a: Seq<u8>|
                a != owner@ ==> #[trigger] final(self).tokens(a) == old(self).tokens(a),
            forall|i: u128|
                i != r.0 ==> #[trigger] final(self).owner_rec(i) == old(self).owner_rec(i),
            forall|i: u128| #[trigger] final(self).approval_rec(i) == old(self).approval_rec(i),
    {
        let ghost m0 = self.contents();
        let new_token_id = self.allocate_next_id();
        let mut minted_set = match self.read_minted_token_id_store() {
            Some(v) => v,
            None => Vec::new(),
        };
        proof {
            assert(minted_set@ =~= minted_of(m0));
        }
        let mut token_id_set = self.read_owner_tokens_store(owner);
        self.write_token_owner_store(&new_token_id, owner);
        minted_set.push(new_token_id);
        self.write_minted_token_id_store(minted_set);
        token_id_set.push(new_token_id);
        self.write_owner_tokens_store(owner, token_id_set);
        proof {
            assert(self.contents() == mint_model(m0, owner@, new_token_id.0));
            lemma_mint_preserves_inv(m0, owner@, new_token_id.0);
            lemma_mint_model_views(m0, owner@, new_token_id.0);
        }
        new_token_id
    }

    /// Rewrites one owner's token sequence: appends the id on receipt,
    /// or filters it out on send, keeping the remaining ids in order.
    fn update_owner_tokens_store(&mut self, token_id: &TokenId, owner: &Addr, received: bool)
        ensures
            final(self).state == old(self).state,
            received ==> final(self).contents() == old(self).contents().insert(
                owner_tokens_key(owner@),
                enc_ids(old(self).tokens(owner@).push(*token_id)),
            ),
            !received ==> final(self).contents() == old(self).contents().insert(
                owner_tokens_key(owner@),
                enc_ids(remove_id(old(self).tokens(owner@), token_id.0)),
            ),
    {
        let token_id_set = self.read_owner_tokens_store(owner);
        if received {
            let mut s = token_id_set;
            s.push(*token_id);
            self.write_owner_tokens_store(owner, s);
        } else {
            let mut new_token_id_set: Vec<TokenId> = Vec::new();
            proof {
                assert(token_id_set@.take(0) =~= Seq::<TokenId>::empty());
                assert(new_token_id_set@ =~= remove_id(token_id_set@.take(0), token_id.0));
            }
            let mut i: usize = 0;
            while i < token_id_set.len()
                invariant
                    i <= token_id_set.len(),
                    new_token_id_set@ == remove_id(token_id_set@.take(i as int), token_id.0),
                decreases token_id_set.len() - i,
            {
                let elm = token_id_set[i];
                if elm.0 != token_id.0 {
                    new_token_id_set.push(elm);
                }
                proof {
                    let t1 = token_id_set@.take(i as int + 1);
                    assert(t1.drop_last() =~= token_id_set@.take(i as int));
                    assert(t1.last() == token_id_set@[i as int]);
                    assert(new_token_id_set@ == remove_id(t1, token_id.0));
                }
                i = i + 1;
            }
            proof {
                assert(token_id_set@.take(token_id_set@.len() as int) =~= token_id_set@);
            }
            self.write_owner_tokens_store(owner, new_token_id_set);
        }
    }

    /// The shared transfer path: validates existence, ownership and —
    /// when a delegate is named — authorization, in that order, and
    /// only then moves the id between the two owners' sequences and
    /// re-records the owner.  The approval of the id is left as it
    /// was.
    fn execute_transfer(
        &mut self,
        from: &Addr,
        to: &Addr,
        token_id: &TokenId,
        delegate: Option<&Addr>,
    ) -> (r: Result<Outcome, Error>)
        requires
            old(self).wf(),
        ensures
            final(self).wf(),
            final(self).state == old(self).state,
            r is Err ==> final(self).contents() == old(self).contents(),
            delegate is None ==> (r is Ok <==> transfer_base_error(
                old(self).contents(),
                from@,
                token_id.0,
            ) is None),
            delegate matches Some(d) ==> (r is Ok <==> (transfer_base_error(
                old(self).contents(),
                from@,
                token_id.0,
            ) is None && allowance_error(old(self).contents(), token_id.0, d@) is None)),
            r matches Err(e) ==> (transfer_base_error(old(self).contents(), from@, token_id.0)
                is Some ==> Some(e) == transfer_base_error(
                old(self).contents(),
                from@,
                token_id.0,
            )),
            delegate matches Some(d) ==> (r matches Err(e) ==> (transfer_base_error(
                old(self).contents(),
                from@,
                token_id.0,
            ) is None ==> Some(e) == allowance_error(old(self).contents(), token_id.0, d@))),
            r is Ok ==> old(self).owner_rec(token_id.0) == Some(from@),
            r is Ok ==> final(self).contents() == transfer_model(
                old(self).contents(),
                from@,
                to@,
                token_id.0,
            ),
            r is Ok ==> final(self).owner_rec(token_id.0) == Some(to@),
            r is Ok ==> final(self).tokens(to@) == (if to@ == from@ {
                remove_id(old(self).tokens(from@), token_id.0)
            } else {
                old(self).tokens(to@)
            }).push(*token_id),
            r is Ok && from@ != to@ ==> final(self).tokens(from@) == remove_id(
                old(self).tokens(from@),
                token_id.0,
            ),
            r is Ok ==> forall|a: Seq<u8>|
                a != from@ && a != to@ ==> #[trigger] final(self).tokens(a) == old(self).tokens(a),
            r is Ok ==> forall|i: u128|
                i != token_id.0 ==> #[trigger] final(self).owner_rec(i) == old(self).owner_rec(i),
            forall|i: u128| #[trigger] final(self).approval_rec(i) == old(self).approval_rec(i),
            final(self).minted() == old(self).minted(),
            r is Ok && from@ != to@ ==> final(self).tokens(from@).len() == old(self).tokens(
                from@,
            ).len() - 1 && final(self).tokens(to@).len() == old(self).tokens(to@).len() + 1,
            r matches Ok(o) ==> (o matches Outcome::Transferred { sender, recipient, token_id: t }
                && sender@ == from@ && recipient@ == to@ && t == *token_id),
    {
        match self.validate_token_id(token_id) {
            Err(e) => {
                return Err(e);
            },
            Ok(_) => {},
        }
        match self.validate_token_owner(token_id, from) {
            Err(e) => {
                return Err(e);
            },
            Ok(_) => {},
        }
        match delegate {
            Some(d) => {
                match self.validate_allowance(token_id, d) {
                    Err(e) => {
                        return Err(e);
                    },
                    Ok(_) => {},
                }
            },
            None => {},
        }
        let ghost m0 = self.contents();
        self.update_owner_tokens_store(token_id, from, false);
        self.update_owner_tokens_store(token_id, to, true);
        self.write_token_owner_store(token_id, to);
        proof {
            let id = token_id.0;
            let from_toks = remove_id(tokens_of(m0, from@), id);
            if to@ == from@ {
                crate::codec::lemma_ids_round_trip(from_toks);
            } else {
                lemma_owner_tokens_key_injective_contra(to@, from@);
            }
            assert(self.contents() == transfer_model(m0, from@, to@, id));
            lemma_transfer_preserves_inv(m0, from@, to@, id);
            lemma_transfer_model_views(m0, from@, to@, id);
        }
        Ok(
            Outcome::Transferred {
                sender: from.dup(),
                recipient: to.dup(),
                token_id: *token_id,
            },
        )
    }

    /// Transfers the token from the caller to the recipient.
    pub fn transfer(&mut self, sender: &Addr, recipient: &Addr, value: u128) -> (r: Result<
        Outcome,
        Error,
    >)
        requires
            old(self).wf(),
        ensures
            final(self).wf(),
            final(self).state == old(self).state,
            r is Err ==> final(self).contents() == old(self).contents(),
            r is Ok <==> transfer_base_error(old(self).contents(), sender@, value) is None,
            r matches Err(e) ==> Some(e) == transfer_base_error(
                old(self).contents(),
                sender@,
                value,
            ),
            r is Ok ==> final(self).contents() == transfer_model(
                old(self).contents(),
                sender@,
                recipient@,
                value,
            ),
            r is Ok ==> final(self).owner_rec(value) == Some(recipient@),
            r is Ok ==> final(self).tokens(recipient@) == (if recipient@ == sender@ {
                remove_id(old(self).tokens(sender@), value)
            } else {
                old(self).tokens(recipient@)
            }).push(TokenId(value)),
            r is Ok && sender@ != recipient@ ==> final(self).tokens(sender@) == remove_id(
                old(self).tokens(sender@),
                value,
            ),
            r is Ok ==> forall|a: Seq<u8>|
                a != sender@ && a != recipient@ ==> #[trigger] final(self).tokens(a) == old(self).tokens(a),
            r is Ok ==> forall|i: u128|
                i != value ==> #[trigger] final(self).owner_rec(i) == old(self).owner_rec(i),
            forall|i: u128| #[trigger] final(self).approval_rec(i) == old(self).approval_rec(i),
            final(self).minted() == old(self).minted(),
            r is Ok && sender@ != recipient@ ==> final(self).tokens(sender@).len() == old(self).tokens(sender@).len() - 1 && final(self).tokens(recipient@).len() == old(self).tokens(
                recipient@,
            ).len() + 1,
            r matches Ok(o) ==> (o matches Outcome::Transferred { sender: s, recipient: rc, token_id: t }
                && s@ == sender@ && rc@ == recipient@ && t.0 == value),
    {
        let token_id = TokenId::new(value);
        self.execute_transfer(sender, recipient, &token_id, None)
    }

    /// Transfers the token between the named owners on the strength of
    /// the caller's approval for it.
    pub fn transfer_from(&mut self, sender: &Addr, from: &Addr, to: &Addr, value: u128) -> (r:
        Result<Outcome, Error>)
        requires
            old(self).wf(),
        ensures
            final(self).wf(),
            final(self).state == old(self).state,
            r is Err ==> final(self).contents() == old(self).contents(),
            r is Ok <==> (transfer_base_error(old(self).contents(), from@, value) is None
                && allowance_error(old(self).contents(), value, sender@) is None),
            r matches Err(e) ==> Some(e) == (if transfer_base_error(
                old(self).contents(),
                from@,
                value,
            ) is Some {
                transfer_base_error(old(self).contents(), from@, value)
            } else {
                allowance_error(old(self).contents(), value, sender@)
            }),
            r is Ok ==> final(self).contents() == transfer_model(
                old(self).contents(),
                from@,
                to@,
                value,
            ),
            r is Ok ==> final(self).owner_rec(value) == Some(to@),
            r is Ok ==> final(self).tokens(to@) == (if to@ == from@ {
                remove_id(old(self).tokens(from@), value)
            } else {
                old(self).tokens(to@)
            }).push(TokenId(value)),
            r is Ok && from@ != to@ ==> final(self).tokens(from@) == remove_id(
                old(self).tokens(from@),
                value,
            ),
            r is Ok ==> forall|a: Seq<u8>|
                a != from@ && a != to@ ==> #[trigger] final(self).tokens(a) == old(self).tokens(a),
            r is Ok ==> forall|i: u128|
                i != value ==> #[trigger] final(self).owner_rec(i) == old(self).owner_rec(i),
            forall|i: u128| #[trigger] final(self).approval_rec(i) == old(self).approval_rec(i),
            final(self).minted() == old(self).minted(),
            r is Ok && from@ != to@ ==> final(self).tokens(from@).len() == old(self).tokens(
                from@,
            ).len() - 1 && final(self).tokens(to@).len() == old(self).tokens(to@).len() + 1,
            r matches Ok(o) ==> (o matches Outcome::Transferred { sender: s, recipient: rc, token_id: t }
                && s@ == from@ && rc@ == to@ && t.0 == value),
    {
        let token_id = TokenId::new(value);
        self.execute_transfer(from, to, &token_id, Some(sender))
    }

    /// Approves the delegate for the token after checking the caller
    /// owns it, overwriting any previous delegate.  Exactly one
    /// delegate is active per token at a time.
    pub fn approve(&mut self, owner: &Addr, recipient: &Addr, value: u128) -> (r: Result<
        Outcome,
        Error,
    >)
        requires
            old(self).wf(),
        ensures
            final(self).wf(),
            final(self).state == old(self).state,
            r is Err ==> final(self).contents() == old(self).contents(),
            r is Ok <==> old(self).owner_rec(value) == Some(owner@),
            r matches Err(e) ==> Some(e) == owner_check_error(old(self).contents(), owner@, value),
            r is Ok ==> final(self).contents() == approve_model(
                old(self).contents(),
                value,
                recipient@,
            ),
            r is Ok ==> final(self).approval_rec(value) == Some(recipient@),
            forall|i: u128|
                i != value ==> #[trigger] final(self).approval_rec(i) == old(self).approval_rec(i),
            forall|a: Seq<u8>| #[trigger] final(self).tokens(a) == old(self).tokens(a),
            forall|i: u128| #[trigger] final(self).owner_rec(i) == old(self).owner_rec(i),
            final(self).minted() == old(self).minted(),
            r matches Ok(o) ==> (o matches Outcome::Approved { owner: ow, recipient: rc, token_id: t }
                && ow@ == owner@ && rc@ == recipient@ && t.0 == value),
    {
        let token_id = TokenId::new(value);
        match self.validate_token_owner(&token_id, owner) {
            Err(e) => {
                return Err(e);
            },
            Ok(_) => {},
        }
        let ghost m0 = self.contents();
        self.write_token_approvals_store(&token_id, recipient);
        proof {
            assert(self.contents() == approve_model(m0, value, recipient@));
            lemma_approve_preserves_inv(m0, value, recipient@);
            lemma_approve_model_views(m0, value, recipient@);
        }
        Ok(Outcome::Approved { owner: owner.dup(), recipient: recipient.dup(), token_id })
    }

    /// Declared in the message surface but without semantics in this
    /// registry: always refused, with no effect.
    pub fn approve_for_all(&self, _owner: &Addr, _recipient: &Addr) -> (r: Result<Outcome, Error>)
        ensures
            r is Err,
            r matches Err(e) ==> e == Error::NotSupported,
    {
        Err(Error::NotSupported)
    }

    /// Routes one decoded operation, with the resolved caller
    /// identity, to the registry core.
    pub fn execute(&mut self, sender: &Addr, msg: ExecuteMsg) -> (r: Result<Outcome, Error>)
        requires
            old(self).wf(),
        ensures
            final(self).wf(),
            final(self).state == old(self).state,
            r is Err ==> final(self).contents() == old(self).contents(),
            msg matches ExecuteMsg::Transfer { recipient, token_id } ==> ((r is Ok
                <==> transfer_base_error(old(self).contents(), sender@, token_id) is None) && (
            r is Ok ==> final(self).contents() == transfer_model(
                old(self).contents(),
                sender@,
                recipient@,
                token_id,
            ))),
            msg matches ExecuteMsg::TransferFrom { sender: from, recipient, token_id } ==> ((
            r is Ok <==> (transfer_base_error(old(self).contents(), from@, token_id) is None
                && allowance_error(old(self).contents(), token_id, sender@) is None)) && (r is Ok
                ==> final(self).contents() == transfer_model(
                old(self).contents(),
                from@,
                recipient@,
                token_id,
            ))),
            msg matches ExecuteMsg::Approve { recipient, token_id } ==> ((r is Ok <==> old(self).owner_rec(token_id) == Some(sender@)) && (r is Ok ==> final(self).contents()
                == approve_model(old(self).contents(), token_id, recipient@))),
            msg matches ExecuteMsg::ApproveForAll { owner, recipient } ==> (r is Err && final(self).contents() == old(self).contents()),
            msg matches ExecuteMsg::Mint {  } ==> (r is Ok && (r matches Ok(o) ==> (
            o matches Outcome::Minted { owner: ow, token_id: t } && ow@ == sender@ && t.0 as nat
                == old(self).minted().len() && final(self).contents() == mint_model(
                old(self).contents(),
                sender@,
                t.0,
            )))),
    {
        match msg {
            ExecuteMsg::Transfer { recipient, token_id } => self.transfer(
                sender,
                &recipient,
                token_id,
            ),
            ExecuteMsg::TransferFrom { sender: from, recipient, token_id } => self.transfer_from(
                sender,
                &from,
                &recipient,
                token_id,
            ),
            ExecuteMsg::Approve { recipient, token_id } => self.approve(
                sender,
                &recipient,
                token_id,
            ),
            ExecuteMsg::ApproveForAll { owner, recipient } => self.approve_for_all(
                &owner,
                &recipient,
            ),
            ExecuteMsg::Mint {  } => {
                let token_id = self.mint(sender);
                Ok(Outcome::Minted { owner: sender.dup(), token_id })
            },
        }
    }

    // -----------------------------------------------------------------
    // Query layer
    // -----------------------------------------------------------------

    /// How many tokens the owner currently holds.
    pub fn balance(&self, address: &Addr) -> (r: usize)
        ensures
            r == self.tokens(address@).len(),
    {
        let token_id_set = self.read_owner_tokens_store(address);
        token_id_set.len()
    }

    /// The current owner of the id; None if never minted.
    pub fn owner_of(&self, value: u128) -> (r: Option<Addr>)
        ensures
            r is Some <==> self.owner_rec(value) is Some,
            r matches Some(a) ==> self.owner_rec(value) == Some(a@),
    {
        self.read_token_owner_store(&TokenId::new(value))
    }

    /// The active delegate of the id; None if no approval was
    /// recorded.
    pub fn allowance_of(&self, value: u128) -> (r: Option<Addr>)
        ensures
            r is Some <==> self.approval_rec(value) is Some,
            r matches Some(a) ==> self.approval_rec(value) == Some(a@),
    {
        self.read_token_approvals_store(&TokenId::new(value))
    }

    /// Answers one read-only query.
    pub fn query(&self, msg: QueryMsg) -> (r: QueryAnswer)
        ensures
            msg matches QueryMsg::Balance { address } ==> (r matches QueryAnswer::Balance(n)
                && n == self.tokens(address@).len()),
            msg matches QueryMsg::Owner { token_id } ==> (r matches QueryAnswer::Owner(o) && (
            o is Some <==> self.owner_rec(token_id) is Some) && (o matches Some(a)
                ==> self.owner_rec(token_id) == Some(a@))),
            msg matches QueryMsg::Allowance { token_id } ==> (r matches QueryAnswer::Allowance(o)
                && (o is Some <==> self.approval_rec(token_id) is Some) && (o matches Some(a)
                ==> self.approval_rec(token_id) == Some(a@))),
    {
        match msg {
            QueryMsg::Balance { address } => QueryAnswer::Balance(self.balance(&address)),
            QueryMsg::Owner { token_id } => QueryAnswer::Owner(self.owner_of(token_id)),
            QueryMsg::Allowance { token_id } => QueryAnswer::Allowance(self.allowance_of(token_id)),
        }
    }
}

} // verus!
