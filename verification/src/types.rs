//! Plain data carried across the registry boundary: addresses, token
//! identifiers, the immutable configuration, the operation and query
//! messages, and the error taxonomy.

use vstd::prelude::*;
use vstd::string::StringExecFns;

verus! {

/// An opaque holder identity, carried as its canonical byte form.
/// The registry never creates or destroys identities; it only records
/// them in its indices.
#[derive(Clone, Debug, PartialEq, Eq)]
pub struct Addr {
    pub bytes: Vec<u8>,
}

impl View for Addr {
    type V = Seq<u8>;

    open spec fn view(&self) -> Seq<u8> {
        self.bytes@
    }
}

impl Addr {
    pub fn new(bytes: Vec<u8>) -> (r: Addr)
        ensures
            r@ == bytes@,
    {
        Addr { bytes }
    }

    /// A copy of this address.
    pub fn dup(&self) -> (r: Addr)
        ensures
            r@ == self@,
    {
        Addr { bytes: vstd::slice::slice_to_vec(self.bytes.as_slice()) }
    }
}

/// The unique, sequentially assigned handle of one token.
#[derive(Clone, Copy, Debug, PartialEq, Eq, Structural)]
pub struct TokenId(pub u128);

/// The character for one decimal digit.
pub open spec fn spec_digit(d: u128) -> char {
    if d == 0 {
        '0'
    } else if d == 1 {
        '1'
    } else if d == 2 {
        '2'
    } else if d == 3 {
        '3'
    } else if d == 4 {
        '4'
    } else if d == 5 {
        '5'
    } else if d == 6 {
        '6'
    } else if d == 7 {
        '7'
    } else if d == 8 {
        '8'
    } else {
        '9'
    }
}

/// The decimal form of a number: its digits in order, with no sign
/// and no leading zero except for zero itself.
pub open spec fn dec_str(n: u128) -> Seq<char>
    decreases n,
{
    if n < 10 {
        seq![spec_digit(n)]
    } else {
        dec_str((n / 10) as u128).push(spec_digit((n % 10) as u128))
    }
}

/// Appends one decimal digit's character.
fn push_digit(s: &mut String, d: u128)
    requires
        d < 10,
    ensures
        final(s)@ == old(s)@.push(spec_digit(d)),
{
    proof {
        reveal_strlit("0");
        reveal_strlit("1");
        reveal_strlit("2");
        reveal_strlit("3");
        reveal_strlit("4");
        reveal_strlit("5");
        reveal_strlit("6");
        reveal_strlit("7");
        reveal_strlit("8");
        reveal_strlit("9");
    }
    if d == 0 {
        s.append("0");
    } else if d == 1 {
        s.append("1");
    } else if d == 2 {
        s.append("2");
    } else if d == 3 {
        s.append("3");
    } else if d == 4 {
        s.append("4");
    } else if d == 5 {
        s.append("5");
    } else if d == 6 {
        s.append("6");
    } else if d == 7 {
        s.append("7");
    } else if d == 8 {
        s.append("8");
    } else {
        s.append("9");
    }
    proof {
        assert(final(s)@ =~= old(s)@.push(spec_digit(d)));
    }
}

/// Appends the decimal form of the number.
fn push_dec(s: &mut String, n: u128)
    ensures
        final(s)@ == old(s)@ + dec_str(n),
    decreases n,
{
    if n >= 10 {
        push_dec(s, n / 10);
    }
    push_digit(s, n % 10);
    proof {
        assert(final(s)@ =~= old(s)@ + dec_str(n));
    }
}

impl TokenId {
    pub fn new(v: u128) -> (r: TokenId)
        ensures
            r.0 == v,
    {
        TokenId(v)
    }

    pub fn as_u128(&self) -> (r: u128)
        ensures
            r == self.0,
    {
        self.0
    }

    /// The canonical storage bytes of this id: its fixed-width
    /// little-endian form, used within the token-keyed tables.
    pub fn as_bytes(&self) -> (r: Vec<u8>)
        ensures
            r@ == vstd::bytes::spec_u128_to_le_bytes(self.0),
    {
        vstd::bytes::u128_to_le_bytes(self.0)
    }

    /// The decimal form of this id, as event attributes carry it.
    pub fn to_string(&self) -> (r: String)
        ensures
            r@ == dec_str(self.0),
    {
        let mut s = String::new();
        push_dec(&mut s, self.0);
        s
    }
}

/// Registry-wide immutable configuration, validated once at creation.
#[derive(Clone, Debug, PartialEq, Eq)]
pub struct State {
    pub name: String,
    pub symbol: String,
}

/// Creation parameters for a registry.
#[derive(Clone, Debug, PartialEq, Eq)]
pub struct InstantiateMsg {
    pub name: String,
    pub symbol: String,
}

/// A decoded caller intent, routed to one registry operation.
#[derive(Clone, Debug, PartialEq, Eq)]
pub enum ExecuteMsg {
    Transfer { recipient: Addr, token_id: u128 },
    TransferFrom { sender: Addr, recipient: Addr, token_id: u128 },
    Approve { recipient: Addr, token_id: u128 },
    ApproveForAll { owner: Addr, recipient: Addr },
    Mint {},
}

/// A decoded read-only query.
#[derive(Clone, Debug, PartialEq, Eq)]
pub enum QueryMsg {
    Balance { address: Addr },
    Owner { token_id: u128 },
    Allowance { token_id: u128 },
}

/// The structured outcome of one successful mutating operation; the
/// dispatcher turns it into event attributes.
#[derive(Clone, Debug, PartialEq, Eq)]
pub enum Outcome {
    Minted { owner: Addr, token_id: TokenId },
    Transferred { sender: Addr, recipient: Addr, token_id: TokenId },
    Approved { owner: Addr, recipient: Addr, token_id: TokenId },
}

/// The answer to one read-only query.
#[derive(Clone, Debug, PartialEq, Eq)]
pub enum QueryAnswer {
    Balance(usize),
    Owner(Option<Addr>),
    Allowance(Option<Addr>),
}

/// Terminal validation failures; every operation either succeeds or
/// reports exactly one of these, with no persisted effect.
#[derive(Clone, Copy, Debug, PartialEq, Eq, Structural)]
pub enum Error {
    /// Creation-time length constraint on the name violated.
    InvalidNameFormat,
    /// Creation-time length constraint on the symbol violated.
    InvalidSymbolFormat,
    /// The referenced id exceeds the highest minted id.
    TokenNotFound,
    /// No owner recorded for an id expected to have one.
    OwnerNotFound,
    /// The caller-asserted owner does not match the recorded owner.
    InvalidOwner,
    /// No approval recorded where one was required.
    AllowanceNotFound,
    /// The caller-asserted delegate does not match the recorded approval.
    InvalidAllowance,
    /// The operation is declared in the message surface but has no
    /// semantics in this registry.
    NotSupported,
}

} // verus!
