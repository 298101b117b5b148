//! The backing key-value store, supplied by the host environment.
//!
//! The registry keeps all four index tables in one byte-keyed store
//! with get/set/may-be-absent semantics.  The store itself is an
//! outside collaborator; these wrappers state its behaviour as a map
//! from byte keys to byte values, and everything above them is
//! verified against that statement.

use vstd::prelude::*;
use cosmwasm_std::MemoryStorage;
use cosmwasm_std::Storage;

verus! {

#[verifier::external_type_specification]
#[verifier::external_body]
pub struct ExMemoryStorage(MemoryStorage);

/// The contents of the store: which byte value each byte key holds.
pub uninterp spec fn kv_view(s: MemoryStorage) -> Map<Seq<u8>, Seq<u8>>;

/// The contents of a store that holds no entries.
pub open spec fn kv_empty() -> Map<Seq<u8>, Seq<u8>> {
    Map::empty()
}

/// Relies on cosmwasm_std::MemoryStorage::new: a freshly created
/// store holds no entries.
#[verifier::external_body]
pub(crate) fn kv_new() -> (r: MemoryStorage)
    ensures
        kv_view(r) == kv_empty(),
{
    MemoryStorage::new()
}

/// Relies on cosmwasm_std::Storage::get on a MemoryStorage: it returns
/// a copy of the value stored under the key, or None if the key holds
/// nothing.
#[verifier::external_body]
pub(crate) fn kv_get(s: &MemoryStorage, key: &Vec<u8>) -> (r: Option<Vec<u8>>)
    ensures
        kv_view(*s).dom().contains(key@) <==> r is Some,
        r matches Some(v) ==> v@ == kv_view(*s)[key@],
{
    s.get(key.as_slice())
}

/// Relies on cosmwasm_std::Storage::set on a MemoryStorage: it
/// overwrites the value stored under the key.  It refuses an empty
/// value, so callers only hand it framed, non-empty values.
#[verifier::external_body]
pub(crate) fn kv_set(s: &mut MemoryStorage, key: &Vec<u8>, value: &Vec<u8>)
    requires
        value@.len() > 0,
    ensures
        kv_view(*final(s)) == kv_view(*old(s)).insert(key@, value@),
{
    s.set(key.as_slice(), value.as_slice())
}

} // verus!
