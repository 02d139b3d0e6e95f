//! The key-value store that the ledger lives in: `cosmwasm_std::MemoryStorage`,
//! seen by the verifier as a map from byte keys to byte values.

use cosmwasm_std::{MemoryStorage, Storage};
use vstd::prelude::*;

verus! {

/// Declares `cosmwasm_std::MemoryStorage` to the verifier, which sees nothing
/// inside it: all it knows of a store is what `entries` and the two calls
/// below say.
#[verifier::external_type_specification]
#[verifier::external_body]
pub struct ExMemoryStorage(MemoryStorage);

/// The entries that a store holds.
pub uninterp spec fn entries(store: MemoryStorage) -> Map<Seq<u8>, Seq<u8>>;

/// Calls `Storage::get` of `MemoryStorage`. Trusted: it returns a copy of the
/// value stored under `key`, and `None` where the store has no such key.
#[verifier::external_body]
pub(crate) fn storage_get(store: &MemoryStorage, key: &[u8]) -> (value: Option<Vec<u8>>)
    ensures
        value is Some <==> entries(*store).dom().contains(key@),
        value is Some ==> value->0@ == entries(*store)[key@],
{
    store.get(key)
}

/// Calls `Storage::set` of `MemoryStorage`, which panics on an empty value.
/// Trusted: it puts `value` under `key`, replacing what was there, and leaves
/// every other entry alone.
#[verifier::external_body]
pub(crate) fn storage_set(store: &mut MemoryStorage, key: &[u8], value: &[u8])
    requires
        value@.len() > 0,
    ensures
        entries(*final(store)) == entries(*old(store)).insert(key@, value@),
{
    store.set(key, value)
}

} // verus!
