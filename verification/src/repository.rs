//! Saving and loading records by identifier.

use crate::error::ContractError;
use crate::keys::{thread_elem_key, thread_elem_key_spec, thread_key, thread_key_spec};
use crate::ledger::load_thread_spec;
use crate::state::{
    lemma_parse_thread_of_bytes, lemma_thread_elem_bytes_len, thread_bytes, thread_elem_bytes,
    thread_elem_fits, thread_fits, Thread, ThreadElem,
};
use crate::store::{entries, storage_get, storage_set};
use cosmwasm_std::MemoryStorage;
use vstd::prelude::*;

verus! {

/// Writes `thread` under `id`, over whatever was stored there.
pub fn save_thread(store: &mut MemoryStorage, id: u64, thread: &Thread)
    ensures
        entries(*final(store)) == entries(*old(store)).insert(
            thread_key_spec(id),
            thread_bytes(thread@),
        ),
        thread_fits(thread@),
{
    let key = thread_key(id);
    let value = thread.to_bytes();
    proof {
        lemma_parse_thread_of_bytes(thread@);
    }
    storage_set(store, key.as_slice(), value.as_slice());
}

/// Writes `elem` under the pair `(thread_id, elem_id)`, over whatever was
/// stored there.
pub fn save_thread_elem(store: &mut MemoryStorage, thread_id: u64, elem_id: u64, elem: &ThreadElem)
    ensures
        entries(*final(store)) == entries(*old(store)).insert(
            thread_elem_key_spec(thread_id, elem_id),
            thread_elem_bytes(elem@),
        ),
        thread_elem_fits(elem@),
{
    let key = thread_elem_key(thread_id, elem_id);
    let value = elem.to_bytes();
    proof {
        lemma_thread_elem_bytes_len(elem@);
    }
    storage_set(store, key.as_slice(), value.as_slice());
}

/// Reads the thread stored under `id`: `NotFound` where nothing is stored
/// there, `InvalidData` where what is stored is not a thread.
pub fn load_thread(store: &MemoryStorage, id: u64) -> (r: Result<Thread, ContractError>)
    ensures
        (match load_thread_spec(entries(*store), id) {
            Ok(thread) => r is Ok && r->Ok_0@ == thread,
            Err(e) => r is Err && r->Err_0 == e,
        }),
{
    let key = thread_key(id);
    match storage_get(store, key.as_slice()) {
        None => Err(ContractError::NotFound),
        Some(bytes) => match Thread::from_bytes(bytes.as_slice()) {
            Some(thread) => Ok(thread),
            None => Err(ContractError::InvalidData),
        },
    }
}

} // verus!
