//! The ledger as mathematics: what the entries of a store mean, and what each
//! request makes of them.

use crate::codec::{be_bytes, be_value};
use crate::error::ContractError;
use crate::keys::{
    thread_count_key_spec, thread_elem_count_key_spec, thread_elem_key_spec, thread_key_spec,
};
use crate::msg::{ExecuteMsgView, QueryMsg};
use crate::state::{parse_thread, thread_bytes, thread_elem_bytes, ThreadElemView, ThreadView};
use vstd::prelude::*;

verus! {

/// The entries of a store.
pub type Entries = Map<Seq<u8>, Seq<u8>>;

/// The value of the counter kept under `key`: zero while nothing is stored
/// there, `None` where what is stored is not an encoded integer.
pub open spec fn counter_at(m: Entries, key: Seq<u8>) -> Option<u64> {
    if !m.dom().contains(key) {
        Some(0)
    } else if m[key].len() == 8 {
        Some(be_value(m[key]))
    } else {
        None
    }
}

/// How many threads were ever created: the identifier given out last.
pub open spec fn thread_count(m: Entries) -> Option<u64> {
    counter_at(m, thread_count_key_spec())
}

/// How many elements were ever created under `thread_id`.
pub open spec fn thread_elem_count(m: Entries, thread_id: u64) -> Option<u64> {
    counter_at(m, thread_elem_count_key_spec(thread_id))
}

/// The identifier that the counter under `key` gives out next: its value
/// plus one. A counter at `u64::MAX` gives out nothing, and neither does one
/// that cannot be read.
pub open spec fn next_id(m: Entries, key: Seq<u8>) -> Result<u64, ContractError> {
    match counter_at(m, key) {
        None => Err(ContractError::InvalidData),
        Some(current) => if current == u64::MAX {
            Err(ContractError::CounterOverflow)
        } else {
            Ok((current + 1) as u64)
        },
    }
}

/// Advancing the counter under `key`: the identifier it gives out is stored
/// as its new value.
pub open spec fn advance_spec(m: Entries, key: Seq<u8>) -> Result<Entries, ContractError> {
    match next_id(m, key) {
        Ok(id) => Ok(m.insert(key, be_bytes(id))),
        Err(e) => Err(e),
    }
}

/// Creating a thread: the thread counter is advanced and the record is
/// stored under the identifier it gave out.
pub open spec fn create_thread_spec(m: Entries, thread: ThreadView) -> Result<
    Entries,
    ContractError,
> {
    match next_id(m, thread_count_key_spec()) {
        Ok(id) => Ok(
            m.insert(thread_count_key_spec(), be_bytes(id)).insert(
                thread_key_spec(id),
                thread_bytes(thread),
            ),
        ),
        Err(e) => Err(e),
    }
}

/// Creating an element: the element counter of `thread_id` is advanced and
/// the record is stored under the pair of `thread_id` and the identifier it
/// gave out.
pub open spec fn create_thread_elem_spec(
    m: Entries,
    thread_id: u64,
    elem: ThreadElemView,
) -> Result<Entries, ContractError> {
    match next_id(m, thread_elem_count_key_spec(thread_id)) {
        Ok(id) => Ok(
            m.insert(thread_elem_count_key_spec(thread_id), be_bytes(id)).insert(
                thread_elem_key_spec(thread_id, id),
                thread_elem_bytes(elem),
            ),
        ),
        Err(e) => Err(e),
    }
}

/// What a state-changing request sent by `sender` makes of the entries `m`.
pub open spec fn execute_spec(m: Entries, sender: Seq<char>, msg: ExecuteMsgView) -> Result<
    Entries,
    ContractError,
> {
    match msg {
        ExecuteMsgView::CreateThread { title, description } => create_thread_spec(
            m,
            ThreadView { title, description, author: sender },
        ),
        ExecuteMsgView::CreateThreadElem { thread_id, content } => create_thread_elem_spec(
            m,
            thread_id,
            ThreadElemView { content, author: sender },
        ),
    }
}

/// The thread stored under `id`.
pub open spec fn load_thread_spec(m: Entries, id: u64) -> Result<ThreadView, ContractError> {
    if !m.dom().contains(thread_key_spec(id)) {
        Err(ContractError::NotFound)
    } else {
        match parse_thread(m[thread_key_spec(id)]) {
            Some(thread) => Ok(thread),
            None => Err(ContractError::InvalidData),
        }
    }
}

/// The answer to a read-only request.
pub open spec fn query_spec(m: Entries, msg: QueryMsg) -> Result<ThreadView, ContractError> {
    match msg {
        QueryMsg::Thread { id } => load_thread_spec(m, id),
    }
}

} // verus!
