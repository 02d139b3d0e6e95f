//! The requests themselves: setting the ledger up, creating threads and
//! elements, and reading a thread back.

use crate::codec::{decode_u64, encode_u64};
use crate::error::ContractError;
use crate::keys::{
    thread_count_key, thread_count_key_spec, thread_elem_count_key, thread_elem_count_key_spec,
};
use crate::ledger::{
    advance_spec, counter_at, execute_spec, next_id, query_spec, thread_count, thread_elem_count,
};
use crate::msg::{request_fits, ExecuteMsg, InstantiateMsg, MessageInfo, QueryMsg};
use crate::order::{lemma_advance, lemma_execute_keeps_well_formed, well_formed};
use crate::repository::{load_thread, save_thread, save_thread_elem};
use crate::state::{Thread, ThreadElem};
use crate::store::{entries, storage_get, storage_set};
use cosmwasm_std::MemoryStorage;
use vstd::prelude::*;

verus! {

/// Sets the ledger up. There is nothing to set up: an empty store already is
/// a ledger without threads.
pub fn instantiate(
    store: &mut MemoryStorage,
    _info: MessageInfo,
    _msg: InstantiateMsg,
) -> (r: Result<(), ContractError>)
    ensures
        r is Ok,
        entries(*final(store)) == entries(*old(store)),
{
    Ok(())
}

/// Carries out a state-changing request of `info.sender`. Either the request
/// takes effect as a whole, or it fails and the store is as before. A
/// request whose counter is at `u64::MAX` fails with `CounterOverflow`. A
/// ledger in good order stays in good order.
pub fn execute(store: &mut MemoryStorage, info: MessageInfo, msg: ExecuteMsg) -> (r: Result<
    (),
    ContractError,
>)
    ensures
        (match execute_spec(entries(*old(store)), info.sender@, msg@) {
            Ok(after) => r is Ok && entries(*final(store)) == after,
            Err(e) => r == Err::<(), ContractError>(e) && entries(*final(store)) == entries(
                *old(store),
            ),
        }),
        msg is CreateThread && thread_count(entries(*old(store))) == Some(u64::MAX) ==> r == Err::<
            (),
            ContractError,
        >(ContractError::CounterOverflow),
        msg is CreateThreadElem && thread_elem_count(entries(*old(store)), msg->thread_id) == Some(
            u64::MAX,
        ) ==> r == Err::<(), ContractError>(ContractError::CounterOverflow),
        r is Ok ==> request_fits(info.sender@, msg@),
        well_formed(entries(*old(store))) ==> well_formed(entries(*final(store))),
{
    match msg {
        ExecuteMsg::CreateThread { title, description } => {
            let id = advance_posts_count(store)?;
            save_thread(store, id, &Thread { title, description, author: info.sender });
        },
        ExecuteMsg::CreateThreadElem { thread_id, content } => {
            let subthread_id = advance_subthread_count(store, thread_id)?;
            save_thread_elem(
                store,
                thread_id,
                subthread_id,
                &ThreadElem { content, author: info.sender },
            );
        },
    }
    proof {
        if well_formed(entries(*old(store))) {
            lemma_execute_keeps_well_formed(entries(*old(store)), info.sender@, msg@);
        }
    }
    Ok(())
}

/// Answers a read-only request.
pub fn query(store: &MemoryStorage, msg: QueryMsg) -> (r: Result<Thread, ContractError>)
    ensures
        (match query_spec(entries(*store), msg) {
            Ok(thread) => r is Ok && r->Ok_0@ == thread,
            Err(e) => r is Err && r->Err_0 == e,
        }),
{
    match msg {
        QueryMsg::Thread { id } => load_thread(store, id),
    }
}

/// Gives out the next identifier of the counter kept under `key`: one more
/// than its value, which is then stored. A counter at `u64::MAX` gives out
/// nothing, fails with `CounterOverflow` and stays as it is; one that cannot
/// be read fails with `InvalidData`.
pub fn advance(store: &mut MemoryStorage, key: &[u8]) -> (r: Result<u64, ContractError>)
    ensures
        r == next_id(entries(*old(store)), key@),
        (match advance_spec(entries(*old(store)), key@) {
            Ok(after) => entries(*final(store)) == after,
            Err(_) => entries(*final(store)) == entries(*old(store)),
        }),
        r is Ok ==> counter_at(entries(*final(store)), key@) == Some(r->Ok_0),
{
    proof {
        if advance_spec(entries(*old(store)), key@) is Ok {
            lemma_advance(entries(*old(store)), key@);
        }
    }
    let lhs: u64 = match storage_get(store, key) {
        None => 0,
        Some(bytes) => match decode_u64(bytes.as_slice()) {
            Some(value) => value,
            None => {
                return Err(ContractError::InvalidData);
            },
        },
    };
    match lhs.checked_add(1) {
        Some(id) => {
            let value = encode_u64(id);
            storage_set(store, key, value.as_slice());
            Ok(id)
        },
        None => Err(ContractError::CounterOverflow),
    }
}

/// Gives out the identifier of the next thread: the thread counter plus one,
/// which becomes the thread counter.
pub fn advance_posts_count(store: &mut MemoryStorage) -> (r: Result<u64, ContractError>)
    ensures
        r == next_id(entries(*old(store)), thread_count_key_spec()),
        (match advance_spec(entries(*old(store)), thread_count_key_spec()) {
            Ok(after) => entries(*final(store)) == after,
            Err(_) => entries(*final(store)) == entries(*old(store)),
        }),
        thread_count(entries(*old(store))) == Some(u64::MAX) ==> r == Err::<u64, ContractError>(
            ContractError::CounterOverflow,
        ),
        r is Ok ==> thread_count(entries(*final(store))) == Some(r->Ok_0),
{
    let key = thread_count_key();
    advance(store, key.as_slice())
}

/// Gives out the identifier of the next element of thread `thread_id`: the
/// element counter of that thread plus one, which becomes that counter.
pub fn advance_subthread_count(store: &mut MemoryStorage, thread_id: u64) -> (r: Result<
    u64,
    ContractError,
>)
    ensures
        r == next_id(entries(*old(store)), thread_elem_count_key_spec(thread_id)),
        (match advance_spec(entries(*old(store)), thread_elem_count_key_spec(thread_id)) {
            Ok(after) => entries(*final(store)) == after,
            Err(_) => entries(*final(store)) == entries(*old(store)),
        }),
        thread_elem_count(entries(*old(store)), thread_id) == Some(u64::MAX) ==> r == Err::<
            u64,
            ContractError,
        >(ContractError::CounterOverflow),
        r is Ok ==> thread_elem_count(entries(*final(store)), thread_id) == Some(r->Ok_0),
{
    let key = thread_elem_count_key(thread_id);
    advance(store, key.as_slice())
}

} // verus!
