//! Ledgers over time: what a whole sequence of requests, made one after the
//! other, leaves behind.

use crate::error::ContractError;
use crate::keys::{thread_elem_key_spec, thread_key_spec};
use crate::ledger::{
    execute_spec, load_thread_spec, query_spec, thread_count, thread_elem_count, Entries,
};
use crate::msg::{request_fits, ExecuteMsgView, QueryMsg};
use crate::order::{
    lemma_create_thread, lemma_create_thread_elem, lemma_empty_well_formed,
    lemma_execute_keeps_well_formed, lemma_execute_outcome, lemma_found_iff_assigned,
    well_formed,
};
use crate::state::{thread_elem_bytes, ThreadElemView, ThreadView};
use vstd::prelude::*;

verus! {

/// One state-changing request and who sent it.
pub struct Call {
    pub sender: Seq<char>,
    pub msg: ExecuteMsgView,
}

/// The thread that `call` asks for, where it asks for one.
pub open spec fn thread_of(call: Call) -> ThreadView {
    ThreadView {
        title: call.msg->title,
        description: call.msg->description,
        author: call.sender,
    }
}

/// The element that `call` asks for, where it asks for one.
pub open spec fn elem_of(call: Call) -> ThreadElemView {
    ThreadElemView { content: call.msg->content, author: call.sender }
}

/// Whether the texts of every call are short enough to be framed.
pub open spec fn calls_fit(calls: Seq<Call>) -> bool {
    forall|i: int| 0 <= i < calls.len() ==> request_fits(#[trigger] calls[i].sender, calls[i].msg)
}

/// The ledger after one call: a call that fails changes nothing.
pub open spec fn step(m: Entries, call: Call) -> Entries {
    match execute_spec(m, call.sender, call.msg) {
        Ok(after) => after,
        Err(_) => m,
    }
}

/// The ledger after `calls`, made in order.
pub open spec fn run(m: Entries, calls: Seq<Call>) -> Entries
    decreases calls.len(),
{
    if calls.len() == 0 {
        m
    } else {
        step(run(m, calls.drop_last()), calls.last())
    }
}

/// Whether `call`, made on `m`, creates a thread.
pub open spec fn creates_thread(m: Entries, call: Call) -> bool {
    call.msg is CreateThread && execute_spec(m, call.sender, call.msg) is Ok
}

/// Whether `call`, made on `m`, creates an element under `thread_id`.
pub open spec fn creates_elem(m: Entries, call: Call, thread_id: u64) -> bool {
    &&& call.msg is CreateThreadElem
    &&& call.msg->thread_id == thread_id
    &&& execute_spec(m, call.sender, call.msg) is Ok
}

/// How many of `calls`, made in order from `m`, create a thread.
pub open spec fn threads_created(m: Entries, calls: Seq<Call>) -> nat
    decreases calls.len(),
{
    if calls.len() == 0 {
        0
    } else {
        threads_created(m, calls.drop_last()) + if creates_thread(
            run(m, calls.drop_last()),
            calls.last(),
        ) {
            1nat
        } else {
            0nat
        }
    }
}

/// How many of `calls`, made in order from `m`, create an element under
/// `thread_id`.
pub open spec fn elems_created(m: Entries, calls: Seq<Call>, thread_id: u64) -> nat
    decreases calls.len(),
{
    if calls.len() == 0 {
        0
    } else {
        elems_created(m, calls.drop_last(), thread_id) + if creates_elem(
            run(m, calls.drop_last()),
            calls.last(),
            thread_id,
        ) {
            1nat
        } else {
            0nat
        }
    }
}

/// One call on a ledger in good order. The ledger stays in good order; the
/// thread counter goes up by one if the call creates a thread and the
/// element counter of a thread goes up by one if the call creates an element
/// under it, and no counter changes otherwise; no record that was there is
/// changed.
pub proof fn lemma_step(m: Entries, call: Call)
    requires
        well_formed(m),
        request_fits(call.sender, call.msg),
    ensures
        well_formed(step(m, call)),
        thread_count(step(m, call))->0 == thread_count(m)->0 + if creates_thread(m, call) {
            1int
        } else {
            0int
        },
        forall|t: u64|
            (#[trigger] thread_elem_count(step(m, call), t))->0 == thread_elem_count(m, t)->0
                + if creates_elem(m, call, t) {
                1int
            } else {
                0int
            },
        forall|id: u64|
            1 <= id <= thread_count(m)->0 ==> step(m, call)[#[trigger] thread_key_spec(id)]
                == m[thread_key_spec(id)],
        forall|t: u64, e: u64|
            1 <= e <= thread_elem_count(m, t)->0 ==> step(m, call)[#[trigger] thread_elem_key_spec(
                t,
                e,
            )] == m[thread_elem_key_spec(t, e)],
{
    reveal(well_formed);
    if execute_spec(m, call.sender, call.msg) is Ok {
        lemma_execute_keeps_well_formed(m, call.sender, call.msg);
        match call.msg {
            ExecuteMsgView::CreateThread { title, description } => {
                lemma_create_thread(m, ThreadView { title, description, author: call.sender });
            },
            ExecuteMsgView::CreateThreadElem { thread_id, content } => {
                lemma_create_thread_elem(
                    m,
                    thread_id,
                    ThreadElemView { content, author: call.sender },
                );
            },
        }
    }
}

/// Any sequence of calls on a ledger in good order. The ledger stays in good
/// order; each counter has gone up by the number of calls that created
/// something under it, and by nothing else; no record that was there at the
/// start has changed.
pub proof fn lemma_run(m: Entries, calls: Seq<Call>)
    requires
        well_formed(m),
        calls_fit(calls),
    ensures
        well_formed(run(m, calls)),
        thread_count(run(m, calls))->0 == thread_count(m)->0 + threads_created(m, calls),
        forall|t: u64|
            (#[trigger] thread_elem_count(run(m, calls), t))->0 == thread_elem_count(m, t)->0
                + elems_created(m, calls, t),
        forall|id: u64|
            1 <= id <= thread_count(m)->0 ==> run(m, calls)[#[trigger] thread_key_spec(id)]
                == m[thread_key_spec(id)],
        forall|t: u64, e: u64|
            1 <= e <= thread_elem_count(m, t)->0 ==> run(m, calls)[#[trigger] thread_elem_key_spec(
                t,
                e,
            )] == m[thread_elem_key_spec(t, e)],
    decreases calls.len(),
{
    if calls.len() > 0 {
        let earlier = calls.drop_last();
        let before = run(m, earlier);
        assert(calls_fit(earlier)) by {
            assert forall|i: int| 0 <= i < earlier.len() implies request_fits(
                #[trigger] earlier[i].sender,
                earlier[i].msg,
            ) by {
                assert(earlier[i] == calls[i]);
            }
        }
        lemma_run(m, earlier);
        lemma_step(before, calls.last());
        assert forall|t: u64|
            (#[trigger] thread_elem_count(run(m, calls), t))->0 == thread_elem_count(m, t)->0
                + elems_created(m, calls, t) by {
            assert(thread_elem_count(before, t)->0 == thread_elem_count(m, t)->0 + elems_created(
                m,
                earlier,
                t,
            ));
        }
        assert forall|t: u64, e: u64| 1 <= e <= thread_elem_count(m, t)->0 implies run(
            m,
            calls,
        )[#[trigger] thread_elem_key_spec(t, e)] == m[thread_elem_key_spec(t, e)] by {
            assert(thread_elem_count(before, t)->0 == thread_elem_count(m, t)->0 + elems_created(
                m,
                earlier,
                t,
            ));
        }
    }
}

/// The first calls of a sequence whose texts can be framed can be framed.
proof fn lemma_earlier_calls_fit(calls: Seq<Call>)
    requires
        calls_fit(calls),
        calls.len() > 0,
    ensures
        calls_fit(calls.drop_last()),
        request_fits(calls.last().sender, calls.last().msg),
{
    let earlier = calls.drop_last();
    assert forall|k: int| 0 <= k < earlier.len() implies request_fits(
        #[trigger] earlier[k].sender,
        earlier[k].msg,
    ) by {
        assert(earlier[k] == calls[k]);
    }
}

/// The thread counter after a sequence of calls.
proof fn lemma_run_thread_count(m: Entries, calls: Seq<Call>)
    requires
        well_formed(m),
        calls_fit(calls),
    ensures
        well_formed(run(m, calls)),
        thread_count(run(m, calls))->0 == thread_count(m)->0 + threads_created(m, calls),
{
    lemma_run(m, calls);
}

/// The element counter of one thread after a sequence of calls.
proof fn lemma_run_elem_count(m: Entries, calls: Seq<Call>, thread_id: u64)
    requires
        well_formed(m),
        calls_fit(calls),
    ensures
        well_formed(run(m, calls)),
        thread_elem_count(run(m, calls), thread_id)->0 == thread_elem_count(m, thread_id)->0
            + elems_created(m, calls, thread_id),
{
    lemma_run(m, calls);
}

/// A call that creates a thread stores it under the identifier that follows
/// the thread counter.
proof fn lemma_step_stores_thread(m: Entries, call: Call)
    requires
        well_formed(m),
        request_fits(call.sender, call.msg),
        creates_thread(m, call),
    ensures
        thread_count(m)->0 < u64::MAX,
        thread_count(step(m, call)) == Some((thread_count(m)->0 + 1) as u64),
        load_thread_spec(step(m, call), (thread_count(m)->0 + 1) as u64) == Ok::<
            ThreadView,
            ContractError,
        >(thread_of(call)),
{
    reveal(well_formed);
    lemma_create_thread(m, thread_of(call));
}

/// One call leaves a thread that was there where it was, and never lowers
/// the thread counter.
proof fn lemma_step_keeps_thread(m: Entries, call: Call, id: u64)
    requires
        well_formed(m),
        request_fits(call.sender, call.msg),
        1 <= id <= thread_count(m)->0,
    ensures
        id <= thread_count(step(m, call))->0,
        load_thread_spec(step(m, call), id) == load_thread_spec(m, id),
{
    reveal(well_formed);
    lemma_step(m, call);
    assert(m.dom().contains(thread_key_spec(id)));
    assert(step(m, call).dom().contains(thread_key_spec(id)));
}

/// A call that creates an element under `thread_id` stores it under the
/// identifier that follows the counter of that thread.
proof fn lemma_step_stores_elem(m: Entries, call: Call, thread_id: u64)
    requires
        well_formed(m),
        creates_elem(m, call, thread_id),
    ensures
        thread_elem_count(m, thread_id)->0 < u64::MAX,
        thread_elem_count(step(m, call), thread_id) == Some(
            (thread_elem_count(m, thread_id)->0 + 1) as u64,
        ),
        step(m, call).dom().contains(
            thread_elem_key_spec(thread_id, (thread_elem_count(m, thread_id)->0 + 1) as u64),
        ),
        step(m, call)[thread_elem_key_spec(
            thread_id,
            (thread_elem_count(m, thread_id)->0 + 1) as u64,
        )] == thread_elem_bytes(elem_of(call)),
{
    reveal(well_formed);
    assert(thread_elem_count(m, thread_id) is Some);
    lemma_create_thread_elem(m, thread_id, elem_of(call));
}

/// One call leaves an element record that was there where it was, and never
/// lowers the counter of its thread.
proof fn lemma_step_keeps_elem(m: Entries, call: Call, thread_id: u64, elem_id: u64)
    requires
        well_formed(m),
        request_fits(call.sender, call.msg),
        1 <= elem_id <= thread_elem_count(m, thread_id)->0,
    ensures
        elem_id <= thread_elem_count(step(m, call), thread_id)->0,
        step(m, call).dom().contains(thread_elem_key_spec(thread_id, elem_id)),
        step(m, call)[thread_elem_key_spec(thread_id, elem_id)] == m[thread_elem_key_spec(
            thread_id,
            elem_id,
        )],
{
    reveal(well_formed);
    lemma_step(m, call);
    assert(thread_elem_count(step(m, call), thread_id)->0 >= thread_elem_count(m, thread_id)->0);
}

/// The ledger after the first `k + 1` calls is the ledger after the first
/// `k`, then call number `k`.
proof fn lemma_run_one_more(m: Entries, calls: Seq<Call>, k: int)
    requires
        0 <= k < calls.len(),
    ensures
        run(m, calls.take(k + 1)) == step(run(m, calls.take(k)), calls[k]),
        threads_created(m, calls.take(k + 1)) == threads_created(m, calls.take(k))
            + if creates_thread(run(m, calls.take(k)), calls[k]) {
            1nat
        } else {
            0nat
        },
{
    let upto = calls.take(k + 1);
    assert(upto.drop_last() =~= calls.take(k));
    assert(upto.last() == calls[k]);
}

/// The first calls of a sequence whose texts can be framed can be framed.
proof fn lemma_first_calls_fit(calls: Seq<Call>, k: int)
    requires
        calls_fit(calls),
        0 <= k <= calls.len(),
    ensures
        calls_fit(calls.take(k)),
{
    let first = calls.take(k);
    assert forall|j: int| 0 <= j < first.len() implies request_fits(
        #[trigger] first[j].sender,
        first[j].msg,
    ) by {
        assert(first[j] == calls[j]);
    }
}

/// A thread that is there after the first `k` calls is still there,
/// unchanged, after all of them.
proof fn lemma_thread_persists(m: Entries, calls: Seq<Call>, k: int, id: u64)
    requires
        well_formed(m),
        calls_fit(calls),
        0 <= k <= calls.len(),
        1 <= id <= thread_count(run(m, calls.take(k)))->0,
    ensures
        id <= thread_count(run(m, calls))->0,
        load_thread_spec(run(m, calls), id) == load_thread_spec(run(m, calls.take(k)), id),
    decreases calls.len(),
{
    if k == calls.len() {
        assert(calls.take(k) =~= calls);
    } else {
        let earlier = calls.drop_last();
        lemma_earlier_calls_fit(calls);
        assert(earlier.take(k) =~= calls.take(k));
        lemma_thread_persists(m, earlier, k, id);
        lemma_run_thread_count(m, earlier);
        lemma_step_keeps_thread(run(m, earlier), calls.last(), id);
    }
}

/// An element record that is there after the first `k` calls is still
/// there, unchanged, after all of them.
proof fn lemma_elem_persists(m: Entries, calls: Seq<Call>, k: int, thread_id: u64, elem_id: u64)
    requires
        well_formed(m),
        calls_fit(calls),
        0 <= k <= calls.len(),
        1 <= elem_id <= thread_elem_count(run(m, calls.take(k)), thread_id)->0,
        run(m, calls.take(k)).dom().contains(thread_elem_key_spec(thread_id, elem_id)),
    ensures
        elem_id <= thread_elem_count(run(m, calls), thread_id)->0,
        run(m, calls).dom().contains(thread_elem_key_spec(thread_id, elem_id)),
        run(m, calls)[thread_elem_key_spec(thread_id, elem_id)] == run(
            m,
            calls.take(k),
        )[thread_elem_key_spec(thread_id, elem_id)],
    decreases calls.len(),
{
    if k == calls.len() {
        assert(calls.take(k) =~= calls);
    } else {
        let earlier = calls.drop_last();
        lemma_earlier_calls_fit(calls);
        assert(earlier.take(k) =~= calls.take(k));
        lemma_elem_persists(m, earlier, k, thread_id, elem_id);
        lemma_run_elem_count(m, earlier, thread_id);
        lemma_step_keeps_elem(run(m, earlier), calls.last(), thread_id, elem_id);
    }
}

/// Thread identifiers are given out in call order, without gaps, and a
/// thread stays where it was put. If call number `i` creates a thread, that
/// thread gets the identifier that follows the threads already there at the
/// start and those created by the calls before it, and at the end of all the
/// calls it is still read back under that identifier.
pub proof fn lemma_thread_ids_in_call_order(m: Entries, calls: Seq<Call>, i: int)
    requires
        well_formed(m),
        calls_fit(calls),
        0 <= i < calls.len(),
        creates_thread(run(m, calls.take(i)), calls[i]),
    ensures
        ({
            let id = thread_count(m)->0 + threads_created(m, calls.take(i)) + 1;
            &&& 1 <= id <= thread_count(run(m, calls))->0
            &&& thread_count(run(m, calls.take(i + 1))) == Some(id as u64)
            &&& load_thread_spec(run(m, calls), id as u64) == Ok::<ThreadView, ContractError>(
                thread_of(calls[i]),
            )
        }),
{
    let before = run(m, calls.take(i));
    lemma_first_calls_fit(calls, i);
    lemma_run_thread_count(m, calls.take(i));
    lemma_run_one_more(m, calls, i);
    lemma_step_stores_thread(before, calls[i]);
    let id = (thread_count(before)->0 + 1) as u64;
    lemma_thread_persists(m, calls, i + 1, id);
}

/// Element identifiers are given out per thread, in call order and without
/// gaps, whatever is created under other threads in between. If call number
/// `i` creates an element under `thread_id`, that element gets the
/// identifier that follows the elements already under `thread_id` at the
/// start and those created under `thread_id` by the calls before it, and at
/// the end of all the calls its record is still stored under that pair.
pub proof fn lemma_elem_ids_in_call_order(m: Entries, calls: Seq<Call>, i: int, thread_id: u64)
    requires
        well_formed(m),
        calls_fit(calls),
        0 <= i < calls.len(),
        creates_elem(run(m, calls.take(i)), calls[i], thread_id),
    ensures
        ({
            let id = thread_elem_count(m, thread_id)->0 + elems_created(
                m,
                calls.take(i),
                thread_id,
            ) + 1;
            &&& 1 <= id <= thread_elem_count(run(m, calls), thread_id)->0
            &&& thread_elem_count(run(m, calls.take(i + 1)), thread_id) == Some(id as u64)
            &&& run(m, calls).dom().contains(thread_elem_key_spec(thread_id, id as u64))
            &&& run(m, calls)[thread_elem_key_spec(thread_id, id as u64)] == thread_elem_bytes(
                elem_of(calls[i]),
            )
        }),
{
    let before = run(m, calls.take(i));
    lemma_first_calls_fit(calls, i);
    lemma_run_elem_count(m, calls.take(i), thread_id);
    lemma_run_one_more(m, calls, i);
    lemma_step_stores_elem(before, calls[i], thread_id);
    let id = (thread_elem_count(before, thread_id)->0 + 1) as u64;
    lemma_elem_persists(m, calls, i + 1, thread_id, id);
}

/// Whether every call asks for a thread.
pub open spec fn all_create_threads(calls: Seq<Call>) -> bool {
    forall|i: int| 0 <= i < calls.len() ==> (#[trigger] calls[i]).msg is CreateThread
}

/// On a store without entries, calls that all ask for a thread all succeed,
/// as long as there are no more of them than identifiers.
proof fn lemma_fresh_threads_all_created(calls: Seq<Call>)
    requires
        calls_fit(calls),
        all_create_threads(calls),
        calls.len() <= u64::MAX,
    ensures
        well_formed(run(Map::empty(), calls)),
        threads_created(Map::empty(), calls) == calls.len(),
        thread_count(run(Map::empty(), calls)) == Some(calls.len() as u64),
    decreases calls.len(),
{
    let fresh: Entries = Map::empty();
    lemma_empty_well_formed();
    lemma_run_thread_count(fresh, calls);
    if calls.len() > 0 {
        let earlier = calls.drop_last();
        lemma_earlier_calls_fit(calls);
        assert(all_create_threads(earlier)) by {
            assert forall|k: int| 0 <= k < earlier.len() implies (#[trigger] earlier[k]).msg is CreateThread by {
                assert(earlier[k] == calls[k]);
            }
        }
        lemma_fresh_threads_all_created(earlier);
        lemma_execute_outcome(run(fresh, earlier), calls.last().sender, calls.last().msg);
        assert(calls.last().msg is CreateThread);
    }
    lemma_thread_count_readable(run(fresh, calls));
}

/// The thread counter of a ledger in good order can be read.
proof fn lemma_thread_count_readable(m: Entries)
    requires
        well_formed(m),
    ensures
        thread_count(m) is Some,
{
    reveal(well_formed);
}

/// On a store without entries, `n` calls that each ask for a thread give the
/// threads the identifiers 1 to `n`, in call order: the thread of call number
/// `i`, counted from zero, is read back under `i + 1`, and the thread counter
/// ends at `n`.
pub proof fn lemma_fresh_thread_ids(calls: Seq<Call>, i: int)
    requires
        calls_fit(calls),
        all_create_threads(calls),
        calls.len() <= u64::MAX,
        0 <= i < calls.len(),
    ensures
        thread_count(run(Map::empty(), calls)) == Some(calls.len() as u64),
        load_thread_spec(run(Map::empty(), calls), (i + 1) as u64) == Ok::<
            ThreadView,
            ContractError,
        >(thread_of(calls[i])),
{
    let fresh: Entries = Map::empty();
    let first = calls.take(i);
    lemma_empty_well_formed();
    lemma_fresh_threads_all_created(calls);
    assert(calls_fit(first) && all_create_threads(first)) by {
        assert forall|k: int| 0 <= k < first.len() implies request_fits(
            #[trigger] first[k].sender,
            first[k].msg,
        ) && first[k].msg is CreateThread by {
            assert(first[k] == calls[k]);
        }
    }
    lemma_fresh_threads_all_created(first);
    lemma_execute_outcome(run(fresh, first), calls[i].sender, calls[i].msg);
    assert(calls[i].msg is CreateThread);
    lemma_thread_ids_in_call_order(fresh, calls, i);
}

/// Whatever calls were made on a store that began without entries, a thread
/// is found under exactly the identifiers from 1 to the number of threads
/// that the calls created. An identifier that was never given out is
/// answered with `NotFound`.
pub proof fn lemma_never_assigned_not_found(calls: Seq<Call>, id: u64)
    requires
        calls_fit(calls),
    ensures
        1 <= id <= threads_created(Map::empty(), calls) ==> query_spec(
            run(Map::empty(), calls),
            QueryMsg::Thread { id },
        ) is Ok,
        !(1 <= id <= threads_created(Map::empty(), calls)) ==> query_spec(
            run(Map::empty(), calls),
            QueryMsg::Thread { id },
        ) == Err::<ThreadView, ContractError>(ContractError::NotFound),
{
    let fresh: Entries = Map::empty();
    lemma_empty_well_formed();
    lemma_run_thread_count(fresh, calls);
    lemma_found_iff_assigned(run(fresh, calls), id);
}

} // verus!
