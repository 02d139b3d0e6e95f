//! A ledger in good order, and what one request does to it.

use crate::codec::lemma_be_value_of_bytes;
use crate::error::ContractError;
use crate::keys::{
    lemma_keys_disjoint, lemma_keys_injective, thread_count_key_spec, thread_elem_count_key_spec,
    thread_elem_key_spec, thread_key_spec,
};
use crate::ledger::{
    advance_spec, counter_at, create_thread_elem_spec, create_thread_spec, execute_spec,
    load_thread_spec, next_id, query_spec, thread_count, thread_elem_count, Entries,
};
use crate::msg::{counter_key_spec, record_key_spec, request_fits, ExecuteMsgView, QueryMsg};
use crate::state::{
    lemma_parse_thread_of_bytes, parse_thread, thread_bytes, thread_elem_bytes, thread_fits,
    ThreadElemView, ThreadView,
};
use vstd::prelude::*;

verus! {

/// A ledger in good order. Both kinds of counter are readable; a thread
/// record is stored under exactly the identifiers from 1 to the thread
/// counter, and each is a thread; an element record is stored under exactly
/// the pairs whose second part runs from 1 to the counter of the first.
#[verifier::opaque]
pub open spec fn well_formed(m: Entries) -> bool {
    &&& thread_count(m) is Some
    &&& forall|id: u64|
        m.dom().contains(#[trigger] thread_key_spec(id)) <==> 1 <= id <= thread_count(m)->0
    &&& forall|id: u64|
        m.dom().contains(#[trigger] thread_key_spec(id)) ==> parse_thread(
            m[thread_key_spec(id)],
        ) is Some
    &&& forall|t: u64| (#[trigger] thread_elem_count(m, t)) is Some
    &&& forall|t: u64, e: u64|
        m.dom().contains(#[trigger] thread_elem_key_spec(t, e)) <==> 1 <= e <= thread_elem_count(
            m,
            t,
        )->0
}

/// A store without entries is a ledger in good order, with every counter at
/// zero.
pub proof fn lemma_empty_well_formed()
    ensures
        well_formed(Map::empty()),
        thread_count(Map::empty()) == Some(0u64),
        forall|t: u64| #[trigger] thread_elem_count(Map::empty(), t) == Some(0u64),
{
    reveal(well_formed);
}

/// Advancing a counter that is below its maximum gives out its value plus
/// one, leaves that as its new value, and touches no other key.
pub proof fn lemma_advance(m: Entries, key: Seq<u8>)
    requires
        counter_at(m, key) is Some,
        counter_at(m, key)->0 < u64::MAX,
    ensures
        next_id(m, key) == Ok::<u64, ContractError>((counter_at(m, key)->0 + 1) as u64),
        advance_spec(m, key) is Ok,
        counter_at(advance_spec(m, key)->Ok_0, key) == Some((counter_at(m, key)->0 + 1) as u64),
        forall|other: Seq<u8>|
            other != key ==> (#[trigger] advance_spec(m, key)->Ok_0.dom().contains(other))
                == m.dom().contains(other),
        forall|other: Seq<u8>|
            other != key ==> (#[trigger] advance_spec(m, key)->Ok_0[other]) == m[other],
{
    lemma_be_value_of_bytes((counter_at(m, key)->0 + 1) as u64);
}

/// Creating a thread while the thread counter is below its maximum: the
/// thread gets the counter's value plus one, can be read back under it, and
/// nothing else in the ledger changes.
pub proof fn lemma_create_thread(m: Entries, thread: ThreadView)
    requires
        thread_count(m) is Some,
        thread_count(m)->0 < u64::MAX,
        thread_fits(thread),
    ensures
        create_thread_spec(m, thread) is Ok,
        ({
            let id = (thread_count(m)->0 + 1) as u64;
            let after = create_thread_spec(m, thread)->Ok_0;
            &&& thread_count(after) == Some(id)
            &&& after.dom().contains(thread_key_spec(id))
            &&& after[thread_key_spec(id)] == thread_bytes(thread)
            &&& load_thread_spec(after, id) == Ok::<ThreadView, ContractError>(thread)
            &&& forall|other: u64|
                other != id ==> after.dom().contains(#[trigger] thread_key_spec(other))
                    == m.dom().contains(thread_key_spec(other))
            &&& forall|other: u64|
                other != id ==> after[#[trigger] thread_key_spec(other)] == m[thread_key_spec(
                    other,
                )]
            &&& forall|t: u64| #[trigger] thread_elem_count(after, t) == thread_elem_count(m, t)
            &&& forall|t: u64, e: u64|
                after.dom().contains(#[trigger] thread_elem_key_spec(t, e)) == m.dom().contains(
                    thread_elem_key_spec(t, e),
                )
            &&& forall|t: u64, e: u64|
                after[#[trigger] thread_elem_key_spec(t, e)] == m[thread_elem_key_spec(t, e)]
        }),
{
    let key = thread_count_key_spec();
    let id = (thread_count(m)->0 + 1) as u64;
    lemma_advance(m, key);
    let advanced = advance_spec(m, key)->Ok_0;
    let after = create_thread_spec(m, thread)->Ok_0;
    assert(after == advanced.insert(thread_key_spec(id), thread_bytes(thread)));
    lemma_keys_disjoint(id, 0, 0, 0);
    lemma_parse_thread_of_bytes(thread);
    assert forall|other: u64| other != id implies after.dom().contains(
        #[trigger] thread_key_spec(other),
    ) == m.dom().contains(thread_key_spec(other)) && after[thread_key_spec(other)]
        == m[thread_key_spec(other)] by {
        lemma_keys_injective(other, id, 0, 0);
        lemma_keys_disjoint(other, 0, 0, 0);
    }
    assert forall|t: u64| #[trigger] thread_elem_count(after, t) == thread_elem_count(m, t) by {
        lemma_keys_disjoint(t, id, 0, 0);
    }
    assert forall|t: u64, e: u64|
        after.dom().contains(#[trigger] thread_elem_key_spec(t, e)) == m.dom().contains(
            thread_elem_key_spec(t, e),
        ) && after[thread_elem_key_spec(t, e)] == m[thread_elem_key_spec(t, e)] by {
        lemma_keys_disjoint(t, e, 0, 0);
        lemma_keys_disjoint(id, t, e, 0);
    }
}

/// Creating an element under `thread_id` while that thread's counter is
/// below its maximum: the element gets the counter's value plus one, is
/// stored under the pair, and nothing else in the ledger changes. The
/// counters of all other threads stay as they were.
pub proof fn lemma_create_thread_elem(m: Entries, thread_id: u64, elem: ThreadElemView)
    requires
        thread_elem_count(m, thread_id) is Some,
        thread_elem_count(m, thread_id)->0 < u64::MAX,
    ensures
        create_thread_elem_spec(m, thread_id, elem) is Ok,
        ({
            let id = (thread_elem_count(m, thread_id)->0 + 1) as u64;
            let after = create_thread_elem_spec(m, thread_id, elem)->Ok_0;
            &&& thread_elem_count(after, thread_id) == Some(id)
            &&& after.dom().contains(thread_elem_key_spec(thread_id, id))
            &&& after[thread_elem_key_spec(thread_id, id)] == thread_elem_bytes(elem)
            &&& thread_count(after) == thread_count(m)
            &&& forall|other: u64|
                after.dom().contains(#[trigger] thread_key_spec(other)) == m.dom().contains(
                    thread_key_spec(other),
                )
            &&& forall|other: u64|
                after[#[trigger] thread_key_spec(other)] == m[thread_key_spec(other)]
            &&& forall|t: u64|
                t != thread_id ==> #[trigger] thread_elem_count(after, t) == thread_elem_count(
                    m,
                    t,
                )
            &&& forall|t: u64, e: u64|
                !(t == thread_id && e == id) ==> after.dom().contains(
                    #[trigger] thread_elem_key_spec(t, e),
                ) == m.dom().contains(thread_elem_key_spec(t, e))
            &&& forall|t: u64, e: u64|
                !(t == thread_id && e == id) ==> after[#[trigger] thread_elem_key_spec(t, e)]
                    == m[thread_elem_key_spec(t, e)]
        }),
{
    let key = thread_elem_count_key_spec(thread_id);
    let id = (thread_elem_count(m, thread_id)->0 + 1) as u64;
    lemma_advance(m, key);
    let advanced = advance_spec(m, key)->Ok_0;
    let after = create_thread_elem_spec(m, thread_id, elem)->Ok_0;
    assert(after == advanced.insert(thread_elem_key_spec(thread_id, id), thread_elem_bytes(elem)));
    lemma_keys_disjoint(thread_id, thread_id, id, 0);
    lemma_keys_disjoint(thread_id, id, 0, 0);
    assert forall|other: u64|
        after.dom().contains(#[trigger] thread_key_spec(other)) == m.dom().contains(
            thread_key_spec(other),
        ) && after[thread_key_spec(other)] == m[thread_key_spec(other)] by {
        lemma_keys_disjoint(thread_id, other, 0, 0);
        lemma_keys_disjoint(other, thread_id, id, 0);
    }
    assert forall|t: u64| t != thread_id implies #[trigger] thread_elem_count(after, t)
        == thread_elem_count(m, t) by {
        lemma_keys_injective(t, thread_id, 0, 0);
        lemma_keys_disjoint(t, thread_id, id, 0);
    }
    assert forall|t: u64, e: u64| !(t == thread_id && e == id) implies after.dom().contains(
        #[trigger] thread_elem_key_spec(t, e),
    ) == m.dom().contains(thread_elem_key_spec(t, e)) && after[thread_elem_key_spec(t, e)]
        == m[thread_elem_key_spec(t, e)] by {
        lemma_keys_injective(t, thread_id, e, id);
        lemma_keys_disjoint(thread_id, t, e, 0);
    }
}

/// A request is turned down for overflow exactly when the counter it would
/// advance is at its maximum, and for unreadable data exactly when that
/// counter is; every other request succeeds.
pub proof fn lemma_execute_outcome(m: Entries, sender: Seq<char>, msg: ExecuteMsgView)
    ensures
        ({
            let counter = match msg {
                ExecuteMsgView::CreateThread { title, description } => thread_count(m),
                ExecuteMsgView::CreateThreadElem { thread_id, content } => thread_elem_count(
                    m,
                    thread_id,
                ),
            };
            let outcome = execute_spec(m, sender, msg);
            &&& counter == Some(u64::MAX) <==> outcome == Err::<Entries, ContractError>(
                ContractError::CounterOverflow,
            )
            &&& counter is None <==> outcome == Err::<Entries, ContractError>(
                ContractError::InvalidData,
            )
            &&& counter is Some && counter->0 < u64::MAX <==> outcome is Ok
        }),
{
}

/// A request that succeeds on a ledger in good order leaves it in good order.
pub proof fn lemma_execute_keeps_well_formed(m: Entries, sender: Seq<char>, msg: ExecuteMsgView)
    requires
        well_formed(m),
        request_fits(sender, msg),
        execute_spec(m, sender, msg) is Ok,
    ensures
        well_formed(execute_spec(m, sender, msg)->Ok_0),
{
    reveal(well_formed);
    let after = execute_spec(m, sender, msg)->Ok_0;
    match msg {
        ExecuteMsgView::CreateThread { title, description } => {
            let thread = ThreadView { title, description, author: sender };
            let id = (thread_count(m)->0 + 1) as u64;
            lemma_create_thread(m, thread);
            assert forall|other: u64|
                after.dom().contains(#[trigger] thread_key_spec(other)) implies parse_thread(
                after[thread_key_spec(other)],
            ) is Some by {
                if other != id {
                    assert(m.dom().contains(thread_key_spec(other)));
                }
            }
            assert forall|t: u64, e: u64|
                after.dom().contains(#[trigger] thread_elem_key_spec(t, e)) <==> 1 <= e
                    <= thread_elem_count(after, t)->0 by {
                assert(thread_elem_count(after, t) == thread_elem_count(m, t));
            }
        },
        ExecuteMsgView::CreateThreadElem { thread_id, content } => {
            let elem = ThreadElemView { content, author: sender };
            let id = (thread_elem_count(m, thread_id)->0 + 1) as u64;
            lemma_create_thread_elem(m, thread_id, elem);
            assert forall|t: u64| (#[trigger] thread_elem_count(after, t)) is Some by {
                if t != thread_id {
                    assert(thread_elem_count(after, t) == thread_elem_count(m, t));
                }
            }
            assert forall|t: u64, e: u64|
                after.dom().contains(#[trigger] thread_elem_key_spec(t, e)) <==> 1 <= e
                    <= thread_elem_count(after, t)->0 by {
                if t != thread_id {
                    assert(thread_elem_count(after, t) == thread_elem_count(m, t));
                }
            }
        },
    }
}

/// In a ledger in good order a thread is found under exactly the identifiers
/// that were given out: those from 1 to the thread counter. Under any other
/// identifier the answer is `NotFound`.
pub proof fn lemma_found_iff_assigned(m: Entries, id: u64)
    requires
        well_formed(m),
    ensures
        1 <= id <= thread_count(m)->0 ==> query_spec(m, QueryMsg::Thread { id }) is Ok,
        !(1 <= id <= thread_count(m)->0) ==> query_spec(m, QueryMsg::Thread { id }) == Err::<
            ThreadView,
            ContractError,
        >(ContractError::NotFound),
{
    reveal(well_formed);
    assert(m.dom().contains(thread_key_spec(id)) <==> 1 <= id <= thread_count(m)->0);
}

/// A thread can be read back as soon as it is created, under the identifier
/// that follows the thread counter, with the sender as its author.
pub proof fn lemma_read_your_write(
    m: Entries,
    sender: Seq<char>,
    title: Seq<char>,
    description: Seq<char>,
)
    requires
        request_fits(sender, ExecuteMsgView::CreateThread { title, description }),
        execute_spec(m, sender, ExecuteMsgView::CreateThread { title, description }) is Ok,
    ensures
        thread_count(m) is Some,
        thread_count(m)->0 < u64::MAX,
        query_spec(
            execute_spec(m, sender, ExecuteMsgView::CreateThread { title, description })->Ok_0,
            QueryMsg::Thread { id: (thread_count(m)->0 + 1) as u64 },
        ) == Ok::<ThreadView, ContractError>(ThreadView { title, description, author: sender }),
{
    lemma_create_thread(m, ThreadView { title, description, author: sender });
}

/// A state-changing request looks at one entry only, the counter it
/// advances. Carried out on a copy of the store that holds nothing but that
/// entry, it fails as it would on the store itself, or succeeds as it would
/// there and leaves in the copy the entries to write over the store.
pub proof fn lemma_execute_is_local(m: Entries, sender: Seq<char>, msg: ExecuteMsgView)
    ensures
        ({
            let copy = m.restrict(set![counter_key_spec(msg)]);
            match execute_spec(copy, sender, msg) {
                Ok(after) => execute_spec(m, sender, msg) == Ok::<Entries, ContractError>(
                    m.union_prefer_right(after),
                ),
                Err(e) => execute_spec(m, sender, msg) == Err::<Entries, ContractError>(e),
            }
        }),
{
    let key = counter_key_spec(msg);
    let copy = m.restrict(set![key]);
    assert(counter_at(copy, key) == counter_at(m, key));
    if execute_spec(copy, sender, msg) is Ok {
        let after = execute_spec(copy, sender, msg)->Ok_0;
        assert(execute_spec(m, sender, msg)->Ok_0 =~= m.union_prefer_right(after));
    }
}

/// A read-only request looks at one entry only, the record it asks for: on a
/// copy of the store that holds nothing but that entry, the answer is the
/// same.
pub proof fn lemma_query_is_local(m: Entries, msg: QueryMsg)
    ensures
        query_spec(m.restrict(set![record_key_spec(msg)]), msg) == query_spec(m, msg),
{
}

} // verus!
