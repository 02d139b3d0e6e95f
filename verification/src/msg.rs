//! The requests that the ledger answers, and who makes them.

use crate::codec::text_fits;
use crate::keys::{
    thread_count_key, thread_count_key_spec, thread_elem_count_key, thread_elem_count_key_spec,
    thread_key, thread_key_spec,
};
use vstd::prelude::*;

verus! {

/// Sent once, when the ledger is set up. It carries nothing.
#[derive(Debug, Clone, PartialEq, Eq)]
pub struct InstantiateMsg {}

/// The caller of a state-changing request, as the host authenticated them.
#[derive(Debug, Clone, PartialEq, Eq)]
pub struct MessageInfo {
    pub sender: String,
}

/// A request that changes the ledger.
#[derive(Debug, Clone, PartialEq, Eq)]
pub enum ExecuteMsg {
    /// Opens a new thread.
    CreateThread { title: String, description: String },
    /// Adds a reply under `thread_id`. The thread need not exist.
    CreateThreadElem { thread_id: u64, content: String },
}

/// A request that only reads the ledger.
#[derive(Debug, Clone, PartialEq, Eq)]
pub enum QueryMsg {
    /// Asks for the thread stored under `id`.
    Thread { id: u64 },
}

/// What an `ExecuteMsg` holds.
pub enum ExecuteMsgView {
    CreateThread { title: Seq<char>, description: Seq<char> },
    CreateThreadElem { thread_id: u64, content: Seq<char> },
}

impl View for ExecuteMsg {
    type V = ExecuteMsgView;

    open spec fn view(&self) -> ExecuteMsgView {
        match *self {
            ExecuteMsg::CreateThread { title, description } => ExecuteMsgView::CreateThread {
                title: title@,
                description: description@,
            },
            ExecuteMsg::CreateThreadElem { thread_id, content } => ExecuteMsgView::CreateThreadElem {
                thread_id,
                content: content@,
            },
        }
    }
}

/// Whether the texts of a request are short enough to be framed. Those of a
/// request made of strings always are.
pub open spec fn request_fits(sender: Seq<char>, msg: ExecuteMsgView) -> bool {
    &&& text_fits(sender)
    &&& match msg {
        ExecuteMsgView::CreateThread { title, description } => text_fits(title) && text_fits(
            description,
        ),
        ExecuteMsgView::CreateThreadElem { thread_id, content } => text_fits(content),
    }
}

/// The key of the counter that a state-changing request advances. It is the
/// only entry that the outcome of the request depends on.
pub open spec fn counter_key_spec(msg: ExecuteMsgView) -> Seq<u8> {
    match msg {
        ExecuteMsgView::CreateThread { title, description } => thread_count_key_spec(),
        ExecuteMsgView::CreateThreadElem { thread_id, content } => thread_elem_count_key_spec(
            thread_id,
        ),
    }
}

/// The key of the record that a read-only request asks for. It is the only
/// entry that the answer depends on.
pub open spec fn record_key_spec(msg: QueryMsg) -> Seq<u8> {
    match msg {
        QueryMsg::Thread { id } => thread_key_spec(id),
    }
}

impl ExecuteMsg {
    /// The key of the counter that the request advances.
    pub fn counter_key(&self) -> (key: Vec<u8>)
        ensures
            key@ == counter_key_spec(self@),
    {
        match self {
            ExecuteMsg::CreateThread { .. } => thread_count_key(),
            ExecuteMsg::CreateThreadElem { thread_id, .. } => thread_elem_count_key(*thread_id),
        }
    }
}

impl QueryMsg {
    /// The key of the record that the request asks for.
    pub fn record_key(&self) -> (key: Vec<u8>)
        ensures
            key@ == record_key_spec(*self),
    {
        match self {
            QueryMsg::Thread { id } => thread_key(*id),
        }
    }
}

} // verus!
