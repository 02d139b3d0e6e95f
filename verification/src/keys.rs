//! Where each kind of entry lives in the store. A key is a tag byte that names
//! the kind, followed by the identifiers in big-endian form, so keys of
//! different kinds never meet and keys of one kind differ with their
//! identifiers.

use crate::codec::{be_bytes, lemma_be_bytes_injective, lemma_be_value_of_bytes, put_u64};
use vstd::prelude::*;

verus! {

/// Tag of the counter of threads.
pub const THREAD_COUNT_TAG: u8 = 1;

/// Tag of the per-thread counters of elements.
pub const THREAD_ELEM_COUNT_TAG: u8 = 2;

/// Tag of the thread records.
pub const THREAD_TAG: u8 = 3;

/// Tag of the element records.
pub const THREAD_ELEM_TAG: u8 = 4;

/// Key of the counter of threads.
#[verifier::opaque]
pub open spec fn thread_count_key_spec() -> Seq<u8> {
    seq![THREAD_COUNT_TAG]
}

/// Key of the counter of the elements of thread `thread_id`.
#[verifier::opaque]
pub open spec fn thread_elem_count_key_spec(thread_id: u64) -> Seq<u8> {
    seq![THREAD_ELEM_COUNT_TAG] + be_bytes(thread_id)
}

/// Key of the record of thread `id`.
#[verifier::opaque]
pub open spec fn thread_key_spec(id: u64) -> Seq<u8> {
    seq![THREAD_TAG] + be_bytes(id)
}

/// Key of the record of element `elem_id` of thread `thread_id`.
#[verifier::opaque]
pub open spec fn thread_elem_key_spec(thread_id: u64, elem_id: u64) -> Seq<u8> {
    seq![THREAD_ELEM_TAG] + be_bytes(thread_id) + be_bytes(elem_id)
}

/// Key of the counter of threads.
pub fn thread_count_key() -> (key: Vec<u8>)
    ensures
        key@ == thread_count_key_spec(),
{
    let mut key: Vec<u8> = Vec::new();
    key.push(THREAD_COUNT_TAG);
    proof {
        reveal(thread_count_key_spec);
    }
    assert(key@ =~= thread_count_key_spec());
    key
}

/// Key of the counter of the elements of thread `thread_id`.
pub fn thread_elem_count_key(thread_id: u64) -> (key: Vec<u8>)
    ensures
        key@ == thread_elem_count_key_spec(thread_id),
{
    let mut key: Vec<u8> = Vec::new();
    key.push(THREAD_ELEM_COUNT_TAG);
    put_u64(&mut key, thread_id);
    proof {
        reveal(thread_elem_count_key_spec);
    }
    assert(key@ =~= thread_elem_count_key_spec(thread_id));
    key
}

/// Key of the record of thread `id`.
pub fn thread_key(id: u64) -> (key: Vec<u8>)
    ensures
        key@ == thread_key_spec(id),
{
    let mut key: Vec<u8> = Vec::new();
    key.push(THREAD_TAG);
    put_u64(&mut key, id);
    proof {
        reveal(thread_key_spec);
    }
    assert(key@ =~= thread_key_spec(id));
    key
}

/// Key of the record of element `elem_id` of thread `thread_id`.
pub fn thread_elem_key(thread_id: u64, elem_id: u64) -> (key: Vec<u8>)
    ensures
        key@ == thread_elem_key_spec(thread_id, elem_id),
{
    let mut key: Vec<u8> = Vec::new();
    key.push(THREAD_ELEM_TAG);
    put_u64(&mut key, thread_id);
    put_u64(&mut key, elem_id);
    proof {
        reveal(thread_elem_key_spec);
    }
    assert(key@ =~= thread_elem_key_spec(thread_id, elem_id));
    key
}

/// Keys of one kind are equal only where their identifiers are.
pub proof fn lemma_keys_injective(a: u64, b: u64, c: u64, d: u64)
    ensures
        thread_elem_count_key_spec(a) == thread_elem_count_key_spec(b) ==> a == b,
        thread_key_spec(a) == thread_key_spec(b) ==> a == b,
        thread_elem_key_spec(a, c) == thread_elem_key_spec(b, d) ==> a == b && c == d,
{
    reveal(thread_count_key_spec);
    reveal(thread_elem_count_key_spec);
    reveal(thread_key_spec);
    reveal(thread_elem_key_spec);
    lemma_be_value_of_bytes(a);
    lemma_be_value_of_bytes(b);
    lemma_be_value_of_bytes(c);
    lemma_be_value_of_bytes(d);
    if thread_elem_count_key_spec(a) == thread_elem_count_key_spec(b) {
        assert(be_bytes(a) =~= thread_elem_count_key_spec(a).subrange(1, 9));
        assert(be_bytes(b) =~= thread_elem_count_key_spec(b).subrange(1, 9));
        lemma_be_bytes_injective(a, b);
    }
    if thread_key_spec(a) == thread_key_spec(b) {
        assert(be_bytes(a) =~= thread_key_spec(a).subrange(1, 9));
        assert(be_bytes(b) =~= thread_key_spec(b).subrange(1, 9));
        lemma_be_bytes_injective(a, b);
    }
    if thread_elem_key_spec(a, c) == thread_elem_key_spec(b, d) {
        assert(be_bytes(a) =~= thread_elem_key_spec(a, c).subrange(1, 9));
        assert(be_bytes(b) =~= thread_elem_key_spec(b, d).subrange(1, 9));
        assert(be_bytes(c) =~= thread_elem_key_spec(a, c).subrange(9, 17));
        assert(be_bytes(d) =~= thread_elem_key_spec(b, d).subrange(9, 17));
        lemma_be_bytes_injective(a, b);
        lemma_be_bytes_injective(c, d);
    }
}

/// Keys of different kinds are never equal.
pub proof fn lemma_keys_disjoint(a: u64, b: u64, c: u64, d: u64)
    ensures
        thread_count_key_spec() != thread_elem_count_key_spec(a),
        thread_count_key_spec() != thread_key_spec(a),
        thread_count_key_spec() != thread_elem_key_spec(a, b),
        thread_elem_count_key_spec(a) != thread_key_spec(b),
        thread_elem_count_key_spec(a) != thread_elem_key_spec(b, c),
        thread_key_spec(a) != thread_elem_key_spec(b, c),
{
    reveal(thread_count_key_spec);
    reveal(thread_elem_count_key_spec);
    reveal(thread_key_spec);
    reveal(thread_elem_key_spec);
    lemma_be_value_of_bytes(a);
    lemma_be_value_of_bytes(b);
    lemma_be_value_of_bytes(c);
    assert(thread_count_key_spec().len() == 1);
    assert(thread_elem_count_key_spec(a)[0] == THREAD_ELEM_COUNT_TAG);
    assert(thread_elem_count_key_spec(a).len() == 9);
    assert(thread_key_spec(a).len() == 9);
    assert(thread_key_spec(a)[0] == THREAD_TAG);
    assert(thread_key_spec(b)[0] == THREAD_TAG);
    assert(thread_elem_key_spec(a, b).len() == 17);
    assert(thread_elem_key_spec(b, c).len() == 17);
}

} // verus!
