//! The records of the ledger and their stored form.

use crate::codec::{
    get_text, lemma_text_at_of_bytes, lemma_text_bytes_of_at, put_text, text_at, text_bytes,
    text_fits,
};
use vstd::prelude::*;

verus! {

/// A top-level post.
#[derive(Debug, Clone, PartialEq, Eq)]
pub struct Thread {
    pub title: String,
    pub description: String,
    /// Who created the thread, as the host named them.
    pub author: String,
}

/// A reply under a thread.
#[derive(Debug, Clone, PartialEq, Eq)]
pub struct ThreadElem {
    pub content: String,
    /// Who wrote the reply, as the host named them.
    pub author: String,
}

/// What a `Thread` holds.
pub struct ThreadView {
    pub title: Seq<char>,
    pub description: Seq<char>,
    pub author: Seq<char>,
}

/// What a `ThreadElem` holds.
pub struct ThreadElemView {
    pub content: Seq<char>,
    pub author: Seq<char>,
}

impl View for Thread {
    type V = ThreadView;

    open spec fn view(&self) -> ThreadView {
        ThreadView { title: self.title@, description: self.description@, author: self.author@ }
    }
}

impl View for ThreadElem {
    type V = ThreadElemView;

    open spec fn view(&self) -> ThreadElemView {
        ThreadElemView { content: self.content@, author: self.author@ }
    }
}

/// Whether every field of `t` is short enough to be framed.
pub open spec fn thread_fits(t: ThreadView) -> bool {
    text_fits(t.title) && text_fits(t.description) && text_fits(t.author)
}

/// The stored form of a thread: title, description and author, each framed.
pub open spec fn thread_bytes(t: ThreadView) -> Seq<u8> {
    text_bytes(t.title) + text_bytes(t.description) + text_bytes(t.author)
}

/// The thread that `bytes` is the stored form of, if it is one: three framed
/// texts, one behind the other, and nothing after them.
pub open spec fn parse_thread(bytes: Seq<u8>) -> Option<ThreadView> {
    match text_at(bytes, 0) {
        Some((title, after_title)) => match text_at(bytes, after_title) {
            Some((description, after_description)) => match text_at(bytes, after_description) {
                Some((author, after_author)) => if after_author == bytes.len() {
                    Some(ThreadView { title, description, author })
                } else {
                    None
                },
                None => None,
            },
            None => None,
        },
        None => None,
    }
}

/// Whether every field of `e` is short enough to be framed.
pub open spec fn thread_elem_fits(e: ThreadElemView) -> bool {
    text_fits(e.content) && text_fits(e.author)
}

/// The stored form of an element: content and author, each framed.
pub open spec fn thread_elem_bytes(e: ThreadElemView) -> Seq<u8> {
    text_bytes(e.content) + text_bytes(e.author)
}

/// The stored form of a thread is never empty and parses back to the thread.
pub proof fn lemma_parse_thread_of_bytes(t: ThreadView)
    requires
        thread_fits(t),
    ensures
        parse_thread(thread_bytes(t)) == Some(t),
        thread_bytes(t).len() >= 24,
{
    let a = text_bytes(t.title);
    let b = text_bytes(t.description);
    let c = text_bytes(t.author);
    let all = thread_bytes(t);
    let nothing = Seq::<u8>::empty();
    lemma_text_at_of_bytes(nothing, t.title, b + c);
    assert(nothing + a + (b + c) =~= all);
    lemma_text_at_of_bytes(a, t.description, c);
    lemma_text_at_of_bytes(a + b, t.author, nothing);
    assert(a + b + c + nothing =~= all);
}

/// Whatever parses as a thread is the stored form of that thread.
pub proof fn lemma_thread_bytes_of_parse(bytes: Seq<u8>)
    requires
        parse_thread(bytes) is Some,
    ensures
        thread_fits(parse_thread(bytes)->0),
        thread_bytes(parse_thread(bytes)->0) == bytes,
{
    let (title, after_title) = text_at(bytes, 0)->0;
    let (description, after_description) = text_at(bytes, after_title)->0;
    let (author, after_author) = text_at(bytes, after_description)->0;
    lemma_text_bytes_of_at(bytes, 0);
    lemma_text_bytes_of_at(bytes, after_title);
    lemma_text_bytes_of_at(bytes, after_description);
    assert(bytes =~= bytes.subrange(0, after_title) + bytes.subrange(after_title, after_description) + bytes.subrange(after_description, after_author));
}

/// The stored form of an element is never empty.
pub proof fn lemma_thread_elem_bytes_len(e: ThreadElemView)
    requires
        thread_elem_fits(e),
    ensures
        thread_elem_bytes(e).len() >= 16,
{
    let nothing = Seq::<u8>::empty();
    lemma_text_at_of_bytes(nothing, e.content, nothing);
    lemma_text_at_of_bytes(nothing, e.author, nothing);
}

impl Thread {
    /// The stored form of the thread.
    pub fn to_bytes(&self) -> (out: Vec<u8>)
        ensures
            out@ == thread_bytes(self@),
            thread_fits(self@),
    {
        let mut out: Vec<u8> = Vec::new();
        put_text(&mut out, self.title.as_str());
        put_text(&mut out, self.description.as_str());
        put_text(&mut out, self.author.as_str());
        assert(out@ =~= thread_bytes(self@));
        out
    }

    /// Reads a thread back from its stored form; `None` where `bytes` is not
    /// the stored form of any thread.
    pub fn from_bytes(bytes: &[u8]) -> (r: Option<Thread>)
        ensures
            (match r {
                Some(t) => parse_thread(bytes@) == Some(t@),
                None => parse_thread(bytes@) is None,
            }),
    {
        let (title, after_title) = match get_text(bytes, 0) {
            Some(found) => found,
            None => {
                return None;
            },
        };
        let (description, after_description) = match get_text(bytes, after_title) {
            Some(found) => found,
            None => {
                return None;
            },
        };
        let (author, after_author) = match get_text(bytes, after_description) {
            Some(found) => found,
            None => {
                return None;
            },
        };
        if after_author != bytes.len() {
            return None;
        }
        Some(Thread { title, description, author })
    }
}

impl ThreadElem {
    /// The stored form of the element.
    pub fn to_bytes(&self) -> (out: Vec<u8>)
        ensures
            out@ == thread_elem_bytes(self@),
            thread_elem_fits(self@),
    {
        let mut out: Vec<u8> = Vec::new();
        put_text(&mut out, self.content.as_str());
        put_text(&mut out, self.author.as_str());
        assert(out@ =~= thread_elem_bytes(self@));
        out
    }
}

} // verus!
