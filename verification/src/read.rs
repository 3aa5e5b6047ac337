//! A read: one lookup of the page that holds the offset.

use crate::error::VfsError;
use crate::page::{
    lemma_window_of_overlay, page_key, page_key_of, page_offset, page_offset_of, window,
    window_bytes, within_page, within_page_of,
};
use crate::store::{
    completes, drive, ReplyView, RequestView, Step, StepView, Store, StoreReply, StoreRequest,
};
use crate::write::{page_at, written};
use vstd::prelude::*;

verus! {

/// A read under way: it waits for the page.
pub struct ReadOp {
    at: usize,
    len: usize,
}

/// A read as a plain value: the position inside the page and the number of
/// bytes asked for.
pub struct ReadOpView {
    pub at: usize,
    pub len: usize,
}

impl View for ReadOp {
    type V = ReadOpView;

    closed spec fn view(&self) -> ReadOpView {
        ReadOpView { at: self.at, len: self.len }
    }
}

/// How a read reacts to the store's reply. From a page that was found it
/// gets the bytes from its position to the end of the page, and no more
/// than it asked for; where the page is absent, or ends at or before the
/// position, it gets no bytes, which is no failure. Any reply that is not
/// the answer to a lookup ends it with a read failure.
pub open spec fn read_next(op: ReadOpView, reply: ReplyView) -> StepView<ReadOpView, Seq<u8>> {
    match reply {
        ReplyView::Value(Some(page)) => StepView::Done(Ok(window(page, op.at as int, op.len as int))),
        ReplyView::Value(None) => StepView::Done(Ok(Seq::empty())),
        _ => StepView::Done(Err(VfsError::IoRead)),
    }
}

/// The first step of a read of `len` bytes at `offset` of `path`: fetch the
/// page that holds the offset.
pub open spec fn read_start(path: Seq<char>, offset: usize, len: usize) -> StepView<
    ReadOpView,
    Seq<u8>,
> {
    StepView::Ask(
        RequestView::Get { key: page_key_of(path, page_offset_of(offset)) },
        ReadOpView { at: within_page_of(offset), len },
    )
}

/// The reaction of a read to a reply, as a value.
pub open spec fn read_reaction() -> spec_fn(ReadOpView, ReplyView) -> StepView<
    ReadOpView,
    Seq<u8>,
> {
    |op: ReadOpView, reply: ReplyView| read_next(op, reply)
}

/// What a read of `len` bytes at `offset` of `path` gets from `store`.
pub open spec fn read_of(store: Store, path: Seq<char>, offset: usize, len: usize) -> Seq<u8> {
    window(page_at(store, path, page_offset_of(offset)), within_page_of(offset) as int, len as int)
}

impl ReadOp {
    pub(crate) fn begin(path: &str, offset: usize, len: usize) -> (step: Step<ReadOp, Vec<u8>>)
        ensures
            step@ == read_start(path@, offset, len),
    {
        Step::Ask(
            StoreRequest::Get { key: page_key(path, page_offset(offset)) },
            ReadOp { at: within_page(offset), len },
        )
    }

    /// Takes the store's reply to the lookup and gives the bytes read.
    pub fn resume(self, reply: StoreReply) -> (step: Step<ReadOp, Vec<u8>>)
        ensures
            step@ == read_next(self@, reply@),
    {
        match reply {
            StoreReply::Value(Some(page)) => Step::Done(Ok(window_bytes(&page, self.at, self.len))),
            StoreReply::Value(None) => Step::Done(Ok(Vec::new())),
            _ => Step::Done(Err(VfsError::IoRead)),
        }
    }
}

/// A read that the store serves without failing succeeds and leaves the
/// store as it was; past the end of what is stored it gets no bytes.
pub proof fn lemma_read_completes(store: Store, path: Seq<char>, offset: usize, len: usize)
    ensures
        completes(
            read_reaction(),
            read_start(path, offset, len),
            store,
            store,
            Ok(read_of(store, path, offset, len)),
        ),
        page_at(store, path, page_offset_of(offset)).len() <= within_page_of(offset) ==> read_of(
            store,
            path,
            offset,
            len,
        ) == Seq::<u8>::empty(),
{
    reveal_with_fuel(drive, 2);
    assert(drive(read_reaction(), read_start(path, offset, len), store, 1) == Some(
        (store, Ok::<Seq<u8>, VfsError>(read_of(store, path, offset, len))),
    ));
}

/// Bytes written at an offset are the bytes read back from that offset.
pub proof fn lemma_round_trip(store: Store, path: Seq<char>, offset: usize, data: Seq<u8>)
    requires
        data.len() <= usize::MAX,
    ensures
        read_of(written(store, path, offset, data), path, offset, data.len() as usize) == data,
{
    lemma_window_of_overlay(
        page_at(store, path, page_offset_of(offset)),
        within_page_of(offset) as int,
        data,
    );
}

} // verus!
