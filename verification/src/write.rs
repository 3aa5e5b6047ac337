//! A write outside a batch: the page is fetched, the bytes are laid over
//! it, and the page goes back to the store.

use crate::error::VfsError;
use crate::model::{dense, has_page, is_page_start, lemma_same_pages_same_density, same_pages};
use crate::page::{
    lemma_page_key_injective, lemma_page_keys_differ, overlay, overlay_bytes, page_key, page_key_of, page_offset,
    page_offset_of, within_page, within_page_of, PAGE_SIZE,
};
use crate::store::{
    completes, drive, lemma_completes_once, ReplyView, RequestView, Step, StepView, Store,
    StoreReply, StoreRequest,
};
use vstd::prelude::*;

verus! {

/// What a write is waiting for.
#[derive(Clone, Copy, Debug, PartialEq, Eq, Structural)]
pub enum WritePhase {
    /// The page as the store has it.
    Fetch,
    /// The store's word that the new page was stored.
    Store,
}

/// A write under way.
pub struct WriteOp {
    key: String,
    at: usize,
    data: Vec<u8>,
    phase: WritePhase,
}

/// A write as a plain value: the key of the page, the position of the write
/// inside the page, the bytes, and what it waits for.
pub struct WriteOpView {
    pub key: Seq<char>,
    pub at: usize,
    pub data: Seq<u8>,
    pub phase: WritePhase,
}

impl View for WriteOp {
    type V = WriteOpView;

    closed spec fn view(&self) -> WriteOpView {
        WriteOpView { key: self.key@, at: self.at, data: self.data@, phase: self.phase }
    }
}

/// The bytes of a page that a lookup found, and no bytes where it found none.
pub open spec fn page_or_empty(found: Option<Seq<u8>>) -> Seq<u8> {
    match found {
        Some(page) => page,
        None => Seq::empty(),
    }
}

/// How a write reacts to the store's reply: the page that was found, or an
/// empty one, gets the bytes laid over it and is stored; once it is stored
/// the write reports the number of bytes it took. Any other reply ends it
/// with a write failure.
pub open spec fn write_next(op: WriteOpView, reply: ReplyView) -> StepView<WriteOpView, usize> {
    match (op.phase, reply) {
        (WritePhase::Fetch, ReplyView::Value(found)) => StepView::Ask(
            RequestView::Put {
                key: op.key,
                value: overlay(page_or_empty(found), op.at as int, op.data),
            },
            WriteOpView { phase: WritePhase::Store, ..op },
        ),
        (WritePhase::Store, ReplyView::Done) => StepView::Done(Ok(op.data.len() as usize)),
        _ => StepView::Done(Err(VfsError::IoWrite)),
    }
}

/// The first step of a write of `data` at `offset` of `path`: fetch the
/// page that holds the offset.
pub open spec fn write_start(path: Seq<char>, offset: usize, data: Seq<u8>) -> StepView<
    WriteOpView,
    usize,
> {
    let key = page_key_of(path, page_offset_of(offset));
    StepView::Ask(
        RequestView::Get { key },
        WriteOpView { key, at: within_page_of(offset), data, phase: WritePhase::Fetch },
    )
}

/// The reaction of a write to a reply, as a value.
pub open spec fn write_reaction() -> spec_fn(WriteOpView, ReplyView) -> StepView<
    WriteOpView,
    usize,
> {
    |op: WriteOpView, reply: ReplyView| write_next(op, reply)
}

/// The page of `path` at `offset` as the store has it, empty where absent.
pub open spec fn page_at(store: Store, path: Seq<char>, offset: usize) -> Seq<u8> {
    if has_page(store, path, offset) {
        store[page_key_of(path, offset)]
    } else {
        Seq::empty()
    }
}

/// The store after `data` was written at `offset` of `path`.
pub open spec fn written(store: Store, path: Seq<char>, offset: usize, data: Seq<u8>) -> Store {
    store.insert(
        page_key_of(path, page_offset_of(offset)),
        overlay(page_at(store, path, page_offset_of(offset)), within_page_of(offset) as int, data),
    )
}

impl WriteOp {
    #[verifier::type_invariant]
    spec fn page_can_hold_it(&self) -> bool {
        self.at + self.data@.len() <= usize::MAX
    }

    pub(crate) fn begin(path: &str, offset: usize, data: Vec<u8>) -> (step: Step<WriteOp, usize>)
        requires
            within_page_of(offset) + data@.len() <= usize::MAX,
        ensures
            step@ == write_start(path@, offset, data@),
    {
        let key = page_key(path, page_offset(offset));
        let request = StoreRequest::Get { key: key.clone() };
        Step::Ask(request, WriteOp { key, at: within_page(offset), data, phase: WritePhase::Fetch })
    }

    /// Takes the store's reply to the request this write is waiting on and
    /// says what comes next.
    pub fn resume(self, reply: StoreReply) -> (step: Step<WriteOp, usize>)
        ensures
            step@ == write_next(self@, reply@),
    {
        proof {
            use_type_invariant(&self);
        }
        match self.phase {
            WritePhase::Fetch => match reply {
                StoreReply::Value(found) => {
                    let base = match found {
                        Some(page) => page,
                        None => Vec::new(),
                    };
                    let value = overlay_bytes(base, self.at, self.data.as_slice());
                    let key = self.key.clone();
                    Step::Ask(
                        StoreRequest::Put { key, value },
                        WriteOp { phase: WritePhase::Store, ..self },
                    )
                },
                _ => Step::Done(Err(VfsError::IoWrite)),
            },
            WritePhase::Store => match reply {
                StoreReply::Done => Step::Done(Ok(self.data.len())),
                _ => Step::Done(Err(VfsError::IoWrite)),
            },
        }
    }
}

/// A write that the store serves without failing succeeds, takes all the
/// bytes, and changes the one page that holds the offset.
pub proof fn lemma_write_completes(store: Store, path: Seq<char>, offset: usize, data: Seq<u8>)
    requires
        data.len() <= usize::MAX,
    ensures
        completes(
            write_reaction(),
            write_start(path, offset, data),
            store,
            written(store, path, offset, data),
            Ok(data.len() as usize),
        ),
{
    reveal_with_fuel(drive, 3);
    assert(drive(write_reaction(), write_start(path, offset, data), store, 2) == Some(
        (written(store, path, offset, data), Ok::<usize, VfsError>(data.len() as usize)),
    ));
}

/// A write keeps a file free of gaps where it goes to the first page or to
/// a page whose lower neighbour is present.
pub proof fn lemma_write_keeps_dense(
    store: Store,
    path: Seq<char>,
    offset: usize,
    data: Seq<u8>,
    end: Store,
    result: Result<usize, VfsError>,
)
    requires
        data.len() <= usize::MAX,
        dense(store, path),
        page_offset_of(offset) == 0 || has_page(
            store,
            path,
            (page_offset_of(offset) - PAGE_SIZE) as usize,
        ),
        completes(write_reaction(), write_start(path, offset, data), store, end, result),
    ensures
        result == Ok::<usize, VfsError>(data.len() as usize),
        end == written(store, path, offset, data),
        dense(end, path),
{
    lemma_write_completes(store, path, offset, data);
    lemma_completes_once(
        write_reaction(),
        write_start(path, offset, data),
        store,
        end,
        result,
        written(store, path, offset, data),
        Ok(data.len() as usize),
    );
    let target = page_offset_of(offset);
    assert forall|lo: usize, hi: usize|
        #![trigger has_page(end, path, lo), has_page(end, path, hi)]
        is_page_start(lo) && is_page_start(hi) && lo < hi && has_page(
            end,
            path,
            hi,
        ) implies has_page(end, path, lo) by {
        if has_page(store, path, hi) {
            assert(has_page(store, path, lo));
        } else {
            lemma_page_key_injective(path, hi, target);
            if lo + PAGE_SIZE < hi {
                let below = (target - PAGE_SIZE) as usize;
                assert(has_page(store, path, below));
                assert(has_page(store, path, lo));
            }
        }
    }
}

/// A write to one file leaves the pages of every other file as they are.
pub proof fn lemma_written_leaves_other_files(
    store: Store,
    path: Seq<char>,
    offset: usize,
    data: Seq<u8>,
    other: Seq<char>,
)
    requires
        other != path,
    ensures
        same_pages(store, written(store, path, offset, data), other),
        dense(written(store, path, offset, data), other) == dense(store, other),
{
    let end = written(store, path, offset, data);
    assert forall|at: usize|
        has_page(end, other, at) == has_page(store, other, at) && end[#[trigger] page_key_of(
            other,
            at,
        )] == store[page_key_of(other, at)] by {
        if page_key_of(other, at) == page_key_of(path, page_offset_of(offset)) {
            lemma_page_keys_differ(other, at, path, page_offset_of(offset));
        }
    }
    lemma_same_pages_same_density(store, end, other);
}

} // verus!
