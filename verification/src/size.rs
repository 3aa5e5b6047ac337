//! Measuring a file: its pages are looked up from offset 0 upward until
//! one is absent; the file ends where the last page found ends.

use crate::error::VfsError;
use crate::model::{file_size_of, has_page, pages_from};
use crate::page::{page_key, page_key_of, PAGE_SIZE};
use crate::store::{
    completes, drive, ReplyView, RequestView, Step, StepView, Store, StoreReply, StoreRequest,
};
use vstd::prelude::*;

verus! {

/// A measurement under way: it waits for the page at its offset.
pub struct SizeOp {
    path: String,
    page_offset: usize,
    size: usize,
}

/// A measurement as a plain value: the file, the offset of the page it
/// waits for, and the size found so far.
pub struct SizeOpView {
    pub path: Seq<char>,
    pub page_offset: usize,
    pub size: usize,
}

impl View for SizeOp {
    type V = SizeOpView;

    closed spec fn view(&self) -> SizeOpView {
        SizeOpView { path: self.path@, page_offset: self.page_offset, size: self.size }
    }
}

/// How a measurement reacts to the store's reply. A page that was found
/// moves the size to the end of that page, and the next page is looked up;
/// the first absent page ends the measurement with the size found so far,
/// and so does the last page offset that fits the machine's word. A size
/// that does not fit the machine's word, or a reply that is not the answer
/// to a lookup, ends it with a failure.
pub open spec fn size_next(op: SizeOpView, reply: ReplyView) -> StepView<SizeOpView, usize> {
    match reply {
        ReplyView::Value(Some(page)) => if op.page_offset + page.len() > usize::MAX {
            StepView::Done(Err(VfsError::IoFstat))
        } else {
            let size = (op.page_offset + page.len()) as usize;
            if op.page_offset + PAGE_SIZE <= usize::MAX {
                let next = (op.page_offset + PAGE_SIZE) as usize;
                StepView::Ask(
                    RequestView::Get { key: page_key_of(op.path, next) },
                    SizeOpView { page_offset: next, size, ..op },
                )
            } else {
                StepView::Done(Ok(size))
            }
        },
        ReplyView::Value(None) => StepView::Done(Ok(op.size)),
        _ => StepView::Done(Err(VfsError::IoFstat)),
    }
}

/// The first step of a measurement of `path`: look up the page at offset 0.
pub open spec fn size_start(path: Seq<char>) -> StepView<SizeOpView, usize> {
    StepView::Ask(
        RequestView::Get { key: page_key_of(path, 0) },
        SizeOpView { path, page_offset: 0, size: 0 },
    )
}

/// The reaction of a measurement to a reply, as a value.
pub open spec fn size_reaction() -> spec_fn(SizeOpView, ReplyView) -> StepView<SizeOpView, usize> {
    |op: SizeOpView, reply: ReplyView| size_next(op, reply)
}

/// Whether the end of every page in the row of pages of `path` that starts
/// at `from` fits the machine's word.
pub open spec fn ends_fit(store: Store, path: Seq<char>, from: usize) -> bool
    decreases usize::MAX - from,
{
    if !has_page(store, path, from) {
        true
    } else if from + store[page_key_of(path, from)].len() > usize::MAX {
        false
    } else if from + PAGE_SIZE > usize::MAX {
        true
    } else {
        ends_fit(store, path, (from + PAGE_SIZE) as usize)
    }
}

impl SizeOp {
    pub(crate) fn begin(path: &str) -> (step: Step<SizeOp, usize>)
        ensures
            step@ == size_start(path@),
    {
        Step::Ask(
            StoreRequest::Get { key: page_key(path, 0) },
            SizeOp { path: String::from_str(path), page_offset: 0, size: 0 },
        )
    }

    /// Takes the store's reply to the lookup this measurement is waiting
    /// on and says what comes next.
    pub fn resume(self, reply: StoreReply) -> (step: Step<SizeOp, usize>)
        ensures
            step@ == size_next(self@, reply@),
    {
        match reply {
            StoreReply::Value(Some(page)) => {
                if page.len() > usize::MAX - self.page_offset {
                    return Step::Done(Err(VfsError::IoFstat));
                }
                let size = self.page_offset + page.len();
                if self.page_offset <= usize::MAX - PAGE_SIZE {
                    let next = self.page_offset + PAGE_SIZE;
                    let key = page_key(self.path.as_str(), next);
                    Step::Ask(
                        StoreRequest::Get { key },
                        SizeOp { page_offset: next, size, ..self },
                    )
                } else {
                    Step::Done(Ok(size))
                }
            },
            StoreReply::Value(None) => Step::Done(Ok(self.size)),
            _ => Step::Done(Err(VfsError::IoFstat)),
        }
    }
}

/// The size a measurement ends with when it stands at the page at `from`
/// with `so_far` found below.
spec fn size_scan(store: Store, path: Seq<char>, from: usize, so_far: nat) -> nat
    decreases usize::MAX - from,
{
    if !has_page(store, path, from) {
        so_far
    } else {
        let size = (from + store[page_key_of(path, from)].len()) as nat;
        if from + PAGE_SIZE > usize::MAX {
            size
        } else {
            size_scan(store, path, (from + PAGE_SIZE) as usize, size)
        }
    }
}

proof fn lemma_size_scan(store: Store, path: Seq<char>, from: usize, so_far: nat)
    ensures
        pages_from(store, path, from) == 0 ==> size_scan(store, path, from, so_far) == so_far,
        pages_from(store, path, from) > 0 ==> {
            let last = from + (pages_from(store, path, from) - 1) * PAGE_SIZE;
            &&& last <= usize::MAX
            &&& size_scan(store, path, from, so_far) == last + store[page_key_of(
                path,
                last as usize,
            )].len()
        },
    decreases usize::MAX - from,
{
    if has_page(store, path, from) && from + PAGE_SIZE <= usize::MAX {
        let next = (from + PAGE_SIZE) as usize;
        let size = (from + store[page_key_of(path, from)].len()) as nat;
        lemma_size_scan(store, path, next, size);
        let count = pages_from(store, path, next);
        assert(pages_from(store, path, from) == count + 1);
        if count > 0 {
            assert(next + (count - 1) * PAGE_SIZE == from + (count + 1 - 1) * PAGE_SIZE)
                by (nonlinear_arith)
                requires
                    next == from + PAGE_SIZE,
            ;
        }
    }
}

proof fn lemma_scan_fuel(op: SizeOpView, store: Store) -> (fuel: nat)
    requires
        ends_fit(store, op.path, op.page_offset),
    ensures
        size_scan(store, op.path, op.page_offset, op.size as nat) <= usize::MAX,
        drive(
            size_reaction(),
            StepView::Ask(RequestView::Get { key: page_key_of(op.path, op.page_offset) }, op),
            store,
            fuel,
        ) == Some(
            (
                store,
                Ok::<usize, VfsError>(
                    size_scan(store, op.path, op.page_offset, op.size as nat) as usize,
                ),
            ),
        ),
    decreases usize::MAX - op.page_offset,
{
    reveal_with_fuel(drive, 2);
    let here = page_key_of(op.path, op.page_offset);
    if has_page(store, op.path, op.page_offset) && op.page_offset + PAGE_SIZE <= usize::MAX {
        let next = (op.page_offset + PAGE_SIZE) as usize;
        let size = (op.page_offset + store[here].len()) as usize;
        let rest = lemma_scan_fuel(SizeOpView { page_offset: next, size, ..op }, store);
        rest + 1
    } else {
        1
    }
}

/// A measurement that the store serves without failing leaves the store
/// as it was and finds the size of the file, where the end of every page
/// fits the machine's word.
pub proof fn lemma_size_completes(store: Store, path: Seq<char>)
    requires
        ends_fit(store, path, 0),
    ensures
        file_size_of(store, path) <= usize::MAX,
        completes(
            size_reaction(),
            size_start(path),
            store,
            store,
            Ok(file_size_of(store, path) as usize),
        ),
{
    let op = SizeOpView { path, page_offset: 0, size: 0 };
    let fuel = lemma_scan_fuel(op, store);
    lemma_size_scan(store, path, 0, 0);
    assert(size_scan(store, path, 0, 0) == file_size_of(store, path));
    assert(drive(size_reaction(), size_start(path), store, fuel) == Some(
        (store, Ok::<usize, VfsError>(file_size_of(store, path) as usize)),
    ));
}

} // verus!
