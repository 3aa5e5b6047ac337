//! Removing the tail of a file: truncation to a new size, and deletion,
//! which is truncation to nothing followed by the removal of the marker.

use crate::error::VfsError;
use crate::page::{page_key, page_key_of, page_offset, page_offset_of, within_page, within_page_of, PAGE_SIZE};
use crate::model::{
    cut_at, deleted, dense, has_page, is_page_start, lemma_deleted_is_gone,
    lemma_truncated_is_dense, swept, truncated,
};
use crate::store::{
    completes, drive, lemma_completes_once, ReplyView, RequestView, Step, StepView, Store,
    StoreReply, StoreRequest,
};
use vstd::prelude::*;

verus! {

/// What a trim is waiting for.
#[derive(Clone, Copy, Debug, PartialEq, Eq, Structural)]
pub enum TrimPhase {
    /// The page that holds the new end of the file.
    Locate,
    /// The store's word that the shortened page was stored.
    Rewrite,
    /// Whether the page at the current offset exists.
    Probe,
    /// The store's word that the page at the current offset was removed.
    Remove,
    /// The store's word that the marker was removed.
    Marker,
}

/// A truncation or deletion under way.
pub struct TrimOp {
    path: String,
    page_offset: usize,
    cut: usize,
    phase: TrimPhase,
    whole: bool,
}

/// A trim as a plain value: the file, the offset of the page it is at, the
/// number of bytes the page at the new end keeps, what it waits for, and
/// whether the whole file goes, marker included.
pub struct TrimOpView {
    pub path: Seq<char>,
    pub page_offset: usize,
    pub cut: usize,
    pub phase: TrimPhase,
    pub whole: bool,
}

impl View for TrimOp {
    type V = TrimOpView;

    closed spec fn view(&self) -> TrimOpView {
        TrimOpView {
            path: self.path@,
            page_offset: self.page_offset,
            cut: self.cut,
            phase: self.phase,
            whole: self.whole,
        }
    }
}

/// The failure a trim reports when the store fails: that of a deletion
/// where the whole file goes, that of a truncation otherwise.
pub open spec fn trim_failure(op: TrimOpView) -> VfsError {
    if op.whole {
        VfsError::IoDelete
    } else {
        VfsError::IoTruncate
    }
}

/// A trim that has run out of pages: a deletion removes the marker, a
/// truncation is done.
pub open spec fn trim_finish(op: TrimOpView) -> StepView<TrimOpView, ()> {
    if op.whole {
        StepView::Ask(
            RequestView::Delete { key: op.path },
            TrimOpView { phase: TrimPhase::Marker, ..op },
        )
    } else {
        StepView::Done(Ok(()))
    }
}

/// A trim that is through with the page at its offset: it probes the next
/// page, or finishes where no further page offset fits the machine's word.
pub open spec fn trim_advance(op: TrimOpView) -> StepView<TrimOpView, ()> {
    if op.page_offset + PAGE_SIZE <= usize::MAX {
        let next = (op.page_offset + PAGE_SIZE) as usize;
        StepView::Ask(
            RequestView::Get { key: page_key_of(op.path, next) },
            TrimOpView { phase: TrimPhase::Probe, page_offset: next, ..op },
        )
    } else {
        trim_finish(op)
    }
}

/// How a trim reacts to the store's reply.
///
/// The page at the new end is cut to the bytes it keeps, if it holds more.
/// Then the pages above go, lowest first, up to the first one that is
/// absent. Any reply that does not fit the request ends the trim with its
/// failure; nothing is undone.
pub open spec fn trim_next(op: TrimOpView, reply: ReplyView) -> StepView<TrimOpView, ()> {
    let here = page_key_of(op.path, op.page_offset);
    match (op.phase, reply) {
        (TrimPhase::Locate, ReplyView::Value(Some(page))) => if op.cut < page.len() {
            StepView::Ask(
                RequestView::Put { key: here, value: page.subrange(0, op.cut as int) },
                TrimOpView { phase: TrimPhase::Rewrite, ..op },
            )
        } else {
            trim_advance(op)
        },
        (TrimPhase::Locate, ReplyView::Value(None)) => trim_advance(op),
        (TrimPhase::Rewrite, ReplyView::Done) => trim_advance(op),
        (TrimPhase::Probe, ReplyView::Value(Some(_))) => StepView::Ask(
            RequestView::Delete { key: here },
            TrimOpView { phase: TrimPhase::Remove, ..op },
        ),
        (TrimPhase::Probe, ReplyView::Value(None)) => trim_finish(op),
        (TrimPhase::Remove, ReplyView::Done) => trim_advance(op),
        (TrimPhase::Marker, ReplyView::Done) => StepView::Done(Ok(())),
        _ => StepView::Done(Err(trim_failure(op))),
    }
}

/// The first step of a deletion of `path`: probe the page at offset 0.
pub open spec fn delete_start(path: Seq<char>) -> StepView<TrimOpView, ()> {
    StepView::Ask(
        RequestView::Get { key: page_key_of(path, 0) },
        TrimOpView { path, page_offset: 0, cut: 0, phase: TrimPhase::Probe, whole: true },
    )
}

/// The first step of a truncation of `path` to `size` bytes: a deletion
/// where `size` is 0, else a look at the page that holds byte `size`.
pub open spec fn truncate_start(path: Seq<char>, size: usize) -> StepView<TrimOpView, ()> {
    if size == 0 {
        delete_start(path)
    } else {
        StepView::Ask(
            RequestView::Get { key: page_key_of(path, page_offset_of(size)) },
            TrimOpView {
                path,
                page_offset: page_offset_of(size),
                cut: within_page_of(size),
                phase: TrimPhase::Locate,
                whole: false,
            },
        )
    }
}

impl TrimOp {
    pub(crate) fn begin_delete(path: &str) -> (step: Step<TrimOp, ()>)
        ensures
            step@ == delete_start(path@),
    {
        Step::Ask(
            StoreRequest::Get { key: page_key(path, 0) },
            TrimOp {
                path: String::from_str(path),
                page_offset: 0,
                cut: 0,
                phase: TrimPhase::Probe,
                whole: true,
            },
        )
    }

    pub(crate) fn begin_truncate(path: &str, size: usize) -> (step: Step<TrimOp, ()>)
        ensures
            step@ == truncate_start(path@, size),
    {
        if size == 0 {
            return Self::begin_delete(path);
        }
        let start = page_offset(size);
        Step::Ask(
            StoreRequest::Get { key: page_key(path, start) },
            TrimOp {
                path: String::from_str(path),
                page_offset: start,
                cut: within_page(size),
                phase: TrimPhase::Locate,
                whole: false,
            },
        )
    }

    fn failure(&self) -> (e: VfsError)
        ensures
            e == trim_failure(self@),
    {
        if self.whole {
            VfsError::IoDelete
        } else {
            VfsError::IoTruncate
        }
    }

    fn finish(self) -> (step: Step<TrimOp, ()>)
        ensures
            step@ == trim_finish(self@),
    {
        if self.whole {
            let key = self.path.clone();
            Step::Ask(StoreRequest::Delete { key }, TrimOp { phase: TrimPhase::Marker, ..self })
        } else {
            Step::Done(Ok(()))
        }
    }

    fn advance(self) -> (step: Step<TrimOp, ()>)
        ensures
            step@ == trim_advance(self@),
    {
        if self.page_offset <= usize::MAX - PAGE_SIZE {
            let next = self.page_offset + PAGE_SIZE;
            let key = page_key(self.path.as_str(), next);
            Step::Ask(
                StoreRequest::Get { key },
                TrimOp { phase: TrimPhase::Probe, page_offset: next, ..self },
            )
        } else {
            self.finish()
        }
    }

    /// Takes the store's reply to the request this trim is waiting on and
    /// says what comes next.
    pub fn resume(self, reply: StoreReply) -> (step: Step<TrimOp, ()>)
        ensures
            step@ == trim_next(self@, reply@),
    {
        match self.phase {
            TrimPhase::Locate => match reply {
                StoreReply::Value(Some(page)) => {
                    if self.cut < page.len() {
                        let mut page = page;
                        page.truncate(self.cut);
                        let key = page_key(self.path.as_str(), self.page_offset);
                        Step::Ask(
                            StoreRequest::Put { key, value: page },
                            TrimOp { phase: TrimPhase::Rewrite, ..self },
                        )
                    } else {
                        self.advance()
                    }
                },
                StoreReply::Value(None) => self.advance(),
                _ => Step::Done(Err(self.failure())),
            },
            TrimPhase::Rewrite => match reply {
                StoreReply::Done => self.advance(),
                _ => Step::Done(Err(self.failure())),
            },
            TrimPhase::Probe => match reply {
                StoreReply::Value(Some(_)) => {
                    let key = page_key(self.path.as_str(), self.page_offset);
                    Step::Ask(
                        StoreRequest::Delete { key },
                        TrimOp { phase: TrimPhase::Remove, ..self },
                    )
                },
                StoreReply::Value(None) => self.finish(),
                _ => Step::Done(Err(self.failure())),
            },
            TrimPhase::Remove => match reply {
                StoreReply::Done => self.advance(),
                _ => Step::Done(Err(self.failure())),
            },
            TrimPhase::Marker => match reply {
                StoreReply::Done => Step::Done(Ok(())),
                _ => Step::Done(Err(self.failure())),
            },
        }
    }
}

/// The reaction of a trim to a reply, as a value.
pub open spec fn trim_reaction() -> spec_fn(TrimOpView, ReplyView) -> StepView<TrimOpView, ()> {
    |op: TrimOpView, reply: ReplyView| trim_next(op, reply)
}

/// The store once a trim that has run out of pages is done.
spec fn trim_end(store: Store, op: TrimOpView) -> Store {
    if op.whole {
        store.remove(op.path)
    } else {
        store
    }
}

proof fn lemma_finish_fuel(op: TrimOpView, store: Store) -> (fuel: nat)
    ensures
        drive(trim_reaction(), trim_finish(op), store, fuel) == Some(
            (trim_end(store, op), Ok::<(), VfsError>(())),
        ),
{
    reveal_with_fuel(drive, 3);
    if op.whole {
        1
    } else {
        0
    }
}

proof fn lemma_advance_fuel(op: TrimOpView, store: Store) -> (fuel: nat)
    ensures
        drive(trim_reaction(), trim_advance(op), store, fuel) == Some(
            (
                trim_end(
                    if op.page_offset + PAGE_SIZE <= usize::MAX {
                        swept(store, op.path, (op.page_offset + PAGE_SIZE) as usize)
                    } else {
                        store
                    },
                    op,
                ),
                Ok::<(), VfsError>(()),
            ),
        ),
    decreases usize::MAX - op.page_offset, 0nat,
{
    if op.page_offset + PAGE_SIZE <= usize::MAX {
        let next = (op.page_offset + PAGE_SIZE) as usize;
        lemma_probe_fuel(TrimOpView { phase: TrimPhase::Probe, page_offset: next, ..op }, store)
    } else {
        lemma_finish_fuel(op, store)
    }
}

proof fn lemma_probe_fuel(op: TrimOpView, store: Store) -> (fuel: nat)
    requires
        op.phase == TrimPhase::Probe,
    ensures
        drive(
            trim_reaction(),
            StepView::Ask(RequestView::Get { key: page_key_of(op.path, op.page_offset) }, op),
            store,
            fuel,
        ) == Some((trim_end(swept(store, op.path, op.page_offset), op), Ok::<(), VfsError>(()))),
    decreases usize::MAX - op.page_offset, 1nat,
{
    reveal_with_fuel(drive, 3);
    let here = page_key_of(op.path, op.page_offset);
    if store.dom().contains(here) {
        let removing = TrimOpView { phase: TrimPhase::Remove, ..op };
        let rest = lemma_advance_fuel(removing, store.remove(here));
        rest + 2
    } else {
        let rest = lemma_finish_fuel(op, store);
        rest + 1
    }
}

/// A deletion that the store serves without failing succeeds, and leaves
/// the store without the file's marker and without the row of pages that
/// starts at offset 0.
pub proof fn lemma_delete_completes(store: Store, path: Seq<char>)
    ensures
        completes(trim_reaction(), delete_start(path), store, deleted(store, path), Ok(())),
{
    let op = TrimOpView { path, page_offset: 0, cut: 0, phase: TrimPhase::Probe, whole: true };
    let fuel = lemma_probe_fuel(op, store);
    assert(drive(trim_reaction(), delete_start(path), store, fuel) == Some(
        (deleted(store, path), Ok::<(), VfsError>(())),
    ));
}

/// A truncation that the store serves without failing succeeds, and leaves
/// the store as `truncated` says.
pub proof fn lemma_truncate_completes(store: Store, path: Seq<char>, size: usize)
    ensures
        completes(
            trim_reaction(),
            truncate_start(path, size),
            store,
            truncated(store, path, size),
            Ok(()),
        ),
{
    if size == 0 {
        lemma_delete_completes(store, path);
    } else {
        reveal_with_fuel(drive, 3);
        let start = page_offset_of(size);
        let here = page_key_of(path, start);
        let op = TrimOpView {
            path,
            page_offset: start,
            cut: within_page_of(size),
            phase: TrimPhase::Locate,
            whole: false,
        };
        let fuel = if store.dom().contains(here) && op.cut < store[here].len() {
            let rewriting = TrimOpView { phase: TrimPhase::Rewrite, ..op };
            lemma_advance_fuel(rewriting, cut_at(store, path, size)) + 2
        } else {
            lemma_advance_fuel(op, store) + 1
        };
        assert(drive(trim_reaction(), truncate_start(path, size), store, fuel) == Some(
            (truncated(store, path, size), Ok::<(), VfsError>(())),
        ));
    }
}

/// However a truncation that the store serves ends, it succeeded, and a
/// file that had no gap before has none after.
pub proof fn lemma_truncate_keeps_dense(
    store: Store,
    path: Seq<char>,
    size: usize,
    end: Store,
    result: Result<(), VfsError>,
)
    requires
        dense(store, path),
        completes(trim_reaction(), truncate_start(path, size), store, end, result),
    ensures
        result is Ok,
        end == truncated(store, path, size),
        dense(end, path),
{
    lemma_truncate_completes(store, path, size);
    lemma_completes_once(
        trim_reaction(),
        truncate_start(path, size),
        store,
        end,
        result,
        truncated(store, path, size),
        Ok(()),
    );
    lemma_truncated_is_dense(store, path, size);
}

/// However a deletion that the store serves ends, it succeeded, and of a
/// file that had no gap nothing is left: neither the marker nor a page.
pub proof fn lemma_delete_leaves_nothing(
    store: Store,
    path: Seq<char>,
    end: Store,
    result: Result<(), VfsError>,
)
    requires
        dense(store, path),
        completes(trim_reaction(), delete_start(path), store, end, result),
    ensures
        result is Ok,
        end == deleted(store, path),
        !end.dom().contains(path),
        forall|offset: usize| is_page_start(offset) ==> !#[trigger] has_page(end, path, offset),
        dense(end, path),
{
    lemma_delete_completes(store, path);
    lemma_completes_once(
        trim_reaction(),
        delete_start(path),
        store,
        end,
        result,
        deleted(store, path),
        Ok(()),
    );
    lemma_deleted_is_gone(store, path);
}

} // verus!
