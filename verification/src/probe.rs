//! The operations that take one exchange with the store: the existence
//! check, the flush, and the marker an open file gets.

use crate::error::VfsError;
use crate::handle::{GrpcVfsHandle, HandleView};
use crate::model::{has_page, same_pages};
use crate::page::{lemma_page_key_is_not_path, page_key_of};
use crate::store::{
    completes, drive, ReplyView, RequestView, Step, StepView, Store, StoreReply, StoreRequest,
};
use vstd::prelude::*;

verus! {

/// An existence check under way: it waits for the lookup of the marker.
pub struct AccessOp {}

impl View for AccessOp {
    type V = ();

    open spec fn view(&self) -> () {
        ()
    }
}

/// How an existence check reacts to the store's reply: the file exists
/// where the marker was found, whatever it holds. Any reply that is not
/// the answer to a lookup ends it with an access failure.
pub open spec fn access_next(op: (), reply: ReplyView) -> StepView<(), bool> {
    match reply {
        ReplyView::Value(found) => StepView::Done(Ok(found is Some)),
        _ => StepView::Done(Err(VfsError::IoAccess)),
    }
}

/// The first step of an existence check of `path`: look up its marker.
pub open spec fn access_start(path: Seq<char>) -> StepView<(), bool> {
    StepView::Ask(RequestView::Get { key: path }, ())
}

/// The reaction of an existence check to a reply, as a value.
pub open spec fn access_reaction() -> spec_fn((), ReplyView) -> StepView<(), bool> {
    |op: (), reply: ReplyView| access_next(op, reply)
}

impl AccessOp {
    pub(crate) fn begin(path: &str) -> (step: Step<AccessOp, bool>)
        ensures
            step@ == access_start(path@),
    {
        Step::Ask(StoreRequest::Get { key: String::from_str(path) }, AccessOp {  })
    }

    /// Takes the store's reply to the lookup and says whether the file exists.
    pub fn resume(self, reply: StoreReply) -> (step: Step<AccessOp, bool>)
        ensures
            step@ == access_next(self@, reply@),
    {
        match reply {
            StoreReply::Value(found) => Step::Done(Ok(found.is_some())),
            _ => Step::Done(Err(VfsError::IoAccess)),
        }
    }
}

/// A flush under way: it waits for the store's word.
pub struct SyncOp {}

impl View for SyncOp {
    type V = ();

    open spec fn view(&self) -> () {
        ()
    }
}

/// How a flush reacts to the store's reply: the store's word that it is
/// done ends it well, anything else with a sync failure.
pub open spec fn sync_next(op: (), reply: ReplyView) -> StepView<(), ()> {
    match reply {
        ReplyView::Done => StepView::Done(Ok(())),
        _ => StepView::Done(Err(VfsError::IoFsync)),
    }
}

/// The one step of a flush.
pub open spec fn sync_start() -> StepView<(), ()> {
    StepView::Ask(RequestView::Flush, ())
}

impl SyncOp {
    pub(crate) fn begin() -> (step: Step<SyncOp, ()>)
        ensures
            step@ == sync_start(),
    {
        Step::Ask(StoreRequest::Flush, SyncOp {  })
    }

    /// Takes the store's reply to the flush.
    pub fn resume(self, reply: StoreReply) -> (step: Step<SyncOp, ()>)
        ensures
            step@ == sync_next(self@, reply@),
    {
        match reply {
            StoreReply::Done => Step::Done(Ok(())),
            _ => Step::Done(Err(VfsError::IoFsync)),
        }
    }
}

/// An open under way: it waits for the store's word that the marker is
/// set, holding the handle it will give out.
pub struct OpenOp {
    handle: GrpcVfsHandle,
}

impl View for OpenOp {
    type V = HandleView;

    closed spec fn view(&self) -> HandleView {
        self.handle@
    }
}

/// How an open reacts to the store's reply: once the marker is set the
/// handle is given out; anything else means the file cannot be opened.
pub open spec fn open_next(op: HandleView, reply: ReplyView) -> StepView<HandleView, HandleView> {
    match reply {
        ReplyView::Done => StepView::Done(Ok(op)),
        _ => StepView::Done(Err(VfsError::CantOpen)),
    }
}

/// The reaction of an open to a reply, as a value.
pub open spec fn open_reaction() -> spec_fn(HandleView, ReplyView) -> StepView<
    HandleView,
    HandleView,
> {
    |op: HandleView, reply: ReplyView| open_next(op, reply)
}

impl OpenOp {
    pub(crate) fn begin(handle: GrpcVfsHandle) -> (step: Step<OpenOp, GrpcVfsHandle>)
        ensures
            step@ == StepView::<HandleView, HandleView>::Ask(
                RequestView::Put { key: handle@.path, value: Seq::empty() },
                handle@,
            ),
    {
        let key = handle.path.clone();
        Step::Ask(StoreRequest::Put { key, value: Vec::new() }, OpenOp { handle })
    }

    /// Takes the store's reply to the put of the marker.
    pub fn resume(self, reply: StoreReply) -> (step: Step<OpenOp, GrpcVfsHandle>)
        ensures
            step@ == open_next(self@, reply@),
    {
        match reply {
            StoreReply::Done => Step::Done(Ok(self.handle)),
            _ => Step::Done(Err(VfsError::CantOpen)),
        }
    }
}

/// An existence check that the store serves without failing leaves the
/// store as it was and says whether the marker is there.
pub proof fn lemma_access_completes(store: Store, path: Seq<char>)
    ensures
        completes(
            access_reaction(),
            access_start(path),
            store,
            store,
            Ok(store.dom().contains(path)),
        ),
{
    reveal_with_fuel(drive, 2);
    assert(drive(access_reaction(), access_start(path), store, 1) == Some(
        (store, Ok::<bool, VfsError>(store.dom().contains(path))),
    ));
}

/// The reaction of a flush to a reply, as a value.
pub open spec fn sync_reaction() -> spec_fn((), ReplyView) -> StepView<(), ()> {
    |op: (), reply: ReplyView| sync_next(op, reply)
}

/// A flush that the store serves without failing succeeds and leaves the
/// contents of the store as they were.
pub proof fn lemma_sync_completes(store: Store)
    ensures
        completes(sync_reaction(), sync_start(), store, store, Ok(())),
{
    reveal_with_fuel(drive, 2);
    assert(drive(sync_reaction(), sync_start(), store, 1) == Some(
        (store, Ok::<(), VfsError>(())),
    ));
}

/// An open that the store serves without failing gives out its handle and
/// leaves the file's marker in the store, empty, whether or not it was
/// there before; the pages of the file stay as they were.
pub proof fn lemma_open_completes(store: Store, handle: HandleView)
    ensures
        completes(
            open_reaction(),
            StepView::Ask(RequestView::Put { key: handle.path, value: Seq::empty() }, handle),
            store,
            store.insert(handle.path, Seq::empty()),
            Ok(handle),
        ),
        store.insert(handle.path, Seq::empty()).dom().contains(handle.path),
        same_pages(store, store.insert(handle.path, Seq::empty()), handle.path),
{
    reveal_with_fuel(drive, 2);
    let first = StepView::<HandleView, HandleView>::Ask(
        RequestView::Put { key: handle.path, value: Seq::empty() },
        handle,
    );
    assert(drive(open_reaction(), first, store, 1) == Some(
        (store.insert(handle.path, Seq::empty()), Ok::<HandleView, VfsError>(handle)),
    ));
    assert forall|offset: usize|
        has_page(store.insert(handle.path, Seq::empty()), handle.path, offset) == has_page(
            store,
            handle.path,
            offset,
        ) && store.insert(handle.path, Seq::empty())[#[trigger] page_key_of(handle.path, offset)]
            == store[page_key_of(handle.path, offset)] by {
        lemma_page_key_is_not_path(handle.path, offset);
    }
}

} // verus!
