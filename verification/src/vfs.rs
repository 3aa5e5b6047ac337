//! The adapter itself: the calls the SQL engine makes, each answered with
//! the first step of the operation that serves it.

use crate::batch::{commit_start, CommitOp, CommitOpView};
use crate::error::VfsError;
use crate::file_state::{
    all_fit, fits, idle, BatchWrite, FileState, FileStateView, WriteView,
};
use crate::handle::{GrpcVfsHandle, HandleView};
use crate::lock_manager::{
    compatible, grantable, is_strongest, lemma_own_lock_never_blocks, lemma_release_unblocks, lemma_second_lock,
    lemma_wait_has_a_cause, locks_on, valid_table, with_level, with_locks, LockLevel, LockManager,
    LockOutcome, Table,
};
use crate::path_table::PathTable;
use crate::probe::{access_start, sync_start, AccessOp, OpenOp, SyncOp};
use crate::read::{read_start, ReadOp, ReadOpView};
use crate::size::{size_start, SizeOp, SizeOpView};
use crate::page::within_page;
use crate::store::{RequestView, Step, StepView};
use crate::trim::{delete_start, truncate_start, TrimOp, TrimOpView};
use crate::write::{write_start, WriteOp, WriteOpView};
use vstd::prelude::*;
use vstd::slice::slice_to_vec;

verus! {

/// Control signal that opens an atomic batch on a file.
pub const FCNTL_BEGIN_ATOMIC_WRITE: i32 = 31;

/// Control signal that commits the open batch.
pub const FCNTL_COMMIT_ATOMIC_WRITE: i32 = 32;

/// Control signal that drops the open batch.
pub const FCNTL_ROLLBACK_ATOMIC_WRITE: i32 = 33;

/// Capability flag: writes between the begin and the commit of a batch are
/// atomic.
pub const IOCAP_BATCH_ATOMIC: i32 = 0x4000;

/// Capability flags the adapter always reports: atomic writes, safe
/// append, sequential writes and power-safe overwrite.
pub const DEFAULT_DEVICE_CHARACTERISTICS: i32 = 0x1601;

/// What the deployment can do.
#[derive(Clone, Copy, Debug, PartialEq, Eq, Structural)]
pub struct Capabilities {
    /// Whether a transaction's writes can be committed as one batch.
    pub atomic_batch: bool,
    /// Whether files can be opened for reading only.
    pub point_in_time_reads: bool,
    /// The unit of I/O alignment, in bytes.
    pub sector_size: i32,
}

/// The adapter: what the deployment can do, the state of the files that
/// have one, the locks the handles hold, and the identity the next handle
/// gets.
pub struct GrpcVfs {
    capabilities: Capabilities,
    files: PathTable<FileState>,
    locks: LockManager,
    next_handle_id: u64,
}

/// The adapter as a plain value.
pub struct VfsView {
    pub capabilities: Capabilities,
    pub files: Map<Seq<char>, FileStateView>,
    pub locks: Table,
    pub next_handle_id: u64,
}

impl View for GrpcVfs {
    type V = VfsView;

    closed spec fn view(&self) -> VfsView {
        VfsView {
            capabilities: self.capabilities,
            files: self.files@,
            locks: self.locks@,
            next_handle_id: self.next_handle_id,
        }
    }
}

/// The state of `path`: that of a file that nothing was done to where the
/// adapter has none for it.
pub open spec fn state_of(files: Map<Seq<char>, FileStateView>, path: Seq<char>) -> FileStateView {
    if files.dom().contains(path) {
        files[path]
    } else {
        idle()
    }
}

/// The capabilities of an adapter made by `new`.
pub open spec fn default_capabilities() -> Capabilities {
    Capabilities { atomic_batch: true, point_in_time_reads: false, sector_size: 4096 }
}

/// The path a handle gets: the one given, or the empty one.
pub open spec fn path_or_empty(path: Option<Seq<char>>) -> Seq<char> {
    match path {
        Some(path) => path,
        None => Seq::empty(),
    }
}

/// What an open does to the adapter, and its first step.
///
/// It fails, and changes nothing, where the file is to be opened for
/// reading only and the deployment cannot do that, and where no identity is
/// left for the handle. Otherwise the handle gets the next identity. A file
/// with a path gets its marker set in the store before the handle is given
/// out; one without is given out at once.
pub open spec fn open_step(vfs: VfsView, path: Option<Seq<char>>, readonly: bool) -> (
    VfsView,
    StepView<HandleView, HandleView>,
) {
    if (readonly && !vfs.capabilities.point_in_time_reads) || vfs.next_handle_id == u64::MAX {
        (vfs, StepView::Done(Err(VfsError::CantOpen)))
    } else {
        let handle = HandleView {
            path: path_or_empty(path),
            readonly,
            handle_id: vfs.next_handle_id,
        };
        let after = VfsView { next_handle_id: (vfs.next_handle_id + 1) as u64, ..vfs };
        if handle.path.len() == 0 {
            (after, StepView::Done(Ok(handle)))
        } else {
            (
                after,
                StepView::Ask(RequestView::Put { key: handle.path, value: Seq::empty() }, handle),
            )
        }
    }
}

/// What a write does to the adapter, and its first step.
///
/// A write that its page cannot hold fails at once. While a batch is open
/// on the file the write joins the buffer and is done, with no request to
/// the store. Otherwise it goes to the store. Either way the file has a
/// state from then on.
pub open spec fn write_step(vfs: VfsView, path: Seq<char>, offset: usize, data: Seq<u8>) -> (
    VfsView,
    StepView<WriteOpView, usize>,
) {
    let write = WriteView { offset, data };
    let state = state_of(vfs.files, path);
    if !fits(write) {
        (vfs, StepView::Done(Err(VfsError::IoWrite)))
    } else if state.batch_open {
        let buffered = FileStateView {
            pending_writes: state.pending_writes.push(write),
            ..state
        };
        (
            VfsView { files: vfs.files.insert(path, buffered), ..vfs },
            StepView::Done(Ok(data.len() as usize)),
        )
    } else {
        (VfsView { files: vfs.files.insert(path, state), ..vfs }, write_start(path, offset, data))
    }
}

/// What a control signal does to the adapter, and its first step.
///
/// The begin of a batch opens it. The rollback closes it and drops the
/// buffer; the store is not asked anything. The commit closes it, empties
/// the buffer and starts the commit of what the buffer held. Any other
/// signal is not handled, and changes nothing.
pub open spec fn control_step(vfs: VfsView, path: Seq<char>, op: i32) -> (
    VfsView,
    StepView<CommitOpView, ()>,
) {
    let state = state_of(vfs.files, path);
    if op == FCNTL_BEGIN_ATOMIC_WRITE {
        let opened = FileStateView { batch_open: true, ..state };
        (VfsView { files: vfs.files.insert(path, opened), ..vfs }, StepView::Done(Ok(())))
    } else if op == FCNTL_COMMIT_ATOMIC_WRITE {
        (
            VfsView { files: vfs.files.insert(path, idle()), ..vfs },
            commit_start(path, state.pending_writes),
        )
    } else if op == FCNTL_ROLLBACK_ATOMIC_WRITE {
        (VfsView { files: vfs.files.insert(path, idle()), ..vfs }, StepView::Done(Ok(())))
    } else {
        (vfs, StepView::Done(Err(VfsError::NotFound)))
    }
}

/// What a request for a lock does to the adapter, and its outcome.
///
/// The lock is granted if and only if it is compatible with the lock of
/// every other handle on the file; the handle's own lock never stands in
/// the way. A lock that is granted is entered in place of the handle's
/// earlier one. One that is not leaves the adapter as it was: the handle
/// must wait, and ask again after the next release on the file.
pub open spec fn lock_step(vfs: VfsView, path: Seq<char>, handle_id: u64, level: LockLevel) -> (
    VfsView,
    LockOutcome,
) {
    if grantable(locks_on(vfs.locks, path), handle_id, level) {
        (
            VfsView {
                locks: with_locks(
                    vfs.locks,
                    path,
                    with_level(locks_on(vfs.locks, path), handle_id, level),
                ),
                ..vfs
            },
            LockOutcome::Granted,
        )
    } else {
        (vfs, LockOutcome::MustWait)
    }
}

/// What a release does to the locks, and whether the handles that wait
/// for the file must be woken, which they must where the file had locks.
/// The handle's lock is lowered to `level`, or dropped where `level` is
/// `Unlocked`; a file without locks is left alone.
pub open spec fn released(locks: Table, path: Seq<char>, handle_id: u64, level: LockLevel) -> (
    Table,
    bool,
) {
    if locks.dom().contains(path) {
        (with_locks(locks, path, with_level(locks[path], handle_id, level)), true)
    } else {
        (locks, false)
    }
}

/// What an unlock does to the adapter, and whether waiters must be woken.
pub open spec fn unlock_step(
    vfs: VfsView,
    path: Seq<char>,
    handle_id: u64,
    level: LockLevel,
) -> (VfsView, bool) {
    let (locks, wake) = released(vfs.locks, path, handle_id, level);
    (VfsView { locks, ..vfs }, wake)
}

/// What the close of a handle does to the adapter, and whether waiters
/// must be woken. The state of the file goes, and with it whatever an open
/// batch had buffered; the handle's lock is dropped.
pub open spec fn close_step(vfs: VfsView, path: Seq<char>, handle_id: u64) -> (VfsView, bool) {
    let (locks, wake) = released(vfs.locks, path, handle_id, LockLevel::Unlocked);
    (VfsView { files: vfs.files.remove(path), locks, ..vfs }, wake)
}

/// The path of an open call as a plain value.
pub open spec fn path_view(path: Option<&str>) -> Option<Seq<char>> {
    match path {
        Some(path) => Some(path@),
        None => None,
    }
}

impl GrpcVfs {
    /// An adapter that commits batches atomically, opens no file for
    /// reading only, and aligns I/O to 4096 bytes. No file has a state
    /// yet, no lock is held, and the first handle gets the identity 1.
    pub fn new() -> (vfs: Self)
        ensures
            vfs@ == (VfsView {
                capabilities: default_capabilities(),
                files: Map::empty(),
                locks: Map::empty(),
                next_handle_id: 1,
            }),
    {
        Self::with_capabilities(
            Capabilities { atomic_batch: true, point_in_time_reads: false, sector_size: 4096 },
        )
    }

    /// An adapter for a deployment that can do what `capabilities` says.
    pub fn with_capabilities(capabilities: Capabilities) -> (vfs: Self)
        ensures
            vfs@ == (VfsView {
                capabilities,
                files: Map::empty(),
                locks: Map::empty(),
                next_handle_id: 1,
            }),
    {
        GrpcVfs { capabilities, files: PathTable::new(), locks: LockManager::new(), next_handle_id: 1 }
    }

    /// Opens `path`, for reading only if `readonly` is set.
    ///
    /// The open fails where the file is to be opened for reading only and
    /// the deployment cannot do that, or no identity is left. Otherwise the
    /// handle gets an identity that no other handle has; a file with a path
    /// has its marker set before the handle is given out.
    pub fn open(&mut self, path: Option<&str>, readonly: bool) -> (step: Step<
        OpenOp,
        GrpcVfsHandle,
    >)
        ensures
            (final(self)@, step@) == open_step(old(self)@, path_view(path), readonly),
    {
        if readonly && !self.capabilities.point_in_time_reads {
            return Step::Done(Err(VfsError::CantOpen));
        }
        if self.next_handle_id == u64::MAX {
            return Step::Done(Err(VfsError::CantOpen));
        }
        let handle_id = self.next_handle_id;
        self.next_handle_id = handle_id + 1;
        let path = match path {
            Some(path) => path,
            None => {
                proof {
                    reveal_strlit("");
                }
                assert(""@ =~= Seq::<char>::empty());
                ""
            },
        };
        let handle = GrpcVfsHandle::new(String::from_str(path), readonly, handle_id);
        if path.is_empty() {
            assert(path@ =~= Seq::<char>::empty());
            Step::Done(Ok(handle))
        } else {
            OpenOp::begin(handle)
        }
    }

    /// Deletes the file `path`: its pages, lowest first, up to the first
    /// one that is absent, then its marker. A failure of the store ends the
    /// deletion with a delete failure; what is gone by then stays gone.
    pub fn delete(&self, path: &str) -> (step: Step<TrimOp, ()>)
        ensures
            step@ == delete_start(path@),
    {
        TrimOp::begin_delete(path)
    }

    /// Asks whether the file `path` exists, which it does where the store
    /// has its marker. A failure of the store is an access failure.
    pub fn access(&self, path: &str) -> (step: Step<AccessOp, bool>)
        ensures
            step@ == access_start(path@),
    {
        AccessOp::begin(path)
    }

    /// Measures the file of `handle`: its pages are looked up from offset
    /// 0 upward, and the file ends where the last page before the first
    /// absent one ends. A failure of the store is a failure to measure.
    pub fn file_size(&self, handle: &GrpcVfsHandle) -> (step: Step<SizeOp, usize>)
        ensures
            step@ == size_start(handle.path@),
    {
        SizeOp::begin(handle.path.as_str())
    }

    /// Truncates the file of `handle` to `size` bytes. A file is never
    /// made longer. To truncate to nothing is to delete the file. Otherwise
    /// the page that holds byte `size` is cut to end there, where it held
    /// more, and the pages above go, lowest first, up to the first one that
    /// is absent. A failure of the store ends the truncation with a
    /// truncate failure; what is gone by then stays gone.
    pub fn truncate(&self, handle: &GrpcVfsHandle, size: usize) -> (step: Step<TrimOp, ()>)
        ensures
            step@ == truncate_start(handle.path@, size),
    {
        TrimOp::begin_truncate(handle.path.as_str(), size)
    }

    /// Writes `data` at `offset` of the file of `handle`.
    ///
    /// While a batch is open on the file the write is buffered and done at
    /// once, without a request to the store. Otherwise the page that holds
    /// the offset is fetched, the bytes are laid over it, zeros filling what
    /// lies between its end and the write, and the page is stored. The
    /// result is the number of bytes taken, which is all of them. A write
    /// that its page cannot hold, and a failure of the store, are write
    /// failures.
    pub fn write(&mut self, handle: &GrpcVfsHandle, offset: usize, data: &[u8]) -> (step: Step<
        WriteOp,
        usize,
    >)
        ensures
            (final(self)@, step@) == write_step(old(self)@, handle.path@, offset, data@),
    {
        if data.len() > usize::MAX - within_page(offset) {
            return Step::Done(Err(VfsError::IoWrite));
        }
        let ghost files = self.files@;
        let path = handle.path.as_str();
        let mut state = match self.files.remove(path) {
            Some(state) => state,
            None => FileState::new(),
        };
        assert(state@ == state_of(files, path@));
        if state.batch_open() {
            state.buffer(BatchWrite { offset, data: slice_to_vec(data) });
            self.files.insert(path, state);
            assert(self.files@ =~= files.insert(path@, state@));
            Step::Done(Ok(data.len()))
        } else {
            self.files.insert(path, state);
            assert(self.files@ =~= files.insert(path@, state@));
            WriteOp::begin(path, offset, slice_to_vec(data))
        }
    }

    /// Reads up to `len` bytes at `offset` of the file of `handle`: the
    /// bytes of the page that holds the offset, from the offset to the end
    /// of the page, and no more than `len`. Where the page is absent or ends
    /// at or before the offset the read gets no bytes, which is no failure.
    /// A failure of the store is a read failure.
    pub fn read(&self, handle: &GrpcVfsHandle, offset: usize, len: usize) -> (step: Step<
        ReadOp,
        Vec<u8>,
    >)
        ensures
            step@ == read_start(handle.path@, offset, len),
    {
        ReadOp::begin(handle.path.as_str(), offset, len)
    }

    /// Closes `handle`. The state of its file goes, and with it whatever
    /// an open batch had buffered: nothing of it is written. Whatever lock
    /// the handle holds is dropped. The close never fails; its result says
    /// whether the file had locks, in which case the handles that wait for
    /// it must all be woken.
    pub fn close(&mut self, handle: GrpcVfsHandle) -> (result: Result<bool, VfsError>)
        ensures
            valid_table(final(self)@.locks),
            result matches Ok(wake) && (final(self)@, wake) == close_step(
                old(self)@,
                handle.path@,
                handle.handle_id,
            ),
    {
        let _ = self.files.remove(handle.path.as_str());
        let wake = self.locks.remove_handle(handle.path.as_str(), handle.handle_id);
        Ok(wake)
    }

    /// The capability flags: the default ones, and the flag for atomic
    /// batches where the deployment has them.
    pub fn device_characteristics(&self) -> (flags: i32)
        ensures
            self@.capabilities.atomic_batch ==> flags == 0x5601,
            !self@.capabilities.atomic_batch ==> flags == DEFAULT_DEVICE_CHARACTERISTICS,
            flags == DEFAULT_DEVICE_CHARACTERISTICS | (if self@.capabilities.atomic_batch {
                IOCAP_BATCH_ATOMIC
            } else {
                0i32
            }),
    {
        assert(0x1601i32 | 0x4000i32 == 0x5601i32) by (bit_vector);
        assert(0x1601i32 | 0i32 == 0x1601i32) by (bit_vector);
        if self.capabilities.atomic_batch {
            0x5601
        } else {
            DEFAULT_DEVICE_CHARACTERISTICS
        }
    }

    /// Answers an introspection query. The liveness probe is answered
    /// with a fixed string; any other name is declined.
    pub fn pragma(&self, handle: &GrpcVfsHandle, name: &str) -> (answer: Option<String>)
        ensures
            name@ == "is_memory_server"@ ==> (answer matches Some(text) && text@ == "maybe?"@),
            name@ != "is_memory_server"@ ==> answer is None,
    {
        if String::from_str(name) == String::from_str("is_memory_server") {
            Some(String::from_str("maybe?"))
        } else {
            None
        }
    }

    /// Takes a control signal for the file of `handle`: the begin, the
    /// commit or the rollback of an atomic batch. The commit fetches every
    /// page that the buffered writes touch, applies the writes in their
    /// order and submits the new pages as one batch. Any other signal is
    /// answered as not found.
    pub fn file_control(&mut self, handle: &GrpcVfsHandle, op: i32) -> (step: Step<CommitOp, ()>)
        ensures
            (final(self)@, step@) == control_step(old(self)@, handle.path@, op),
    {
        if op != FCNTL_BEGIN_ATOMIC_WRITE && op != FCNTL_COMMIT_ATOMIC_WRITE && op
            != FCNTL_ROLLBACK_ATOMIC_WRITE {
            return Step::Done(Err(VfsError::NotFound));
        }
        let ghost files = self.files@;
        let path = handle.path.as_str();
        let mut state = match self.files.remove(path) {
            Some(state) => state,
            None => FileState::new(),
        };
        assert(state@ == state_of(files, path@));
        if op == FCNTL_BEGIN_ATOMIC_WRITE {
            state.set_batch_open(true);
            self.files.insert(path, state);
            assert(self.files@ =~= files.insert(path@, state@));
            Step::Done(Ok(()))
        } else {
            state.set_batch_open(false);
            let writes = state.take_pending();
            self.files.insert(path, state);
            assert(self.files@ =~= files.insert(path@, idle()));
            if op == FCNTL_COMMIT_ATOMIC_WRITE {
                CommitOp::begin(path, writes)
            } else {
                Step::Done(Ok(()))
            }
        }
    }

    /// The unit of I/O alignment.
    pub fn sector_size(&self) -> (size: i32)
        ensures
            size == self@.capabilities.sector_size,
    {
        self.capabilities.sector_size
    }

    /// Lowers the lock of `handle` on its file to `level`, or drops it
    /// where `level` is `Unlocked`. A file on which no lock is held is left
    /// alone. The result says whether the file had locks, in which case the
    /// handles that wait for it must all be woken.
    pub fn unlock(&mut self, handle: &GrpcVfsHandle, level: LockLevel) -> (wake: bool)
        ensures
            valid_table(final(self)@.locks),
            (final(self)@, wake) == unlock_step(
                old(self)@,
                handle.path@,
                handle.handle_id,
                level,
            ),
    {
        self.locks.unlock(handle.path.as_str(), handle.handle_id, level)
    }

    /// Asks for the lock `level` on the file of `handle`. The lock is
    /// granted if and only if it is compatible with the lock of every other
    /// handle on the file; a handle never waits for itself. A handle that
    /// must wait is to ask again after the next release on the file.
    pub fn lock(&mut self, handle: &GrpcVfsHandle, level: LockLevel) -> (outcome: LockOutcome)
        ensures
            valid_table(final(self)@.locks),
            (final(self)@, outcome) == lock_step(
                old(self)@,
                handle.path@,
                handle.handle_id,
                level,
            ),
    {
        self.locks.lock(handle.path.as_str(), handle.handle_id, level)
    }

    /// The strongest lock any handle holds on `path`; `Unlocked` where none
    /// is held.
    pub fn get_max_lock_level(&self, path: &str) -> (level: LockLevel)
        ensures
            is_strongest(locks_on(self@.locks, path@), level),
    {
        self.locks.get_max_lock_level(path)
    }

    /// Asks the store to make what was written durable. A store that
    /// cannot is a sync failure.
    pub fn sync(&self, handle: &GrpcVfsHandle) -> (step: Step<SyncOp, ()>)
        ensures
            step@ == sync_start(),
    {
        SyncOp::begin()
    }
}

/// The handle an open gives out, or will give out once the marker is set;
/// none where the open failed.
pub open spec fn opened(step: StepView<HandleView, HandleView>) -> Option<HandleView> {
    match step {
        StepView::Ask(_, handle) => Some(handle),
        StepView::Done(Ok(handle)) => Some(handle),
        StepView::Done(Err(_)) => None,
    }
}

/// Every handle gets an identity that no handle opened before it has, and
/// no handle opened after it will get.
pub proof fn lemma_identities_are_fresh(vfs: VfsView, path: Option<Seq<char>>, readonly: bool)
    ensures
        vfs.next_handle_id <= open_step(vfs, path, readonly).0.next_handle_id,
        opened(open_step(vfs, path, readonly).1) matches Some(handle) ==> vfs.next_handle_id
            <= handle.handle_id < open_step(vfs, path, readonly).0.next_handle_id,
{
}

/// Writes and control signals leave the identities alone.
pub proof fn lemma_identities_are_kept(
    vfs: VfsView,
    path: Seq<char>,
    offset: usize,
    data: Seq<u8>,
    op: i32,
)
    ensures
        write_step(vfs, path, offset, data).0.next_handle_id == vfs.next_handle_id,
        control_step(vfs, path, op).0.next_handle_id == vfs.next_handle_id,
{
}

/// The adapter after the writes of `writes` were made to `path`, one
/// call each, oldest first.
pub open spec fn after_writes(vfs: VfsView, path: Seq<char>, writes: Seq<WriteView>) -> VfsView
    decreases writes.len(),
{
    if writes.len() == 0 {
        vfs
    } else {
        write_step(
            after_writes(vfs, path, writes.drop_last()),
            path,
            writes.last().offset,
            writes.last().data,
        ).0
    }
}

/// While a batch is open on a file, writes to it ask nothing of the
/// store: each is done at once, having taken all its bytes, and the buffer
/// holds them in the order in which they were made.
pub proof fn lemma_batch_buffers_writes(vfs: VfsView, path: Seq<char>, writes: Seq<WriteView>)
    requires
        state_of(vfs.files, path).batch_open,
        all_fit(writes),
    ensures
        state_of(after_writes(vfs, path, writes).files, path) == (FileStateView {
            pending_writes: state_of(vfs.files, path).pending_writes + writes,
            batch_open: true,
        }),
        forall|i: int|
            0 <= i < writes.len() ==> write_step(
                after_writes(vfs, path, writes.subrange(0, i)),
                path,
                (#[trigger] writes[i]).offset,
                writes[i].data,
            ).1 == StepView::<WriteOpView, usize>::Done(Ok(writes[i].data.len() as usize)),
    decreases writes.len(),
{
    let before = state_of(vfs.files, path);
    if writes.len() == 0 {
        assert(before.pending_writes + writes =~= before.pending_writes);
    } else {
        let front = writes.drop_last();
        let last = writes.last();
        assert forall|i: int| 0 <= i < front.len() implies fits(#[trigger] front[i]) by {
            assert(front[i] == writes[i]);
        }
        lemma_batch_buffers_writes(vfs, path, front);
        assert(fits(writes[writes.len() - 1]));
        assert(before.pending_writes + writes =~= (before.pending_writes + front).push(last));
        assert forall|i: int| 0 <= i < writes.len() implies write_step(
            after_writes(vfs, path, writes.subrange(0, i)),
            path,
            (#[trigger] writes[i]).offset,
            writes[i].data,
        ).1 == StepView::<WriteOpView, usize>::Done(Ok(writes[i].data.len() as usize)) by {
            if i < front.len() {
                assert(front.subrange(0, i) =~= writes.subrange(0, i));
                assert(front[i] == writes[i]);
            } else {
                assert(writes.subrange(0, i) =~= front);
            }
        }
    }
}

/// What a batch comes to. After the begin of a batch and the writes of
/// `writes`, the commit is the commit of those writes, in their order,
/// after whatever the buffer held before; the rollback asks nothing of the
/// store. Either way the file is left without a batch and with an empty
/// buffer.
pub proof fn lemma_batch_ends(vfs: VfsView, path: Seq<char>, writes: Seq<WriteView>)
    requires
        all_fit(writes),
    ensures
        ({
            let begun = control_step(vfs, path, FCNTL_BEGIN_ATOMIC_WRITE).0;
            let buffered = after_writes(begun, path, writes);
            let commit = control_step(buffered, path, FCNTL_COMMIT_ATOMIC_WRITE);
            let rollback = control_step(buffered, path, FCNTL_ROLLBACK_ATOMIC_WRITE);
            &&& commit.1 == commit_start(path, state_of(vfs.files, path).pending_writes + writes)
            &&& rollback.1 == StepView::<CommitOpView, ()>::Done(Ok(()))
            &&& state_of(commit.0.files, path) == idle()
            &&& state_of(rollback.0.files, path) == idle()
        }),
{
    let begun = control_step(vfs, path, FCNTL_BEGIN_ATOMIC_WRITE).0;
    assert(state_of(begun.files, path).batch_open);
    lemma_batch_buffers_writes(begun, path, writes);
}

/// Locks and files do not touch each other: an open, a write and a
/// control signal leave the locks as they are, and a request for a lock
/// and an unlock leave the files' states and the identities as they are.
pub proof fn lemma_locks_are_kept(
    vfs: VfsView,
    path: Seq<char>,
    open_path: Option<Seq<char>>,
    readonly: bool,
    offset: usize,
    data: Seq<u8>,
    op: i32,
    handle_id: u64,
    level: LockLevel,
)
    ensures
        open_step(vfs, open_path, readonly).0.locks == vfs.locks,
        write_step(vfs, path, offset, data).0.locks == vfs.locks,
        control_step(vfs, path, op).0.locks == vfs.locks,
        lock_step(vfs, path, handle_id, level).0 == (VfsView {
            locks: lock_step(vfs, path, handle_id, level).0.locks,
            ..vfs
        }),
        unlock_step(vfs, path, handle_id, level).0 == (VfsView {
            locks: unlock_step(vfs, path, handle_id, level).0.locks,
            ..vfs
        }),
{
}

/// For every pair of levels: on a file without locks a handle gets the
/// lock it asks for, and after it another handle gets its lock at once if
/// and only if the two levels are compatible, or the first took no lock
/// at all; otherwise it must wait.
pub proof fn lemma_second_handle_waits(
    vfs: VfsView,
    path: Seq<char>,
    first: LockLevel,
    second: LockLevel,
    holder: u64,
    asker: u64,
)
    requires
        holder != asker,
        !vfs.locks.dom().contains(path),
    ensures
        lock_step(vfs, path, holder, first).1 == LockOutcome::Granted,
        lock_step(lock_step(vfs, path, holder, first).0, path, asker, second).1 == if first
            == LockLevel::Unlocked || compatible(second, first) {
            LockOutcome::Granted
        } else {
            LockOutcome::MustWait
        },
{
    lemma_second_lock(first, second, holder, asker);
    let none = Map::<u64, LockLevel>::empty();
    assert(locks_on(vfs.locks, path) == none);
    let held = with_level(none, holder, first);
    let after = lock_step(vfs, path, holder, first).0;
    assert(locks_on(after.locks, path) =~= held) by {
        if first == LockLevel::Unlocked {
            assert(held =~= none);
        } else {
            assert(held.dom().contains(holder));
        }
    }
}

/// A handle never waits for itself: whether it gets a lock does not
/// depend on the lock it holds.
pub proof fn lemma_handle_never_waits_for_itself(
    vfs: VfsView,
    path: Seq<char>,
    handle_id: u64,
    own: LockLevel,
    requested: LockLevel,
)
    ensures
        lock_step(
            VfsView {
                locks: with_locks(
                    vfs.locks,
                    path,
                    with_level(locks_on(vfs.locks, path), handle_id, own),
                ),
                ..vfs
            },
            path,
            handle_id,
            requested,
        ).1 == lock_step(vfs, path, handle_id, requested).1,
{
    let before = locks_on(vfs.locks, path);
    let changed = with_level(before, handle_id, own);
    lemma_own_lock_never_blocks(before, handle_id, own, requested);
    assert(locks_on(with_locks(vfs.locks, path, changed), path) =~= changed);
}

/// A handle that must wait is woken by the release it waits for. Where a
/// request is refused, the file has locks, so the next unlock or close on
/// the file says that waiters must be woken; and once the one handle that
/// stood in the way has closed, or has dropped its lock, the request is
/// granted.
pub proof fn lemma_release_lets_the_waiter_in(
    vfs: VfsView,
    path: Seq<char>,
    holder: u64,
    waiter: u64,
    requested: LockLevel,
)
    requires
        holder != waiter,
        lock_step(vfs, path, waiter, requested).1 == LockOutcome::MustWait,
        forall|other: u64|
            other != waiter && other != holder && locks_on(vfs.locks, path).dom().contains(other)
                ==> compatible(requested, #[trigger] locks_on(vfs.locks, path)[other]),
    ensures
        close_step(vfs, path, holder).1,
        unlock_step(vfs, path, holder, LockLevel::Unlocked).1,
        lock_step(close_step(vfs, path, holder).0, path, waiter, requested).1
            == LockOutcome::Granted,
        lock_step(
            unlock_step(vfs, path, holder, LockLevel::Unlocked).0,
            path,
            waiter,
            requested,
        ).1 == LockOutcome::Granted,
{
    lemma_wait_has_a_cause(locks_on(vfs.locks, path), waiter, requested);
    lemma_release_unblocks(vfs.locks, path, holder, waiter, requested);
}

/// A close abandons the batch: it asks nothing of the store, the file is
/// left without a batch and with an empty buffer, so that nothing of what
/// was buffered is ever committed, and the next write that fits its page
/// goes to the store. The handle holds no lock afterwards.
pub proof fn lemma_close_abandons_the_batch(
    vfs: VfsView,
    path: Seq<char>,
    handle_id: u64,
    offset: usize,
    data: Seq<u8>,
)
    requires
        fits(WriteView { offset, data }),
    ensures
        state_of(close_step(vfs, path, handle_id).0.files, path) == idle(),
        write_step(close_step(vfs, path, handle_id).0, path, offset, data).1 == write_start(
            path,
            offset,
            data,
        ),
        control_step(close_step(vfs, path, handle_id).0, path, FCNTL_COMMIT_ATOMIC_WRITE).1
            == StepView::<CommitOpView, ()>::Done(Ok(())),
        !locks_on(close_step(vfs, path, handle_id).0.locks, path).dom().contains(handle_id),
{
    let closed = close_step(vfs, path, handle_id).0;
    assert(!closed.files.dom().contains(path));
    if vfs.locks.dom().contains(path) {
        let left = with_level(vfs.locks[path], handle_id, LockLevel::Unlocked);
        assert(!left.dom().contains(handle_id));
    }
}

} // verus!
