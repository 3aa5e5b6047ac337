//! What the adapter remembers of a file between calls: whether an atomic
//! batch is open on it, and the writes buffered since the batch began.

use crate::page::{within_page_of, PAGE_SIZE};
use vstd::prelude::*;

verus! {

/// A write that waits in an open batch.
pub struct BatchWrite {
    pub offset: usize,
    pub data: Vec<u8>,
}

/// A buffered write as a plain value.
pub struct WriteView {
    pub offset: usize,
    pub data: Seq<u8>,
}

impl View for BatchWrite {
    type V = WriteView;

    open spec fn view(&self) -> WriteView {
        WriteView { offset: self.offset, data: self.data@ }
    }
}

/// Whether the page that `write` goes to can hold it: the end of the write
/// inside the page fits the machine's word.
pub open spec fn fits(write: WriteView) -> bool {
    within_page_of(write.offset) + write.data.len() <= usize::MAX
}

/// Whether every write of `writes` fits its page.
pub open spec fn all_fit(writes: Seq<WriteView>) -> bool {
    forall|i: int| 0 <= i < writes.len() ==> fits(#[trigger] writes[i])
}

/// The writes of `writes` as plain values.
pub open spec fn write_views(writes: Seq<BatchWrite>) -> Seq<WriteView> {
    writes.map_values(|w: BatchWrite| w@)
}

/// The state of one file.
pub struct FileState {
    pending_writes: Vec<BatchWrite>,
    batch_open: bool,
}

/// The state of one file as a plain value.
pub struct FileStateView {
    pub pending_writes: Seq<WriteView>,
    pub batch_open: bool,
}

impl View for FileState {
    type V = FileStateView;

    closed spec fn view(&self) -> FileStateView {
        FileStateView {
            pending_writes: write_views(self.pending_writes@),
            batch_open: self.batch_open,
        }
    }
}

/// The state of a file that nothing was done to: no batch, no writes.
pub open spec fn idle() -> FileStateView {
    FileStateView { pending_writes: Seq::empty(), batch_open: false }
}

impl FileState {
    #[verifier::type_invariant]
    spec fn buffered_writes_fit(&self) -> bool {
        all_fit(write_views(self.pending_writes@))
    }

    /// The state of a file that nothing was done to.
    pub fn new() -> (state: Self)
        ensures
            state@ == idle(),
    {
        let state = FileState { pending_writes: Vec::new(), batch_open: false };
        assert(write_views(state.pending_writes@) =~= Seq::<WriteView>::empty());
        state
    }

    /// Whether a batch is open.
    pub fn batch_open(&self) -> (open: bool)
        ensures
            open == self@.batch_open,
    {
        self.batch_open
    }

    /// Opens or closes the batch; the buffer stays.
    pub fn set_batch_open(&mut self, open: bool)
        ensures
            final(self)@ == (FileStateView { batch_open: open, ..old(self)@ }),
    {
        proof {
            use_type_invariant(&*self);
        }
        self.batch_open = open;
    }

    /// Appends a write to the buffer.
    pub fn buffer(&mut self, write: BatchWrite)
        requires
            fits(write@),
        ensures
            final(self)@ == (FileStateView {
                pending_writes: old(self)@.pending_writes.push(write@),
                ..old(self)@
            }),
    {
        proof {
            use_type_invariant(&*self);
        }
        let ghost before = write_views(self.pending_writes@);
        let mut writes: Vec<BatchWrite> = Vec::new();
        core::mem::swap(&mut writes, &mut self.pending_writes);
        writes.push(write);
        assert(write_views(writes@) =~= before.push(write@));
        self.pending_writes = writes;
    }

    /// Empties the buffer and hands out what it held, oldest write first.
    pub fn take_pending(&mut self) -> (writes: Vec<BatchWrite>)
        ensures
            final(self)@ == (FileStateView { pending_writes: Seq::empty(), ..old(self)@ }),
            write_views(writes@) == old(self)@.pending_writes,
            all_fit(write_views(writes@)),
    {
        proof {
            use_type_invariant(&*self);
        }
        let mut writes: Vec<BatchWrite> = Vec::new();
        assert(write_views(writes@) =~= Seq::<WriteView>::empty());
        core::mem::swap(&mut writes, &mut self.pending_writes);
        writes
    }
}

/// Every write that a machine can hold fits its page: one whose bytes,
/// with a page more, can still be counted in the machine's word.
pub proof fn lemma_writes_fit(write: WriteView)
    requires
        write.data.len() + PAGE_SIZE <= usize::MAX + 1,
    ensures
        fits(write),
{
}

} // verus!
