//! What holds of a file after any run of changes: the changes as values,
//! what each makes of the store, and the law that no run of them tears a
//! gap into a file.

use crate::batch::{committed, lemma_commit_completes, lemma_commit_keeps_dense, rests_on_pages};
use crate::file_state::WriteView;
use crate::model::{deleted, dense, has_page, lemma_deleted_is_gone, lemma_truncated_is_dense, truncated};
use crate::page::{page_offset_of, PAGE_SIZE};
use crate::store::Store;
use crate::trim::lemma_truncate_completes;
use crate::write::{lemma_write_completes, lemma_write_keeps_dense, written};
use vstd::prelude::*;

verus! {

/// A change to a file.
pub enum Change {
    /// A write outside a batch.
    Write { offset: usize, data: Seq<u8> },
    /// A truncation to `size` bytes.
    Truncate { size: usize },
    /// The deletion of the file.
    Delete,
    /// The commit of a batch of writes.
    Commit { writes: Seq<WriteView> },
}

/// The store after `change` was made to `path` and the store served it
/// without failing.
pub open spec fn changed(store: Store, path: Seq<char>, change: Change) -> Store {
    match change {
        Change::Write { offset, data } => written(store, path, offset, data),
        Change::Truncate { size } => truncated(store, path, size),
        Change::Delete => deleted(store, path),
        Change::Commit { writes } => committed(store, path, writes),
    }
}

/// Whether `change` adds pages only on top of pages: a truncation or a
/// deletion always does; a write does where it goes to the first page or to
/// a page with a lower neighbour, and a commit where every page it touches
/// is such a page or has its lower neighbour in the batch.
pub open spec fn builds_on_pages(store: Store, path: Seq<char>, change: Change) -> bool {
    match change {
        Change::Write { offset, data } => data.len() <= usize::MAX && (page_offset_of(offset) == 0
            || has_page(store, path, (page_offset_of(offset) - PAGE_SIZE) as usize)),
        Change::Truncate { size } => true,
        Change::Delete => true,
        Change::Commit { writes } => rests_on_pages(store, path, writes),
    }
}

/// The store after the changes of `changes` were made to `path`, first to
/// last.
pub open spec fn changed_by_all(store: Store, path: Seq<char>, changes: Seq<Change>) -> Store
    decreases changes.len(),
{
    if changes.len() == 0 {
        store
    } else {
        changed(changed_by_all(store, path, changes.drop_last()), path, changes.last())
    }
}

/// Whether each change of `changes` adds pages only on top of pages, in the
/// store that the changes before it have made.
pub open spec fn all_build_on_pages(store: Store, path: Seq<char>, changes: Seq<Change>) -> bool
    decreases changes.len(),
{
    changes.len() == 0 || (all_build_on_pages(store, path, changes.drop_last())
        && builds_on_pages(
        changed_by_all(store, path, changes.drop_last()),
        path,
        changes.last(),
    ))
}

/// A change that adds pages only on top of pages keeps a file free of gaps.
pub proof fn lemma_change_keeps_dense(store: Store, path: Seq<char>, change: Change)
    requires
        dense(store, path),
        builds_on_pages(store, path, change),
    ensures
        dense(changed(store, path, change), path),
{
    match change {
        Change::Write { offset, data } => {
            lemma_write_completes(store, path, offset, data);
            lemma_write_keeps_dense(
                store,
                path,
                offset,
                data,
                written(store, path, offset, data),
                Ok(data.len() as usize),
            );
        },
        Change::Truncate { size } => {
            lemma_truncated_is_dense(store, path, size);
        },
        Change::Delete => {
            lemma_deleted_is_gone(store, path);
        },
        Change::Commit { writes } => {
            lemma_commit_completes(store, path, writes);
            lemma_commit_keeps_dense(store, path, writes, committed(store, path, writes), Ok(()));
        },
    }
}

/// No run of writes, truncations, deletions and commits tears a gap into
/// a file, as long as each adds pages only on top of pages: where a page
/// is absent afterwards, no page at a higher offset is present.
pub proof fn lemma_density_is_kept(store: Store, path: Seq<char>, changes: Seq<Change>)
    requires
        dense(store, path),
        all_build_on_pages(store, path, changes),
    ensures
        dense(changed_by_all(store, path, changes), path),
    decreases changes.len(),
{
    if changes.len() > 0 {
        lemma_density_is_kept(store, path, changes.drop_last());
        lemma_change_keeps_dense(
            changed_by_all(store, path, changes.drop_last()),
            path,
            changes.last(),
        );
    }
}

/// A file that was never written to has no gap.
pub proof fn lemma_empty_store_is_dense(path: Seq<char>)
    ensures
        dense(Map::<Seq<char>, Seq<u8>>::empty(), path),
{
}

} // verus!
