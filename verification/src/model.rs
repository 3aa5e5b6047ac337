//! What a file is, read off the contents of the store: which pages it has,
//! how long it is, and what the store holds once its tail is removed.

use crate::page::{lemma_page_key_injective, page_key_of, page_offset_of, within_page_of, PAGE_SIZE};
use crate::store::Store;
use vstd::prelude::*;

verus! {

/// Whether a page can start at `offset`.
pub open spec fn is_page_start(offset: usize) -> bool {
    offset % PAGE_SIZE == 0
}

/// Whether the store holds the page of `path` that starts at `offset`.
pub open spec fn has_page(store: Store, path: Seq<char>, offset: usize) -> bool {
    store.dom().contains(page_key_of(path, offset))
}

/// Whether the pages of `path` from `from` upward have no gap: below a page
/// that is present, every page down to `from` is present.
pub open spec fn dense_from(store: Store, path: Seq<char>, from: usize) -> bool {
    forall|lo: usize, hi: usize|
        #![trigger has_page(store, path, lo), has_page(store, path, hi)]
        is_page_start(lo) && is_page_start(hi) && from <= lo < hi && has_page(store, path, hi)
            ==> has_page(store, path, lo)
}

/// Whether the pages of `path` have no gap: where a page is absent, no page
/// at a higher offset is present.
pub open spec fn dense(store: Store, path: Seq<char>) -> bool {
    forall|lo: usize, hi: usize|
        #![trigger has_page(store, path, lo), has_page(store, path, hi)]
        is_page_start(lo) && is_page_start(hi) && lo < hi && has_page(store, path, hi)
            ==> has_page(store, path, lo)
}

/// Number of pages of `path` that are present in a row, the first of them
/// at `from`.
pub open spec fn pages_from(store: Store, path: Seq<char>, from: usize) -> nat
    decreases usize::MAX - from,
{
    if !has_page(store, path, from) {
        0
    } else if from + PAGE_SIZE > usize::MAX {
        1
    } else {
        1 + pages_from(store, path, (from + PAGE_SIZE) as usize)
    }
}

/// Length in bytes of the file `path`: the end of the last page of the row
/// of pages that starts at offset 0, and 0 where there is no page at 0.
pub open spec fn file_size_of(store: Store, path: Seq<char>) -> nat {
    let count = pages_from(store, path, 0);
    if count == 0 {
        0
    } else {
        let last = (count - 1) * PAGE_SIZE;
        (last + store[page_key_of(path, last as usize)].len()) as nat
    }
}

/// The store without the row of pages of `path` that starts at `from`: the
/// pages go, lowest first, up to the first one that is absent.
pub open spec fn swept(store: Store, path: Seq<char>, from: usize) -> Store
    decreases usize::MAX - from,
{
    let key = page_key_of(path, from);
    if !store.dom().contains(key) {
        store
    } else if from + PAGE_SIZE > usize::MAX {
        store.remove(key)
    } else {
        swept(store.remove(key), path, (from + PAGE_SIZE) as usize)
    }
}

/// The store after the file `path` was deleted: without the row of pages
/// that starts at offset 0, and without the marker.
pub open spec fn deleted(store: Store, path: Seq<char>) -> Store {
    swept(store, path, 0).remove(path)
}

/// The store after the page that holds byte `size` of `path` was cut to end
/// there. A page that is absent, or ends before, stays as it is.
pub open spec fn cut_at(store: Store, path: Seq<char>, size: usize) -> Store {
    let key = page_key_of(path, page_offset_of(size));
    if store.dom().contains(key) && within_page_of(size) < store[key].len() {
        store.insert(key, store[key].subrange(0, within_page_of(size) as int))
    } else {
        store
    }
}

/// The store after the file `path` was truncated to `size` bytes. To
/// truncate to nothing is to delete. Otherwise the page that holds byte
/// `size` is cut and the row of pages above it goes.
pub open spec fn truncated(store: Store, path: Seq<char>, size: usize) -> Store {
    if size == 0 {
        deleted(store, path)
    } else if page_offset_of(size) + PAGE_SIZE <= usize::MAX {
        swept(cut_at(store, path, size), path, (page_offset_of(size) + PAGE_SIZE) as usize)
    } else {
        cut_at(store, path, size)
    }
}

/// Below a page that is not the first lies another page, and none lies
/// between the two.
pub proof fn lemma_page_below(lo: usize, hi: usize)
    requires
        is_page_start(lo),
        is_page_start(hi),
        lo < hi,
    ensures
        PAGE_SIZE <= hi,
        is_page_start((hi - PAGE_SIZE) as usize),
        lo <= hi - PAGE_SIZE,
{
}

/// Sweeping adds nothing and changes no value.
pub proof fn lemma_swept_subset(store: Store, path: Seq<char>, from: usize)
    ensures
        forall|key: Seq<char>| #[trigger]
            swept(store, path, from).dom().contains(key) ==> store.dom().contains(key) && swept(
                store,
                path,
                from,
            )[key] == store[key],
    decreases usize::MAX - from,
{
    let here = page_key_of(path, from);
    if store.dom().contains(here) && from + PAGE_SIZE <= usize::MAX {
        let rest = store.remove(here);
        let next = (from + PAGE_SIZE) as usize;
        lemma_swept_subset(rest, path, next);
        assert(swept(store, path, from) == swept(rest, path, next));
    }
}

/// Sweeping from `from` touches only pages of `path` at or above `from`.
pub proof fn lemma_swept_keeps(store: Store, path: Seq<char>, from: usize, key: Seq<char>)
    requires
        forall|offset: usize| from <= offset ==> key != #[trigger] page_key_of(path, offset),
    ensures
        swept(store, path, from).dom().contains(key) == store.dom().contains(key),
        swept(store, path, from)[key] == store[key],
    decreases usize::MAX - from,
{
    let here = page_key_of(path, from);
    assert(key != here);
    if store.dom().contains(here) && from + PAGE_SIZE <= usize::MAX {
        lemma_swept_keeps(store.remove(here), path, (from + PAGE_SIZE) as usize, key);
    }
}

/// Sweeping from `from` leaves the pages below `from` alone.
pub proof fn lemma_swept_keeps_below(store: Store, path: Seq<char>, from: usize, below: usize)
    requires
        below < from,
    ensures
        has_page(swept(store, path, from), path, below) == has_page(store, path, below),
        swept(store, path, from)[page_key_of(path, below)] == store[page_key_of(path, below)],
{
    let key = page_key_of(path, below);
    assert forall|offset: usize| from <= offset implies key != #[trigger] page_key_of(
        path,
        offset,
    ) by {
        if key == page_key_of(path, offset) {
            lemma_page_key_injective(path, below, offset);
        }
    }
    lemma_swept_keeps(store, path, from, key);
}

/// Where the pages from `from` upward have no gap, sweeping from `from`
/// leaves no page at or above `from`.
pub proof fn lemma_swept_clears(store: Store, path: Seq<char>, from: usize)
    requires
        is_page_start(from),
        dense_from(store, path, from),
    ensures
        forall|offset: usize|
            is_page_start(offset) && from <= offset ==> !#[trigger] has_page(
                swept(store, path, from),
                path,
                offset,
            ),
    decreases usize::MAX - from,
{
    let here = page_key_of(path, from);
    let end = swept(store, path, from);
    if !store.dom().contains(here) {
        assert forall|offset: usize| is_page_start(offset) && from <= offset implies !#[trigger] has_page(
            end,
            path,
            offset,
        ) by {
            if offset > from && has_page(store, path, offset) {
                assert(has_page(store, path, from));
            }
        }
    } else if from + PAGE_SIZE > usize::MAX {
        assert forall|offset: usize| is_page_start(offset) && from <= offset implies !#[trigger] has_page(
            end,
            path,
            offset,
        ) by {
            assert(offset == from);
        }
    } else {
        let next = (from + PAGE_SIZE) as usize;
        let rest = store.remove(here);
        assert forall|lo: usize, hi: usize|
            #![trigger has_page(rest, path, lo), has_page(rest, path, hi)]
            is_page_start(lo) && is_page_start(hi) && next <= lo < hi && has_page(
                rest,
                path,
                hi,
            ) implies has_page(rest, path, lo) by {
            assert(has_page(store, path, hi));
            assert(has_page(store, path, lo));
            if page_key_of(path, lo) == here {
                lemma_page_key_injective(path, lo, from);
            }
        }
        lemma_swept_clears(rest, path, next);
        lemma_swept_subset(rest, path, next);
        assert(end == swept(rest, path, next));
        assert forall|offset: usize| is_page_start(offset) && from <= offset implies !#[trigger] has_page(
            end,
            path,
            offset,
        ) by {
            if offset != from {
                assert(next <= offset);
                assert(!has_page(swept(rest, path, next), path, offset));
            } else {
                assert(!rest.dom().contains(here));
            }
        }
    }
}

/// After a deletion of a file without gaps, the store holds neither its
/// marker nor any page of it.
pub proof fn lemma_deleted_is_gone(store: Store, path: Seq<char>)
    requires
        dense(store, path),
    ensures
        !deleted(store, path).dom().contains(path),
        forall|offset: usize|
            is_page_start(offset) ==> !#[trigger] has_page(deleted(store, path), path, offset),
        dense(deleted(store, path), path),
{
    lemma_swept_clears(store, path, 0);
    assert forall|offset: usize| is_page_start(offset) implies !#[trigger] has_page(
        deleted(store, path),
        path,
        offset,
    ) by {
        assert(!has_page(swept(store, path, 0), path, offset));
    }
}

/// Truncation keeps a file free of gaps.
pub proof fn lemma_truncated_is_dense(store: Store, path: Seq<char>, size: usize)
    requires
        dense(store, path),
    ensures
        dense(truncated(store, path, size), path),
{
    if size == 0 {
        lemma_deleted_is_gone(store, path);
    } else {
        let cut = cut_at(store, path, size);
        assert(cut.dom() =~= store.dom());
        assert forall|lo: usize, hi: usize|
            #![trigger has_page(cut, path, lo), has_page(cut, path, hi)]
            is_page_start(lo) && is_page_start(hi) && lo < hi && has_page(
                cut,
                path,
                hi,
            ) implies has_page(cut, path, lo) by {
            assert(has_page(store, path, hi));
            assert(has_page(store, path, lo));
        }
        if page_offset_of(size) + PAGE_SIZE <= usize::MAX {
            let above = (page_offset_of(size) + PAGE_SIZE) as usize;
            let end = swept(cut, path, above);
            lemma_swept_clears(cut, path, above);
            assert forall|lo: usize, hi: usize|
                #![trigger has_page(end, path, lo), has_page(end, path, hi)]
                is_page_start(lo) && is_page_start(hi) && lo < hi && has_page(
                    end,
                    path,
                    hi,
                ) implies has_page(end, path, lo) by {
                assert(hi < above);
                lemma_swept_keeps_below(cut, path, above, hi);
                lemma_swept_keeps_below(cut, path, above, lo);
                assert(has_page(cut, path, hi));
                assert(has_page(cut, path, lo));
            }
        }
    }
}

/// Whether `store` and `end` hold the same pages of `path`, with the same
/// bytes.
pub open spec fn same_pages(store: Store, end: Store, path: Seq<char>) -> bool {
    forall|offset: usize|
        has_page(end, path, offset) == has_page(store, path, offset) && end[#[trigger] page_key_of(
            path,
            offset,
        )] == store[page_key_of(path, offset)]
}

/// Stores that hold the same pages of a file agree on whether it has gaps.
pub proof fn lemma_same_pages_same_density(store: Store, end: Store, path: Seq<char>)
    requires
        same_pages(store, end, path),
    ensures
        dense(end, path) == dense(store, path),
{
    assert forall|offset: usize| has_page(end, path, offset) == has_page(store, path, offset) by {
        assert(end[page_key_of(path, offset)] == store[page_key_of(path, offset)]);
    }
}

/// Whether the marker of `path` is stored under a key that is no page of
/// `other`. It is, unless `path` is the path of `other` followed by the
/// page separator and a number.
pub open spec fn marker_is_no_page_of(path: Seq<char>, other: Seq<char>) -> bool {
    forall|offset: usize| path != #[trigger] page_key_of(other, offset)
}

/// A truncation or deletion of one file leaves the pages of every other
/// file as they are, where the file's marker is no page of the other.
pub proof fn lemma_truncated_leaves_other_files(
    store: Store,
    path: Seq<char>,
    size: usize,
    other: Seq<char>,
)
    requires
        other != path,
        marker_is_no_page_of(path, other),
    ensures
        same_pages(store, truncated(store, path, size), other),
        dense(truncated(store, path, size), other) == dense(store, other),
{
    let end = truncated(store, path, size);
    assert forall|offset: usize|
        has_page(end, other, offset) == has_page(store, other, offset) && end[#[trigger] page_key_of(
            other,
            offset,
        )] == store[page_key_of(other, offset)] by {
        let key = page_key_of(other, offset);
        assert forall|at: usize| key != #[trigger] page_key_of(path, at) by {
            if key == page_key_of(path, at) {
                crate::page::lemma_page_keys_differ(other, offset, path, at);
            }
        }
        assert(key != path);
        if size == 0 {
            lemma_swept_keeps(store, path, 0, key);
        } else {
            let cut = cut_at(store, path, size);
            assert(key != page_key_of(path, page_offset_of(size)));
            assert(cut.dom().contains(key) == store.dom().contains(key) && cut[key] == store[key]);
            if page_offset_of(size) + PAGE_SIZE <= usize::MAX {
                lemma_swept_keeps(cut, path, (page_offset_of(size) + PAGE_SIZE) as usize, key);
            }
        }
    }
    lemma_same_pages_same_density(store, end, other);
}

} // verus!
