//! The file as the engine sees it: one run of bytes. A file whose pages
//! are all full but the last holds such a run, and the reads, writes and
//! truncations of the adapter are the reads, writes and truncations of
//! that run.

use crate::model::{
    cut_at, deleted, dense, file_size_of, has_page, is_page_start, lemma_deleted_is_gone,
    lemma_page_below, lemma_swept_clears, lemma_swept_keeps_below, pages_from, truncated,
};
use crate::page::{
    lemma_page_key_injective, overlay, page_key_of, page_offset_of, within_page_of, PAGE_SIZE,
};
use crate::read::read_of;
use crate::batch::{committed, lemma_commit_is_writes_in_turn, written_in_turn};
use crate::file_state::WriteView;
use crate::write::{page_at, written};
use crate::store::{passes_through, Store};
use crate::trim::{trim_reaction, truncate_start};
use vstd::prelude::*;

verus! {

/// Whether the page at `lo` is in order with respect to the one at `hi`
/// above it: where that one is present, this one is present and full.
pub open spec fn full_below(store: Store, path: Seq<char>, lo: usize, hi: usize) -> bool {
    lo < hi && has_page(store, path, hi) ==> has_page(store, path, lo) && store[page_key_of(
        path,
        lo,
    )].len() == PAGE_SIZE
}

/// Whether the page at `offset`, where it is present, is no longer than a
/// page.
pub open spec fn within_a_page(store: Store, path: Seq<char>, offset: usize) -> bool {
    has_page(store, path, offset) ==> store[page_key_of(path, offset)].len() <= PAGE_SIZE
}

/// Whether the pages of `path` are those of a run of bytes: they have no
/// gap, none is longer than a page, and all but the last are full.
#[verifier::opaque]
pub open spec fn regular(store: Store, path: Seq<char>) -> bool {
    &&& forall|offset: usize|
        is_page_start(offset) ==> #[trigger] within_a_page(store, path, offset)
    &&& forall|lo: usize, hi: usize|
        is_page_start(lo) && is_page_start(hi) ==> #[trigger] full_below(store, path, lo, hi)
}

/// The offset at which the row of pages that starts at offset 0 ends.
pub open spec fn pages_end(store: Store, path: Seq<char>) -> nat {
    (pages_from(store, path, 0) * PAGE_SIZE) as nat
}

/// The byte of the file at `offset`.
pub open spec fn byte_at(store: Store, path: Seq<char>, offset: usize) -> u8 {
    store[page_key_of(path, page_offset_of(offset))][within_page_of(offset) as int]
}

/// The bytes of the file, first to last.
pub open spec fn stream(store: Store, path: Seq<char>) -> Seq<u8> {
    Seq::new(file_size_of(store, path), |i: int| byte_at(store, path, i as usize))
}

/// Where a read ends: after the bytes asked for, at the end of the page,
/// or at the end of the file, whichever comes first.
pub open spec fn read_end(offset: usize, len: usize, size: nat) -> int {
    let asked = offset + len;
    let page = page_offset_of(offset) + PAGE_SIZE;
    let least = if asked <= page {
        asked
    } else {
        page
    };
    if least <= size {
        least
    } else {
        size as int
    }
}

/// The offset at which the row of pages ends after a write: where it
/// ended before, or a page later where the write made a new page.
pub open spec fn pages_end_after_write(store: Store, path: Seq<char>, offset: usize) -> nat {
    if has_page(store, path, page_offset_of(offset)) {
        pages_end(store, path)
    } else {
        pages_end(store, path) + PAGE_SIZE as nat
    }
}

/// The offset at which the row of pages ends after a truncation.
pub open spec fn pages_end_after_truncate(store: Store, path: Seq<char>, size: usize) -> nat {
    if size == 0 {
        0
    } else if pages_end(store, path) <= page_offset_of(size) + PAGE_SIZE {
        pages_end(store, path)
    } else {
        (page_offset_of(size) + PAGE_SIZE) as nat
    }
}

/// `bytes` after the writes of `writes` were laid over them, oldest first.
pub open spec fn laid_in_turn(bytes: Seq<u8>, writes: Seq<WriteView>) -> Seq<u8>
    decreases writes.len(),
{
    if writes.len() == 0 {
        bytes
    } else {
        overlay(
            laid_in_turn(bytes, writes.drop_last()),
            writes.last().offset as int,
            writes.last().data,
        )
    }
}

/// Whether each write of `writes` stays inside its page, and its page
/// starts no later than the bytes end that the writes before it have made
/// of `bytes`.
pub open spec fn stay_in_file(bytes: Seq<u8>, writes: Seq<WriteView>) -> bool
    decreases writes.len(),
{
    writes.len() == 0 || (stay_in_file(bytes, writes.drop_last()) && within_page_of(
        writes.last().offset,
    ) + writes.last().data.len() <= PAGE_SIZE && page_offset_of(writes.last().offset)
        <= laid_in_turn(bytes, writes.drop_last()).len())
}

/// A byte lies in the page that starts at the last page start at or
/// before it, at the distance from that start.
pub proof fn lemma_page_of(offset: usize)
    ensures
        is_page_start(page_offset_of(offset)),
        page_offset_of(offset) <= offset < page_offset_of(offset) + PAGE_SIZE,
        within_page_of(offset) == offset - page_offset_of(offset),
{
}

/// The bytes of a page are the bytes of the file from the page's start on.
pub proof fn lemma_same_page(offset: usize, start: usize)
    requires
        is_page_start(start),
        start <= offset < start + PAGE_SIZE,
    ensures
        page_offset_of(offset) == start,
        within_page_of(offset) == offset - start,
{
}

/// A page that starts at an offset that fits the machine's word ends at
/// one that fits it too, or right after the last one that does.
pub proof fn lemma_page_fits(start: usize)
    requires
        is_page_start(start),
    ensures
        start + PAGE_SIZE <= usize::MAX + 1,
{
    assert(usize::MAX == 0xffff_ffff || usize::MAX == 0xffff_ffff_ffff_ffff);
}

proof fn lemma_row_present(store: Store, path: Seq<char>, from: usize, offset: usize)
    requires
        is_page_start(from),
        is_page_start(offset),
        from <= offset < from + pages_from(store, path, from) * PAGE_SIZE,
    ensures
        has_page(store, path, offset),
    decreases usize::MAX - from,
{
    if offset != from {
        assert(has_page(store, path, from));
        assert(from + PAGE_SIZE <= offset);
        lemma_row_present(store, path, (from + PAGE_SIZE) as usize, offset);
    }
}

proof fn lemma_row_ends(store: Store, path: Seq<char>, from: usize)
    requires
        is_page_start(from),
    ensures
        pages_from(store, path, from) > 0 ==> from + (pages_from(store, path, from) - 1)
            * PAGE_SIZE <= usize::MAX,
        from + pages_from(store, path, from) * PAGE_SIZE <= usize::MAX ==> !has_page(
            store,
            path,
            (from + pages_from(store, path, from) * PAGE_SIZE) as usize,
        ),
    decreases usize::MAX - from,
{
    if has_page(store, path, from) && from + PAGE_SIZE <= usize::MAX {
        lemma_row_ends(store, path, (from + PAGE_SIZE) as usize);
    }
}

/// In a file without gaps, the pages present are those below the end of
/// the row of pages that starts at offset 0.
pub proof fn lemma_pages_below_end(store: Store, path: Seq<char>, offset: usize)
    requires
        dense(store, path),
        is_page_start(offset),
    ensures
        has_page(store, path, offset) <==> offset < pages_end(store, path),
        pages_end(store, path) % (PAGE_SIZE as nat) == 0,
        pages_end(store, path) > 0 ==> pages_end(store, path) - PAGE_SIZE <= usize::MAX,
{
    let end = pages_end(store, path);
    lemma_row_ends(store, path, 0);
    if offset < end {
        lemma_row_present(store, path, 0, offset);
    } else if has_page(store, path, offset) {
        assert(end <= usize::MAX);
        assert(is_page_start(end as usize));
        if (end as usize) < offset {
            assert(has_page(store, path, end as usize));
        }
    }
}

/// The row of pages that starts at offset 0 ends at `end` if the pages
/// present are those below `end`.
pub proof fn lemma_pages_end_is(store: Store, path: Seq<char>, end: nat)
    requires
        end % (PAGE_SIZE as nat) == 0,
        end > 0 ==> end - PAGE_SIZE <= usize::MAX,
        forall|offset: usize|
            is_page_start(offset) ==> (#[trigger] has_page(store, path, offset) <==> offset < end),
    ensures
        pages_end(store, path) == end,
{
    let found = pages_end(store, path);
    lemma_row_ends(store, path, 0);
    if found < end {
        assert(found <= end - PAGE_SIZE);
        assert(is_page_start(found as usize));
        assert(has_page(store, path, found as usize));
    } else if end < found {
        assert(end <= found - PAGE_SIZE);
        assert(is_page_start(end as usize));
        lemma_row_present(store, path, 0, end as usize);
    }
}

/// The size of a file is the end of its last page.
pub proof fn lemma_file_size(store: Store, path: Seq<char>)
    ensures
        pages_end(store, path) == 0 ==> file_size_of(store, path) == 0,
        pages_end(store, path) > 0 ==> pages_end(store, path) - PAGE_SIZE <= usize::MAX
            && file_size_of(store, path) == pages_end(store, path) - PAGE_SIZE + store[page_key_of(
            path,
            (pages_end(store, path) - PAGE_SIZE) as usize,
        )].len(),
{
    lemma_row_ends(store, path, 0);
}

/// A file that holds a run of bytes has no gap.
pub proof fn lemma_regular_is_dense(store: Store, path: Seq<char>)
    requires
        regular(store, path),
    ensures
        dense(store, path),
{
    reveal(regular);
    assert forall|lo: usize, hi: usize|
        #![trigger has_page(store, path, lo), has_page(store, path, hi)]
        is_page_start(lo) && is_page_start(hi) && lo < hi && has_page(
            store,
            path,
            hi,
        ) implies has_page(store, path, lo) by {
        assert(full_below(store, path, lo, hi));
    }
}

/// In a file that holds a run of bytes, the pages present are those that
/// start before the end of the row of pages, which ends at the end of the
/// file or within a page after it; a page that is present holds the bytes
/// from its start to the end of the file, up to a full page.
pub proof fn lemma_regular_page(store: Store, path: Seq<char>, offset: usize)
    requires
        regular(store, path),
        is_page_start(offset),
    ensures
        has_page(store, path, offset) <==> offset < pages_end(store, path),
        offset < file_size_of(store, path) ==> has_page(store, path, offset),
        has_page(store, path, offset) ==> offset <= file_size_of(store, path),
        has_page(store, path, offset) ==> store[page_key_of(path, offset)].len() == if offset
            + PAGE_SIZE <= file_size_of(store, path) {
            PAGE_SIZE as nat
        } else {
            (file_size_of(store, path) - offset) as nat
        },
        file_size_of(store, path) <= pages_end(store, path),
        pages_end(store, path) % (PAGE_SIZE as nat) == 0,
        pages_end(store, path) > 0 ==> pages_end(store, path) - PAGE_SIZE <= file_size_of(
            store,
            path,
        ) && pages_end(store, path) - PAGE_SIZE <= usize::MAX,
{
    lemma_regular_is_dense(store, path);
    reveal(regular);
    let end = pages_end(store, path);
    lemma_pages_below_end(store, path, offset);
    lemma_file_size(store, path);
    if end > 0 {
        let last = (end - PAGE_SIZE) as usize;
        assert(is_page_start(last));
        lemma_pages_below_end(store, path, last);
        assert(has_page(store, path, last));
        assert(within_a_page(store, path, last));
        if has_page(store, path, offset) && offset != last {
            assert(offset < last);
            assert(full_below(store, path, offset, last));
        }
    }
}

/// A file holds a run of bytes if its pages are those that start before
/// some offset, none is longer than a page, and all but the last are full.
pub proof fn lemma_regular_by_pages(store: Store, path: Seq<char>, end: nat)
    requires
        forall|offset: usize|
            is_page_start(offset) ==> (#[trigger] has_page(store, path, offset) <==> offset < end),
        forall|offset: usize|
            is_page_start(offset) && #[trigger] has_page(store, path, offset) ==> store[page_key_of(
                path,
                offset,
            )].len() <= PAGE_SIZE && (offset + PAGE_SIZE < end ==> store[page_key_of(
                path,
                offset,
            )].len() == PAGE_SIZE),
    ensures
        regular(store, path),
{
    reveal(regular);
    assert forall|lo: usize, hi: usize| is_page_start(lo) && is_page_start(hi) implies #[trigger] full_below(
        store,
        path,
        lo,
        hi,
    ) by {
        if lo < hi && has_page(store, path, hi) {
            lemma_page_below(lo, hi);
            assert(hi < end);
            assert(lo + PAGE_SIZE < end);
            assert(has_page(store, path, lo));
        }
    }
    assert forall|offset: usize| is_page_start(offset) implies #[trigger] within_a_page(
        store,
        path,
        offset,
    ) by {}
}

/// Every byte of a file that holds a run of bytes has an offset that fits
/// the machine's word.
pub proof fn lemma_regular_size_fits(store: Store, path: Seq<char>)
    requires
        regular(store, path),
    ensures
        file_size_of(store, path) <= usize::MAX + 1,
{
    lemma_regular_page(store, path, 0);
    if pages_end(store, path) > 0 {
        let last = (pages_end(store, path) - PAGE_SIZE) as usize;
        lemma_page_fits(last);
    }
}

/// A store that holds no page of a file holds, of that file, the empty
/// run of bytes.
pub proof fn lemma_no_pages_is_empty(store: Store, path: Seq<char>)
    requires
        forall|offset: usize| is_page_start(offset) ==> !#[trigger] has_page(store, path, offset),
    ensures
        regular(store, path),
        stream(store, path) == Seq::<u8>::empty(),
{
    lemma_regular_by_pages(store, path, 0);
    lemma_pages_end_is(store, path, 0);
    lemma_file_size(store, path);
    assert(stream(store, path) =~= Seq::<u8>::empty());
}

/// A read gets the bytes of the file from its offset on: as many as were
/// asked for, but none beyond the end of the page nor beyond the end of the
/// file; at or past the end of the file it gets none.
pub proof fn lemma_read_is_a_slice(store: Store, path: Seq<char>, offset: usize, len: usize)
    requires
        regular(store, path),
    ensures
        offset >= file_size_of(store, path) ==> read_of(store, path, offset, len)
            == Seq::<u8>::empty(),
        offset < file_size_of(store, path) ==> read_of(store, path, offset, len) == stream(
            store,
            path,
        ).subrange(offset as int, read_end(offset, len, file_size_of(store, path))),
{
    let size = file_size_of(store, path);
    let start = page_offset_of(offset);
    let at = within_page_of(offset);
    let got = read_of(store, path, offset, len);
    lemma_page_of(offset);
    lemma_regular_page(store, path, start);
    if offset < size {
        let page = store[page_key_of(path, start)];
        let end = read_end(offset, len, size);
        let slice = stream(store, path).subrange(offset as int, end);
        assert(got.len() == slice.len());
        assert forall|j: int| 0 <= j < got.len() implies got[j] == slice[j] by {
            lemma_same_page((offset + j) as usize, start);
        }
        assert(got =~= slice);
    }
}

/// What a write does to a page of its file: the page of the write is there
/// afterwards and holds the old page with the bytes laid over it; any
/// other page is as it was.
pub proof fn lemma_written_page(
    store: Store,
    path: Seq<char>,
    offset: usize,
    data: Seq<u8>,
    page: usize,
)
    ensures
        page == page_offset_of(offset) ==> has_page(written(store, path, offset, data), path, page)
            && written(store, path, offset, data)[page_key_of(path, page)] == overlay(
            page_at(store, path, page),
            within_page_of(offset) as int,
            data,
        ),
        page != page_offset_of(offset) ==> (has_page(
            written(store, path, offset, data),
            path,
            page,
        ) <==> has_page(store, path, page)) && written(store, path, offset, data)[page_key_of(
            path,
            page,
        )] == store[page_key_of(path, page)],
{
    if page_key_of(path, page) == page_key_of(path, page_offset_of(offset)) {
        lemma_page_key_injective(path, page, page_offset_of(offset));
    }
}

proof fn lemma_written_is_regular(store: Store, path: Seq<char>, offset: usize, data: Seq<u8>)
    requires
        regular(store, path),
        within_page_of(offset) + data.len() <= PAGE_SIZE,
        page_offset_of(offset) <= file_size_of(store, path),
    ensures
        regular(written(store, path, offset, data), path),
        pages_end(written(store, path, offset, data), path) == pages_end_after_write(
            store,
            path,
            offset,
        ),
        !has_page(store, path, page_offset_of(offset)) ==> page_offset_of(offset) == pages_end(
            store,
            path,
        ) && page_offset_of(offset) == file_size_of(store, path),
{
    let end = written(store, path, offset, data);
    let start = page_offset_of(offset);
    let new_pages = pages_end_after_write(store, path, offset);
    lemma_page_of(offset);
    lemma_regular_page(store, path, start);
    assert forall|at_page: usize| is_page_start(at_page) implies (#[trigger] has_page(
        end,
        path,
        at_page,
    ) <==> at_page < new_pages) by {
        lemma_regular_page(store, path, at_page);
        lemma_written_page(store, path, offset, data, at_page);
    }
    assert forall|at_page: usize|
        is_page_start(at_page) && #[trigger] has_page(end, path, at_page) implies end[page_key_of(
        path,
        at_page,
    )].len() <= PAGE_SIZE && (at_page + PAGE_SIZE < new_pages ==> end[page_key_of(
        path,
        at_page,
    )].len() == PAGE_SIZE) by {
        lemma_regular_page(store, path, at_page);
        lemma_written_page(store, path, offset, data, at_page);
    }
    lemma_regular_by_pages(end, path, new_pages);
    lemma_pages_end_is(end, path, new_pages);
}

proof fn lemma_written_size(store: Store, path: Seq<char>, offset: usize, data: Seq<u8>)
    requires
        regular(store, path),
        within_page_of(offset) + data.len() <= PAGE_SIZE,
        page_offset_of(offset) <= file_size_of(store, path),
    ensures
        file_size_of(written(store, path, offset, data), path) == if offset + data.len()
            <= file_size_of(store, path) {
            file_size_of(store, path)
        } else {
            (offset + data.len()) as nat
        },
{
    let end = written(store, path, offset, data);
    let start = page_offset_of(offset);
    lemma_written_is_regular(store, path, offset, data);
    lemma_written_page(store, path, offset, data, start);
    lemma_page_of(offset);
    lemma_regular_page(store, path, start);
    lemma_regular_page(end, path, start);
    if pages_end(end, path) > start + PAGE_SIZE {
        let last = (pages_end(end, path) - PAGE_SIZE) as usize;
        lemma_written_page(store, path, offset, data, last);
        lemma_regular_page(store, path, last);
        lemma_regular_page(end, path, last);
    }
}

proof fn lemma_written_byte(
    store: Store,
    path: Seq<char>,
    offset: usize,
    data: Seq<u8>,
    byte: usize,
)
    requires
        regular(store, path),
        within_page_of(offset) + data.len() <= PAGE_SIZE,
        page_offset_of(offset) <= file_size_of(store, path),
        byte < file_size_of(written(store, path, offset, data), path),
    ensures
        offset <= byte < offset + data.len() ==> byte_at(
            written(store, path, offset, data),
            path,
            byte,
        ) == data[byte - offset],
        !(offset <= byte < offset + data.len()) && byte < file_size_of(store, path) ==> byte_at(
            written(store, path, offset, data),
            path,
            byte,
        ) == byte_at(store, path, byte),
        !(offset <= byte < offset + data.len()) && byte >= file_size_of(store, path) ==> byte_at(
            written(store, path, offset, data),
            path,
            byte,
        ) == 0,
{
    let end = written(store, path, offset, data);
    let start = page_offset_of(offset);
    let page = page_offset_of(byte);
    lemma_written_is_regular(store, path, offset, data);
    lemma_written_size(store, path, offset, data);
    lemma_written_page(store, path, offset, data, page);
    lemma_page_of(offset);
    lemma_page_of(byte);
    lemma_regular_page(store, path, page);
    lemma_regular_page(end, path, page);
    if page != start {
        assert(byte < offset || byte >= offset + data.len());
    }
}

/// A write that stays inside its page, to a file that holds a run of
/// bytes, and whose page starts no later than the file ends, is a write
/// into that run: the bytes written replace what was there, the file
/// grows to hold them, and zeros fill what lies between the old end of the
/// file and the write.
pub proof fn lemma_write_is_an_overlay(
    store: Store,
    path: Seq<char>,
    offset: usize,
    data: Seq<u8>,
)
    requires
        regular(store, path),
        within_page_of(offset) + data.len() <= PAGE_SIZE,
        page_offset_of(offset) <= file_size_of(store, path),
    ensures
        regular(written(store, path, offset, data), path),
        stream(written(store, path, offset, data), path) == overlay(
            stream(store, path),
            offset as int,
            data,
        ),
{
    let end = written(store, path, offset, data);
    lemma_written_is_regular(store, path, offset, data);
    lemma_written_size(store, path, offset, data);
    let laid = overlay(stream(store, path), offset as int, data);
    assert(stream(end, path).len() == laid.len());
    lemma_regular_size_fits(end, path);
    assert forall|i: int| 0 <= i < laid.len() implies stream(end, path)[i] == laid[i] by {
        lemma_written_byte(store, path, offset, data, i as usize);
    }
    assert(stream(end, path) =~= laid);
}

/// What a truncation does to a page of its file: the pages below the one
/// that holds the new end are as they were, that one is cut where it held
/// more, and the pages above are gone.
pub proof fn lemma_truncated_page(store: Store, path: Seq<char>, size: usize, page: usize)
    requires
        dense(store, path),
        is_page_start(page),
    ensures
        size == 0 ==> !has_page(truncated(store, path, size), path, page),
        size > 0 && page < page_offset_of(size) ==> (has_page(
            truncated(store, path, size),
            path,
            page,
        ) <==> has_page(store, path, page)) && truncated(store, path, size)[page_key_of(path, page)]
            == store[page_key_of(path, page)],
        size > 0 && page == page_offset_of(size) ==> (has_page(
            truncated(store, path, size),
            path,
            page,
        ) <==> has_page(store, path, page)) && truncated(store, path, size)[page_key_of(path, page)]
            == if has_page(store, path, page) && within_page_of(size) < store[page_key_of(
            path,
            page,
        )].len() {
            store[page_key_of(path, page)].subrange(0, within_page_of(size) as int)
        } else {
            store[page_key_of(path, page)]
        },
        size > 0 && page > page_offset_of(size) ==> !has_page(
            truncated(store, path, size),
            path,
            page,
        ),
{
    if size == 0 {
        lemma_deleted_is_gone(store, path);
    } else {
        let start = page_offset_of(size);
        let cut = cut_at(store, path, size);
        lemma_page_of(size);
        assert(cut.dom() =~= store.dom());
        if page_key_of(path, page) == page_key_of(path, start) {
            lemma_page_key_injective(path, page, start);
        }
        if start + PAGE_SIZE <= usize::MAX {
            let above = (start + PAGE_SIZE) as usize;
            if page < above {
                lemma_swept_keeps_below(cut, path, above, page);
            } else {
                assert forall|lo: usize, hi: usize|
                    #![trigger has_page(cut, path, lo), has_page(cut, path, hi)]
                    is_page_start(lo) && is_page_start(hi) && above <= lo < hi && has_page(
                        cut,
                        path,
                        hi,
                    ) implies has_page(cut, path, lo) by {
                    assert(has_page(store, path, hi));
                    assert(has_page(store, path, lo));
                }
                lemma_swept_clears(cut, path, above);
            }
        } else {
            if page > start {
                lemma_page_below(start, page);
            }
        }
    }
}

proof fn lemma_truncated_is_regular(store: Store, path: Seq<char>, size: usize)
    requires
        regular(store, path),
    ensures
        regular(truncated(store, path, size), path),
        pages_end(truncated(store, path, size), path) == pages_end_after_truncate(
            store,
            path,
            size,
        ),
{
    let end = truncated(store, path, size);
    let new_pages = pages_end_after_truncate(store, path, size);
    lemma_regular_is_dense(store, path);
    lemma_page_of(size);
    lemma_regular_page(store, path, page_offset_of(size));
    assert forall|page: usize| is_page_start(page) implies (#[trigger] has_page(
        end,
        path,
        page,
    ) <==> page < new_pages) by {
        lemma_regular_page(store, path, page);
        lemma_truncated_page(store, path, size, page);
        if size > 0 && page > page_offset_of(size) {
            lemma_page_below(page_offset_of(size), page);
        }
    }
    assert forall|page: usize|
        is_page_start(page) && #[trigger] has_page(end, path, page) implies end[page_key_of(
        path,
        page,
    )].len() <= PAGE_SIZE && (page + PAGE_SIZE < new_pages ==> end[page_key_of(path, page)].len()
        == PAGE_SIZE) by {
        lemma_regular_page(store, path, page);
        lemma_truncated_page(store, path, size, page);
    }
    lemma_regular_by_pages(end, path, new_pages);
    lemma_pages_end_is(end, path, new_pages);
}

proof fn lemma_truncated_size(store: Store, path: Seq<char>, size: usize)
    requires
        regular(store, path),
    ensures
        file_size_of(truncated(store, path, size), path) == if size <= file_size_of(store, path) {
            size as nat
        } else {
            file_size_of(store, path)
        },
{
    let end = truncated(store, path, size);
    let start = page_offset_of(size);
    lemma_truncated_is_regular(store, path, size);
    lemma_regular_is_dense(store, path);
    lemma_page_of(size);
    lemma_regular_page(store, path, start);
    lemma_regular_page(end, path, start);
    lemma_truncated_page(store, path, size, start);
    if size > 0 && pages_end(end, path) > 0 {
        let last = (pages_end(end, path) - PAGE_SIZE) as usize;
        lemma_truncated_page(store, path, size, last);
        lemma_regular_page(store, path, last);
        lemma_regular_page(end, path, last);
    }
}

proof fn lemma_truncated_byte(store: Store, path: Seq<char>, size: usize, byte: usize)
    requires
        regular(store, path),
        byte < file_size_of(truncated(store, path, size), path),
    ensures
        byte < file_size_of(store, path),
        byte_at(truncated(store, path, size), path, byte) == byte_at(store, path, byte),
{
    let end = truncated(store, path, size);
    let page = page_offset_of(byte);
    lemma_truncated_is_regular(store, path, size);
    lemma_truncated_size(store, path, size);
    lemma_regular_is_dense(store, path);
    lemma_page_of(size);
    lemma_page_of(byte);
    lemma_truncated_page(store, path, size, page);
    lemma_regular_page(store, path, page);
    lemma_regular_page(end, path, page);
}

/// A truncation of a file that holds a run of bytes cuts the run: the
/// file keeps its first `size` bytes, and all of them where it has no more.
/// A deletion leaves it empty.
pub proof fn lemma_truncate_is_a_cut(store: Store, path: Seq<char>, size: usize)
    requires
        regular(store, path),
    ensures
        regular(truncated(store, path, size), path),
        regular(deleted(store, path), path),
        stream(deleted(store, path), path) == Seq::<u8>::empty(),
        stream(truncated(store, path, size), path) == if size <= file_size_of(store, path) {
            stream(store, path).subrange(0, size as int)
        } else {
            stream(store, path)
        },
{
    let end = truncated(store, path, size);
    lemma_truncated_is_regular(store, path, size);
    lemma_truncated_size(store, path, size);
    lemma_regular_size_fits(store, path);
    let kept = if size <= file_size_of(store, path) {
        stream(store, path).subrange(0, size as int)
    } else {
        stream(store, path)
    };
    assert(stream(end, path).len() == kept.len());
    assert forall|i: int| 0 <= i < kept.len() implies stream(end, path)[i] == kept[i] by {
        lemma_truncated_byte(store, path, size, i as usize);
    }
    assert(stream(end, path) =~= kept);
    lemma_truncated_is_regular(store, path, 0);
    lemma_truncated_size(store, path, 0);
    assert(stream(deleted(store, path), path) =~= Seq::<u8>::empty());
}

proof fn lemma_writes_in_turn_are_overlays(store: Store, path: Seq<char>, writes: Seq<WriteView>)
    requires
        regular(store, path),
        stay_in_file(stream(store, path), writes),
    ensures
        regular(written_in_turn(store, path, writes), path),
        stream(written_in_turn(store, path, writes), path) == laid_in_turn(
            stream(store, path),
            writes,
        ),
    decreases writes.len(),
{
    if writes.len() > 0 {
        let front = writes.drop_last();
        lemma_writes_in_turn_are_overlays(store, path, front);
        lemma_write_is_an_overlay(
            written_in_turn(store, path, front),
            path,
            writes.last().offset,
            writes.last().data,
        );
    }
}

/// The commit of a batch to a file that holds a run of bytes lays the
/// buffered writes over that run, in the order in which they were
/// buffered, where each stays inside its page and in the file.
pub proof fn lemma_commit_is_overlays(store: Store, path: Seq<char>, writes: Seq<WriteView>)
    requires
        regular(store, path),
        stay_in_file(stream(store, path), writes),
    ensures
        regular(committed(store, path, writes), path),
        stream(committed(store, path, writes), path) == laid_in_turn(stream(store, path), writes),
{
    lemma_commit_is_writes_in_turn(store, path, writes);
    lemma_writes_in_turn_are_overlays(store, path, writes);
}

/// A truncation to a size at or beyond the end of a file that holds a run
/// of bytes changes nothing: the store is left as it was, and is never
/// anything else while the truncation runs, which asks for lookups only.
pub proof fn lemma_truncate_beyond_the_end(
    store: Store,
    path: Seq<char>,
    size: usize,
    fuel: nat,
    seen: Store,
)
    requires
        regular(store, path),
        0 < size,
        file_size_of(store, path) <= size,
        passes_through(trim_reaction(), truncate_start(path, size), store, fuel, seen),
    ensures
        truncated(store, path, size) == store,
        seen == store,
{
    let start = page_offset_of(size);
    lemma_page_of(size);
    lemma_regular_page(store, path, start);
    assert(cut_at(store, path, size) == store);
    if start + PAGE_SIZE <= usize::MAX {
        let above = (start + PAGE_SIZE) as usize;
        lemma_regular_page(store, path, above);
        assert(!has_page(store, path, above));
    }
    reveal_with_fuel(passes_through, 4);
}

} // verus!
