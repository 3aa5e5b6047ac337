//! The commit of an atomic batch: every page the buffered writes touch is
//! fetched once, gets its writes applied in the order they were buffered,
//! and all the new pages go to the store in one batch.

use crate::error::VfsError;
use crate::file_state::{all_fit, write_views, BatchWrite, WriteView};
use crate::page::{
    lemma_page_key_injective, lemma_page_keys_differ, overlay, overlay_bytes, page_key, page_key_of, page_offset,
    page_offset_of, within_page, within_page_of, PAGE_SIZE,
};
use crate::model::{
    dense, has_page, is_page_start, lemma_page_below, lemma_same_pages_same_density, same_pages,
};
use crate::store::{
    completes, drive, lemma_completes_once, lemma_put_all_keeps, lemma_put_all_sets,
    passes_through, put_all, PagePut, ReplyView, RequestView, Step, StepView, Store, StoreReply,
    StoreRequest,
};
use crate::write::{page_at, page_or_empty, written};
use vstd::prelude::*;

verus! {

/// The offsets of the pages that `writes` touch, each once, in the order in
/// which the writes first touch them.
pub open spec fn touched_pages(writes: Seq<WriteView>) -> Seq<usize>
    decreases writes.len(),
{
    if writes.len() == 0 {
        Seq::empty()
    } else {
        let before = touched_pages(writes.drop_last());
        let page = page_offset_of(writes.last().offset);
        if before.contains(page) {
            before
        } else {
            before.push(page)
        }
    }
}

/// The page at offset `page` after those of `writes` that go to it were
/// laid over `base`, one after the other, oldest first.
pub open spec fn batch_page(base: Seq<u8>, writes: Seq<WriteView>, page: usize) -> Seq<u8>
    decreases writes.len(),
{
    if writes.len() == 0 {
        base
    } else {
        let before = batch_page(base, writes.drop_last(), page);
        let last = writes.last();
        if page_offset_of(last.offset) == page {
            overlay(before, within_page_of(last.offset) as int, last.data)
        } else {
            before
        }
    }
}

/// What a commit is waiting for.
#[derive(Clone, Copy, Debug, PartialEq, Eq, Structural)]
pub enum CommitPhase {
    /// The next touched page as the store has it.
    Fetch,
    /// The store's word that the batch was carried out.
    Submit,
}

/// A commit under way.
pub struct CommitOp {
    path: String,
    writes: Vec<BatchWrite>,
    pages: Vec<usize>,
    puts: Vec<PagePut>,
    phase: CommitPhase,
}

/// A commit as a plain value: the file, the buffered writes, the offsets of
/// the pages to fetch, the new pages made so far, and what it waits for.
/// The page it waits for is the first one for which no new page was made.
pub struct CommitOpView {
    pub path: Seq<char>,
    pub writes: Seq<WriteView>,
    pub pages: Seq<usize>,
    pub puts: Seq<(Seq<char>, Seq<u8>)>,
    pub phase: CommitPhase,
}

/// The entries of a batch as plain values.
pub open spec fn put_views(puts: Seq<PagePut>) -> Seq<(Seq<char>, Seq<u8>)> {
    puts.map_values(|p: PagePut| p@)
}

impl View for CommitOp {
    type V = CommitOpView;

    closed spec fn view(&self) -> CommitOpView {
        CommitOpView {
            path: self.path@,
            writes: write_views(self.writes@),
            pages: self.pages@,
            puts: put_views(self.puts@),
            phase: self.phase,
        }
    }
}

/// How a commit reacts to the store's reply. A page that was fetched, or an
/// empty one where the store has none, gets its writes applied and joins
/// the batch; then the next touched page is fetched, or, after the last,
/// the batch is submitted. The store's word on the batch ends the commit.
/// Any reply that does not fit the request ends it with a write failure,
/// and nothing was written.
pub open spec fn commit_next(op: CommitOpView, reply: ReplyView) -> StepView<CommitOpView, ()> {
    match (op.phase, reply) {
        (CommitPhase::Fetch, ReplyView::Value(found)) => {
            let page = op.pages[op.puts.len() as int];
            let puts = op.puts.push(
                (page_key_of(op.path, page), batch_page(page_or_empty(found), op.writes, page)),
            );
            if puts.len() < op.pages.len() {
                StepView::Ask(
                    RequestView::Get { key: page_key_of(op.path, op.pages[puts.len() as int]) },
                    CommitOpView { puts, ..op },
                )
            } else {
                StepView::Ask(
                    RequestView::WriteBatch { puts },
                    CommitOpView { puts: Seq::empty(), phase: CommitPhase::Submit, ..op },
                )
            }
        },
        (CommitPhase::Submit, ReplyView::Done) => StepView::Done(Ok(())),
        _ => StepView::Done(Err(VfsError::IoWrite)),
    }
}

/// The first step of a commit of `writes` to `path`: nothing to do where
/// there are none, else fetch the first page they touch.
pub open spec fn commit_start(path: Seq<char>, writes: Seq<WriteView>) -> StepView<
    CommitOpView,
    (),
> {
    if writes.len() == 0 {
        StepView::Done(Ok(()))
    } else {
        let pages = touched_pages(writes);
        StepView::Ask(
            RequestView::Get { key: page_key_of(path, pages[0]) },
            CommitOpView { path, writes, pages, puts: Seq::empty(), phase: CommitPhase::Fetch },
        )
    }
}

/// The reaction of a commit to a reply, as a value.
pub open spec fn commit_reaction() -> spec_fn(CommitOpView, ReplyView) -> StepView<
    CommitOpView,
    (),
> {
    |op: CommitOpView, reply: ReplyView| commit_next(op, reply)
}

/// Writes that exist touch at least one page.
pub proof fn lemma_touched_pages_nonempty(writes: Seq<WriteView>)
    requires
        writes.len() > 0,
    ensures
        touched_pages(writes).len() > 0,
    decreases writes.len(),
{
    if writes.len() > 1 {
        lemma_touched_pages_nonempty(writes.drop_last());
    }
}

fn holds(pages: &Vec<usize>, page: usize) -> (found: bool)
    ensures
        found == pages@.contains(page),
{
    let mut i: usize = 0;
    while i < pages.len()
        invariant
            i <= pages.len(),
            forall|j: int| 0 <= j < i ==> pages@[j] != page,
        decreases pages.len() - i,
    {
        if pages[i] == page {
            return true;
        }
        i += 1;
    }
    false
}

/// Lists the offsets of the pages that `writes` touch, each once, in the
/// order in which the writes first touch them.
pub fn touched_page_list(writes: &Vec<BatchWrite>) -> (pages: Vec<usize>)
    ensures
        pages@ == touched_pages(write_views(writes@)),
{
    let ghost views = write_views(writes@);
    let mut pages: Vec<usize> = Vec::new();
    let mut i: usize = 0;
    assert(views.subrange(0, 0) =~= Seq::<WriteView>::empty());
    while i < writes.len()
        invariant
            i <= writes.len(),
            views == write_views(writes@),
            pages@ == touched_pages(views.subrange(0, i as int)),
        decreases writes.len() - i,
    {
        let page = page_offset(writes[i].offset);
        assert(views.subrange(0, i + 1).drop_last() =~= views.subrange(0, i as int));
        assert(views.subrange(0, i + 1).last() == writes@[i as int]@);
        if !holds(&pages, page) {
            pages.push(page);
        }
        i += 1;
    }
    assert(views.subrange(0, i as int) =~= views);
    pages
}

/// Lays over `base` those of `writes` that go to the page at offset `page`,
/// oldest first.
pub fn apply_batch(base: Vec<u8>, writes: &Vec<BatchWrite>, page: usize) -> (out: Vec<u8>)
    requires
        all_fit(write_views(writes@)),
    ensures
        out@ == batch_page(base@, write_views(writes@), page),
{
    let ghost views = write_views(writes@);
    let ghost start = base@;
    let mut out = base;
    let mut i: usize = 0;
    assert(views.subrange(0, 0) =~= Seq::<WriteView>::empty());
    while i < writes.len()
        invariant
            i <= writes.len(),
            views == write_views(writes@),
            all_fit(views),
            out@ == batch_page(start, views.subrange(0, i as int), page),
        decreases writes.len() - i,
    {
        assert(views.subrange(0, i + 1).drop_last() =~= views.subrange(0, i as int));
        assert(views.subrange(0, i + 1).last() == writes@[i as int]@);
        assert(fits_at(views, i as int));
        if page_offset(writes[i].offset) == page {
            out = overlay_bytes(out, within_page(writes[i].offset), writes[i].data.as_slice());
        }
        i += 1;
    }
    assert(views.subrange(0, i as int) =~= views);
    out
}

/// The write at `i` fits its page.
spec fn fits_at(writes: Seq<WriteView>, i: int) -> bool {
    within_page_of(writes[i].offset) + writes[i].data.len() <= usize::MAX
}

impl CommitOp {
    #[verifier::type_invariant]
    spec fn in_step(&self) -> bool {
        &&& all_fit(write_views(self.writes@))
        &&& self.phase == CommitPhase::Fetch ==> self.puts@.len() < self.pages@.len()
    }

    pub(crate) fn begin(path: &str, writes: Vec<BatchWrite>) -> (step: Step<CommitOp, ()>)
        requires
            all_fit(write_views(writes@)),
        ensures
            step@ == commit_start(path@, write_views(writes@)),
    {
        if writes.len() == 0 {
            return Step::Done(Ok(()));
        }
        let pages = touched_page_list(&writes);
        proof {
            lemma_touched_pages_nonempty(write_views(writes@));
        }
        let key = page_key(path, pages[0]);
        let op = CommitOp {
            path: String::from_str(path),
            writes,
            pages,
            puts: Vec::new(),
            phase: CommitPhase::Fetch,
        };
        assert(put_views(op.puts@) =~= Seq::<(Seq<char>, Seq<u8>)>::empty());
        Step::Ask(StoreRequest::Get { key }, op)
    }

    /// Takes the store's reply to the request this commit is waiting on
    /// and says what comes next.
    pub fn resume(self, reply: StoreReply) -> (step: Step<CommitOp, ()>)
        ensures
            step@ == commit_next(self@, reply@),
    {
        proof {
            use_type_invariant(&self);
        }
        let ghost before = self@;
        let CommitOp { path, writes, pages, puts, phase } = self;
        match phase {
            CommitPhase::Fetch => match reply {
                StoreReply::Value(found) => {
                    let page = pages[puts.len()];
                    let base = match found {
                        Some(bytes) => bytes,
                        None => Vec::new(),
                    };
                    let value = apply_batch(base, &writes, page);
                    let key = page_key(path.as_str(), page);
                    let mut puts = puts;
                    let ghost put = (key@, value@);
                    puts.push(PagePut { key, value });
                    assert(put_views(puts@) =~= before.puts.push(put));
                    if puts.len() < pages.len() {
                        let next = page_key(path.as_str(), pages[puts.len()]);
                        Step::Ask(
                            StoreRequest::Get { key: next },
                            CommitOp { path, writes, pages, puts, phase: CommitPhase::Fetch },
                        )
                    } else {
                        let op = CommitOp {
                            path,
                            writes,
                            pages,
                            puts: Vec::new(),
                            phase: CommitPhase::Submit,
                        };
                        assert(put_views(op.puts@) =~= Seq::<(Seq<char>, Seq<u8>)>::empty());
                        Step::Ask(StoreRequest::WriteBatch { puts }, op)
                    }
                },
                _ => Step::Done(Err(VfsError::IoWrite)),
            },
            CommitPhase::Submit => match reply {
                StoreReply::Done => Step::Done(Ok(())),
                _ => Step::Done(Err(VfsError::IoWrite)),
            },
        }
    }
}

/// The entries of the batch that commits `writes` to `path`: for each page
/// of `pages`, its key and what it holds once its writes are applied to
/// what `store` has for it.
pub open spec fn batch_puts(
    store: Store,
    path: Seq<char>,
    writes: Seq<WriteView>,
    pages: Seq<usize>,
) -> Seq<(Seq<char>, Seq<u8>)> {
    pages.map_values(
        |page: usize|
            (page_key_of(path, page), batch_page(page_at(store, path, page), writes, page)),
    )
}

/// The store after `writes` were committed to `path`: every page they
/// touch is replaced at once.
pub open spec fn committed(store: Store, path: Seq<char>, writes: Seq<WriteView>) -> Store {
    put_all(store, batch_puts(store, path, writes, touched_pages(writes)))
}

/// The store after `writes` went to `path` one by one, outside a batch.
pub open spec fn written_in_turn(store: Store, path: Seq<char>, writes: Seq<WriteView>) -> Store
    decreases writes.len(),
{
    if writes.len() == 0 {
        store
    } else {
        written(
            written_in_turn(store, path, writes.drop_last()),
            path,
            writes.last().offset,
            writes.last().data,
        )
    }
}

/// Whether a commit that stands at the lookup of a page has made, from
/// what `store` holds, the new pages of all the pages before it.
spec fn fetching(op: CommitOpView, store: Store) -> bool {
    &&& op.phase == CommitPhase::Fetch
    &&& op.puts.len() < op.pages.len()
    &&& op.puts == batch_puts(
        store,
        op.path,
        op.writes,
        op.pages.subrange(0, op.puts.len() as int),
    )
}

/// The lookup a commit that fetches is waiting on.
spec fn fetch_step(op: CommitOpView) -> StepView<CommitOpView, ()> {
    StepView::Ask(
        RequestView::Get { key: page_key_of(op.path, op.pages[op.puts.len() as int]) },
        op,
    )
}

/// The commit after the lookup it waits on was answered from `store`.
spec fn fetched(op: CommitOpView, store: Store) -> CommitOpView {
    let page = op.pages[op.puts.len() as int];
    CommitOpView {
        puts: op.puts.push(
            (page_key_of(op.path, page), batch_page(page_at(store, op.path, page), op.writes, page)),
        ),
        ..op
    }
}

proof fn lemma_fetched(op: CommitOpView, store: Store)
    requires
        fetching(op, store),
    ensures
        fetched(op, store).puts == batch_puts(
            store,
            op.path,
            op.writes,
            op.pages.subrange(0, op.puts.len() as int + 1),
        ),
        fetched(op, store).puts.len() == op.pages.len() ==> fetched(op, store).puts == batch_puts(
            store,
            op.path,
            op.writes,
            op.pages,
        ),
        fetched(op, store).puts.len() < op.pages.len() ==> fetching(fetched(op, store), store),
{
    let i = op.puts.len() as int;
    assert(fetched(op, store).puts =~= batch_puts(
        store,
        op.path,
        op.writes,
        op.pages.subrange(0, i + 1),
    ));
    if i + 1 == op.pages.len() {
        assert(op.pages.subrange(0, i + 1) =~= op.pages);
    }
}

proof fn lemma_fetch_fuel(op: CommitOpView, store: Store) -> (fuel: nat)
    requires
        fetching(op, store),
    ensures
        drive(commit_reaction(), fetch_step(op), store, fuel) == Some(
            (
                put_all(store, batch_puts(store, op.path, op.writes, op.pages)),
                Ok::<(), VfsError>(()),
            ),
        ),
    decreases op.pages.len() - op.puts.len(),
{
    reveal_with_fuel(drive, 3);
    lemma_fetched(op, store);
    let after = fetched(op, store);
    if after.puts.len() < op.pages.len() {
        assert(commit_next(op, crate::store::answer(
            RequestView::Get { key: page_key_of(op.path, op.pages[op.puts.len() as int]) },
            store,
        )) == fetch_step(after));
        let rest = lemma_fetch_fuel(after, store);
        rest + 1
    } else {
        2
    }
}

/// A commit that the store serves without failing succeeds, and leaves
/// the store with every touched page replaced.
pub proof fn lemma_commit_completes(store: Store, path: Seq<char>, writes: Seq<WriteView>)
    ensures
        completes(
            commit_reaction(),
            commit_start(path, writes),
            store,
            committed(store, path, writes),
            Ok(()),
        ),
{
    reveal_with_fuel(drive, 2);
    if writes.len() == 0 {
        assert(touched_pages(writes) =~= Seq::<usize>::empty());
        assert(batch_puts(store, path, writes, touched_pages(writes)) =~= Seq::empty());
        assert(drive(commit_reaction(), commit_start(path, writes), store, 0) == Some(
            (committed(store, path, writes), Ok::<(), VfsError>(())),
        ));
    } else {
        lemma_touched_pages_nonempty(writes);
        let pages = touched_pages(writes);
        let op = CommitOpView {
            path,
            writes,
            pages,
            puts: Seq::empty(),
            phase: CommitPhase::Fetch,
        };
        assert(op.puts =~= batch_puts(store, path, writes, pages.subrange(0, 0)));
        let fuel = lemma_fetch_fuel(op, store);
        assert(drive(commit_reaction(), commit_start(path, writes), store, fuel) == Some(
            (committed(store, path, writes), Ok::<(), VfsError>(())),
        ));
    }
}

proof fn lemma_fetch_atomic(op: CommitOpView, store: Store, fuel: nat, seen: Store)
    requires
        fetching(op, store),
        passes_through(commit_reaction(), fetch_step(op), store, fuel, seen),
    ensures
        seen == store || seen == put_all(store, batch_puts(store, op.path, op.writes, op.pages)),
    decreases op.pages.len() - op.puts.len(),
{
    reveal_with_fuel(passes_through, 3);
    lemma_fetched(op, store);
    let after = fetched(op, store);
    if seen != store {
        if after.puts.len() < op.pages.len() {
            assert(commit_next(op, crate::store::answer(
                RequestView::Get { key: page_key_of(op.path, op.pages[op.puts.len() as int]) },
                store,
            )) == fetch_step(after));
            lemma_fetch_atomic(after, store, (fuel - 1) as nat, seen);
        }
    }
}

/// All that a reader of the store can see while a commit runs is the
/// store as it was before or the store with every touched page replaced:
/// never some of the writes without the others.
pub proof fn lemma_commit_is_atomic(
    store: Store,
    path: Seq<char>,
    writes: Seq<WriteView>,
    fuel: nat,
    seen: Store,
)
    requires
        passes_through(commit_reaction(), commit_start(path, writes), store, fuel, seen),
    ensures
        seen == store || seen == committed(store, path, writes),
{
    reveal_with_fuel(passes_through, 2);
    if writes.len() > 0 {
        lemma_touched_pages_nonempty(writes);
        let pages = touched_pages(writes);
        let op = CommitOpView {
            path,
            writes,
            pages,
            puts: Seq::empty(),
            phase: CommitPhase::Fetch,
        };
        assert(op.puts =~= batch_puts(store, path, writes, pages.subrange(0, 0)));
        lemma_fetch_atomic(op, store, fuel, seen);
    }
}

/// Where buffered writes overlap, the bytes of the later write stand: a
/// byte that the write at `j` covers, and no later write to the same page
/// covers, is in the committed page as that write has it.
pub proof fn lemma_last_write_wins(
    base: Seq<u8>,
    writes: Seq<WriteView>,
    page: usize,
    j: int,
    i: int,
)
    requires
        0 <= j < writes.len(),
        page_offset_of(writes[j].offset) == page,
        within_page_of(writes[j].offset) <= i < within_page_of(writes[j].offset)
            + writes[j].data.len(),
        forall|k: int|
            j < k < writes.len() && page_offset_of(#[trigger] writes[k].offset) == page ==> !(
            within_page_of(writes[k].offset) <= i < within_page_of(writes[k].offset)
                + writes[k].data.len()),
    ensures
        i < batch_page(base, writes, page).len(),
        batch_page(base, writes, page)[i] == writes[j].data[i - within_page_of(writes[j].offset)],
    decreases writes.len(),
{
    let front = writes.drop_last();
    if j < writes.len() - 1 {
        assert(front[j] == writes[j]);
        assert forall|k: int|
            j < k < front.len() && page_offset_of(#[trigger] front[k].offset) == page implies !(
        within_page_of(front[k].offset) <= i < within_page_of(front[k].offset)
            + front[k].data.len()) by {
            assert(front[k] == writes[k]);
        }
        lemma_last_write_wins(base, front, page, j, i);
        let k = writes.len() - 1;
        assert(writes[k] == writes.last());
    }
}

/// No page is listed twice among the pages that writes touch.
pub proof fn lemma_touched_pages_distinct(writes: Seq<WriteView>)
    ensures
        forall|a: int, b: int|
            0 <= a < b < touched_pages(writes).len() ==> touched_pages(writes)[a]
                != touched_pages(writes)[b],
    decreases writes.len(),
{
    if writes.len() > 0 {
        lemma_touched_pages_distinct(writes.drop_last());
        let before = touched_pages(writes.drop_last());
        let pages = touched_pages(writes);
        assert forall|a: int, b: int| 0 <= a < b < pages.len() implies pages[a] != pages[b] by {
            if b < before.len() {
                assert(pages[a] == before[a] && pages[b] == before[b]);
            } else {
                assert(before.contains(before[a]));
            }
        }
    }
}

/// The page of every write is among the pages that the writes touch, and
/// every page among them is the page of one of the writes.
pub proof fn lemma_touched_pages_are_the_pages(writes: Seq<WriteView>, page: usize)
    ensures
        touched_pages(writes).contains(page) <==> exists|k: int|
            0 <= k < writes.len() && page_offset_of(#[trigger] writes[k].offset) == page,
    decreases writes.len(),
{
    if writes.len() > 0 {
        let front = writes.drop_last();
        let last = page_offset_of(writes.last().offset);
        lemma_touched_pages_are_the_pages(front, page);
        let pages = touched_pages(writes);
        let before = touched_pages(front);
        if pages.contains(page) {
            if before.contains(page) {
                let k = choose|k: int|
                    0 <= k < front.len() && page_offset_of(#[trigger] front[k].offset) == page;
                assert(writes[k] == front[k]);
            } else {
                let at = choose|at: int| 0 <= at < pages.len() && pages[at] == page;
                if at < before.len() {
                    assert(before[at] == page);
                }
                assert(page == last);
                assert(page_offset_of(writes[writes.len() - 1].offset) == page);
            }
        }
        if exists|k: int|
            0 <= k < writes.len() && page_offset_of(#[trigger] writes[k].offset) == page {
            let k = choose|k: int|
                0 <= k < writes.len() && page_offset_of(#[trigger] writes[k].offset) == page;
            if k < front.len() {
                assert(front[k] == writes[k]);
                assert(before.contains(page));
                let at = choose|at: int| 0 <= at < before.len() && before[at] == page;
                assert(pages[at] == page);
            } else {
                if before.contains(page) {
                } else {
                    assert(pages[before.len() as int] == page);
                }
            }
        }
    }
}

/// A page that no write goes to stays as it is.
pub proof fn lemma_batch_page_untouched(base: Seq<u8>, writes: Seq<WriteView>, page: usize)
    requires
        forall|k: int| 0 <= k < writes.len() ==> page_offset_of(#[trigger] writes[k].offset) != page,
    ensures
        batch_page(base, writes, page) == base,
    decreases writes.len(),
{
    if writes.len() > 0 {
        let front = writes.drop_last();
        assert forall|k: int| 0 <= k < front.len() implies page_offset_of(
            #[trigger] front[k].offset,
        ) != page by {
            assert(front[k] == writes[k]);
        }
        lemma_batch_page_untouched(base, front, page);
        assert(writes[writes.len() - 1] == writes.last());
    }
}

/// After a commit, a page that the writes touch holds what it held
/// before with its writes applied in order.
pub proof fn lemma_committed_page(
    store: Store,
    path: Seq<char>,
    writes: Seq<WriteView>,
    page: usize,
)
    requires
        touched_pages(writes).contains(page),
    ensures
        has_page(committed(store, path, writes), path, page),
        committed(store, path, writes)[page_key_of(path, page)] == batch_page(
            page_at(store, path, page),
            writes,
            page,
        ),
{
    let pages = touched_pages(writes);
    let puts = batch_puts(store, path, writes, pages);
    let at = choose|at: int| 0 <= at < pages.len() && pages[at] == page;
    lemma_touched_pages_distinct(writes);
    assert forall|a: int, b: int| 0 <= a < b < puts.len() implies puts[a].0 != puts[b].0 by {
        if puts[a].0 == puts[b].0 {
            lemma_page_key_injective(path, pages[a], pages[b]);
        }
    }
    lemma_put_all_sets(store, puts, at);
}

/// A commit changes nothing but the pages that the writes touch.
pub proof fn lemma_committed_rest(
    store: Store,
    path: Seq<char>,
    writes: Seq<WriteView>,
    key: Seq<char>,
)
    requires
        forall|page: usize| touched_pages(writes).contains(page) ==> key != #[trigger] page_key_of(
            path,
            page,
        ),
    ensures
        committed(store, path, writes).dom().contains(key) == store.dom().contains(key),
        committed(store, path, writes)[key] == store[key],
{
    let pages = touched_pages(writes);
    let puts = batch_puts(store, path, writes, pages);
    assert forall|i: int| 0 <= i < puts.len() implies (#[trigger] puts[i]).0 != key by {
        assert(pages.contains(pages[i]));
    }
    lemma_put_all_keeps(store, puts, key);
}

/// After a commit the file has the pages it had and the pages that the
/// writes touch.
pub proof fn lemma_committed_has_page(
    store: Store,
    path: Seq<char>,
    writes: Seq<WriteView>,
    page: usize,
)
    ensures
        has_page(committed(store, path, writes), path, page) <==> has_page(store, path, page)
            || touched_pages(writes).contains(page),
{
    let pages = touched_pages(writes);
    if pages.contains(page) {
        lemma_committed_page(store, path, writes, page);
    } else {
        let key = page_key_of(path, page);
        assert forall|other: usize| pages.contains(other) implies key != #[trigger] page_key_of(
            path,
            other,
        ) by {
            if key == page_key_of(path, other) {
                lemma_page_key_injective(path, page, other);
            }
        }
        lemma_committed_rest(store, path, writes, key);
    }
}

/// To commit buffered writes is to make them one by one, in the order in
/// which they were buffered.
pub proof fn lemma_commit_is_writes_in_turn(store: Store, path: Seq<char>, writes: Seq<WriteView>)
    ensures
        committed(store, path, writes) == written_in_turn(store, path, writes),
    decreases writes.len(),
{
    if writes.len() == 0 {
        assert(touched_pages(writes) =~= Seq::<usize>::empty());
        assert(batch_puts(store, path, writes, touched_pages(writes)) =~= Seq::empty());
    } else {
        let front = writes.drop_last();
        let last = writes.last();
        let page = page_offset_of(last.offset);
        let here = page_key_of(path, page);
        lemma_commit_is_writes_in_turn(store, path, front);
        let mid = committed(store, path, front);
        let whole = committed(store, path, writes);
        let turn = written(mid, path, last.offset, last.data);
        let pages = touched_pages(writes);
        let before = touched_pages(front);
        assert(writes[writes.len() - 1] == last);
        lemma_touched_pages_are_the_pages(writes, page);
        lemma_committed_page(store, path, writes, page);
        lemma_committed_has_page(store, path, front, page);
        if before.contains(page) {
            lemma_committed_page(store, path, front, page);
        } else {
            lemma_touched_pages_are_the_pages(front, page);
            lemma_batch_page_untouched(page_at(store, path, page), front, page);
            assert forall|other: usize| before.contains(other) implies here != #[trigger] page_key_of(
                path,
                other,
            ) by {
                if here == page_key_of(path, other) {
                    lemma_page_key_injective(path, page, other);
                }
            }
            lemma_committed_rest(store, path, front, here);
        }
        assert(page_at(mid, path, page) == batch_page(page_at(store, path, page), front, page));
        assert forall|key: Seq<char>| #[trigger]
            whole.dom().contains(key) == turn.dom().contains(key) && (whole.dom().contains(key)
                ==> whole[key] == turn[key]) by {
            if key != here {
                if exists|other: usize| pages.contains(other) && key == page_key_of(path, other) {
                    let other = choose|other: usize|
                        pages.contains(other) && key == page_key_of(path, other);
                    assert(other != page);
                    let at = choose|at: int| 0 <= at < pages.len() && pages[at] == other;
                    assert(before.contains(other)) by {
                        if at < before.len() {
                            assert(before[at] == other);
                        }
                    }
                    lemma_committed_page(store, path, writes, other);
                    lemma_committed_page(store, path, front, other);
                } else {
                    assert forall|other: usize| before.contains(other) implies key
                        != #[trigger] page_key_of(path, other) by {
                        let at = choose|at: int| 0 <= at < before.len() && before[at] == other;
                        assert(pages[at] == other);
                        assert(pages.contains(other));
                    }
                    lemma_committed_rest(store, path, writes, key);
                    lemma_committed_rest(store, path, front, key);
                }
            }
        }
        assert(whole =~= turn);
    }
}

proof fn lemma_filled_below(
    store: Store,
    path: Seq<char>,
    writes: Seq<WriteView>,
    lo: usize,
    hi: usize,
)
    requires
        dense(store, path),
        rests_on_pages(store, path, writes),
        is_page_start(lo),
        is_page_start(hi),
        lo < hi,
        has_page(committed(store, path, writes), path, hi),
    ensures
        has_page(committed(store, path, writes), path, lo),
    decreases hi,
{
    let end = committed(store, path, writes);
    if has_page(store, path, hi) {
        assert(has_page(store, path, lo));
        assert(has_page(end, path, lo)) by {
            lemma_committed_has_page(store, path, writes, lo);
        }
    } else {
        assert(touched_pages(writes).contains(hi)) by {
            lemma_committed_has_page(store, path, writes, hi);
        }
        lemma_page_below(lo, hi);
        let below = (hi - PAGE_SIZE) as usize;
        assert(has_page(store, path, below) || touched_pages(writes).contains(below));
        assert(has_page(end, path, below)) by {
            lemma_committed_has_page(store, path, writes, below);
        }
        if lo < below {
            lemma_filled_below(store, path, writes, lo, below);
        }
    }
}

/// Whether every page that `writes` touch is the first page of the file
/// or has its lower neighbour, in the store or among the pages touched.
pub open spec fn rests_on_pages(store: Store, path: Seq<char>, writes: Seq<WriteView>) -> bool {
    forall|page: usize| #[trigger]
        touched_pages(writes).contains(page) ==> page == 0 || has_page(
            store,
            path,
            (page - PAGE_SIZE) as usize,
        ) || touched_pages(writes).contains((page - PAGE_SIZE) as usize)
}

/// A commit keeps a file free of gaps where every page it touches is the
/// first page or has its lower neighbour, in the store or in the batch.
pub proof fn lemma_commit_keeps_dense(
    store: Store,
    path: Seq<char>,
    writes: Seq<WriteView>,
    end: Store,
    result: Result<(), VfsError>,
)
    requires
        dense(store, path),
        rests_on_pages(store, path, writes),
        completes(commit_reaction(), commit_start(path, writes), store, end, result),
    ensures
        result is Ok,
        end == committed(store, path, writes),
        dense(end, path),
{
    lemma_commit_completes(store, path, writes);
    lemma_completes_once(
        commit_reaction(),
        commit_start(path, writes),
        store,
        end,
        result,
        committed(store, path, writes),
        Ok(()),
    );
    assert forall|lo: usize, hi: usize|
        #![trigger has_page(end, path, lo), has_page(end, path, hi)]
        is_page_start(lo) && is_page_start(hi) && lo < hi && has_page(
            end,
            path,
            hi,
        ) implies has_page(end, path, lo) by {
        lemma_filled_below(store, path, writes, lo, hi);
    }
}

/// A commit to one file leaves the pages of every other file as they are.
pub proof fn lemma_committed_leaves_other_files(
    store: Store,
    path: Seq<char>,
    writes: Seq<WriteView>,
    other: Seq<char>,
)
    requires
        other != path,
    ensures
        same_pages(store, committed(store, path, writes), other),
        dense(committed(store, path, writes), other) == dense(store, other),
{
    let end = committed(store, path, writes);
    assert forall|at: usize|
        has_page(end, other, at) == has_page(store, other, at) && end[#[trigger] page_key_of(
            other,
            at,
        )] == store[page_key_of(other, at)] by {
        let key = page_key_of(other, at);
        assert forall|page: usize| touched_pages(writes).contains(page) implies key
            != #[trigger] page_key_of(path, page) by {
            if key == page_key_of(path, page) {
                lemma_page_keys_differ(other, at, path, page);
            }
        }
        lemma_committed_rest(store, path, writes, key);
    }
    lemma_same_pages_same_density(store, end, other);
}

} // verus!
