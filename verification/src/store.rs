//! The conversation with the backing store: the requests an operation can
//! make, the replies it can get, and a mathematical model of a store that
//! answers faithfully.

use crate::error::VfsError;
use vstd::prelude::*;

verus! {

/// One entry of an atomic batch: the value a key gets.
pub struct PagePut {
    pub key: String,
    pub value: Vec<u8>,
}

impl View for PagePut {
    type V = (Seq<char>, Seq<u8>);

    open spec fn view(&self) -> (Seq<char>, Seq<u8>) {
        (self.key@, self.value@)
    }
}

/// What an operation asks of the store next.
pub enum StoreRequest {
    /// Look up a key.
    Get { key: String },
    /// Set a key to a value.
    Put { key: String, value: Vec<u8> },
    /// Remove a key.
    Delete { key: String },
    /// Set all the keys of the batch at once, or none of them.
    WriteBatch { puts: Vec<PagePut> },
    /// Make what was written durable.
    Flush,
}

/// A request as a plain value.
pub enum RequestView {
    Get { key: Seq<char> },
    Put { key: Seq<char>, value: Seq<u8> },
    Delete { key: Seq<char> },
    WriteBatch { puts: Seq<(Seq<char>, Seq<u8>)> },
    Flush,
}

impl View for StoreRequest {
    type V = RequestView;

    open spec fn view(&self) -> RequestView {
        match self {
            StoreRequest::Get { key } => RequestView::Get { key: key@ },
            StoreRequest::Put { key, value } => RequestView::Put { key: key@, value: value@ },
            StoreRequest::Delete { key } => RequestView::Delete { key: key@ },
            StoreRequest::WriteBatch { puts } => RequestView::WriteBatch {
                puts: puts@.map_values(|p: PagePut| p@),
            },
            StoreRequest::Flush => RequestView::Flush,
        }
    }
}

/// What the store said to the last request.
pub enum StoreReply {
    /// The answer to a lookup: the value under the key, if there is one.
    Value(Option<Vec<u8>>),
    /// A put, a delete, a batch or a flush was carried out.
    Done,
    /// The store could not serve the request.
    Failed,
}

/// A reply as a plain value.
pub enum ReplyView {
    Value(Option<Seq<u8>>),
    Done,
    Failed,
}

impl View for StoreReply {
    type V = ReplyView;

    open spec fn view(&self) -> ReplyView {
        match self {
            StoreReply::Value(Some(bytes)) => ReplyView::Value(Some(bytes@)),
            StoreReply::Value(None) => ReplyView::Value(None),
            StoreReply::Done => ReplyView::Done,
            StoreReply::Failed => ReplyView::Failed,
        }
    }
}

/// Where an operation stands: it either waits for the store's reply to a
/// request, holding what it needs to go on, or it has ended with a result.
pub enum Step<Op, T> {
    Ask(StoreRequest, Op),
    Done(Result<T, VfsError>),
}

/// A step as a plain value.
pub enum StepView<S, V> {
    Ask(RequestView, S),
    Done(Result<V, VfsError>),
}

impl<Op: View, T: View> View for Step<Op, T> {
    type V = StepView<Op::V, T::V>;

    open spec fn view(&self) -> StepView<Op::V, T::V> {
        match self {
            Step::Ask(request, op) => StepView::Ask(request@, op@),
            Step::Done(Ok(value)) => StepView::Done(Ok(value@)),
            Step::Done(Err(e)) => StepView::Done(Err(*e)),
        }
    }
}

/// The contents of a store: the value under each key that is present.
pub type Store = Map<Seq<char>, Seq<u8>>;

/// `store` after the entries of `puts` were set, one after the other.
pub open spec fn put_all(store: Store, puts: Seq<(Seq<char>, Seq<u8>)>) -> Store
    decreases puts.len(),
{
    if puts.len() == 0 {
        store
    } else {
        put_all(store, puts.drop_last()).insert(puts.last().0, puts.last().1)
    }
}

/// `store` after it served `request`.
pub open spec fn effect(request: RequestView, store: Store) -> Store {
    match request {
        RequestView::Get { key } => store,
        RequestView::Put { key, value } => store.insert(key, value),
        RequestView::Delete { key } => store.remove(key),
        RequestView::WriteBatch { puts } => put_all(store, puts),
        RequestView::Flush => store,
    }
}

/// What a store that holds `store` and does not fail replies to `request`.
pub open spec fn answer(request: RequestView, store: Store) -> ReplyView {
    match request {
        RequestView::Get { key } => ReplyView::Value(
            if store.dom().contains(key) {
                Some(store[key])
            } else {
                None
            },
        ),
        _ => ReplyView::Done,
    }
}

/// Where an operation ends when every request it makes is served by a
/// store that starts as `store` and does not fail, within `fuel` requests:
/// the final store and the operation's result. `next` is the operation's
/// reaction to a reply.
pub open spec fn drive<S, V>(
    next: spec_fn(S, ReplyView) -> StepView<S, V>,
    step: StepView<S, V>,
    store: Store,
    fuel: nat,
) -> Option<(Store, Result<V, VfsError>)>
    decreases fuel,
{
    match step {
        StepView::Done(result) => Some((store, result)),
        StepView::Ask(request, op) => if fuel == 0 {
            None
        } else {
            drive(next, next(op, answer(request, store)), effect(request, store), (fuel - 1) as nat)
        },
    }
}

/// An operation that reacts by `next` and stands at `step` ends, against a
/// store that starts as `store` and does not fail, with the store `end` and
/// the result `result`.
pub open spec fn completes<S, V>(
    next: spec_fn(S, ReplyView) -> StepView<S, V>,
    step: StepView<S, V>,
    store: Store,
    end: Store,
    result: Result<V, VfsError>,
) -> bool {
    exists|fuel: nat| drive(next, step, store, fuel) == Some((end, result))
}

/// More fuel does not change where an operation ends.
pub proof fn lemma_drive_more_fuel<S, V>(
    next: spec_fn(S, ReplyView) -> StepView<S, V>,
    step: StepView<S, V>,
    store: Store,
    fuel: nat,
    more: nat,
)
    requires
        drive(next, step, store, fuel) is Some,
        fuel <= more,
    ensures
        drive(next, step, store, more) == drive(next, step, store, fuel),
    decreases fuel,
{
    match step {
        StepView::Done(result) => {},
        StepView::Ask(request, op) => {
            lemma_drive_more_fuel(
                next,
                next(op, answer(request, store)),
                effect(request, store),
                (fuel - 1) as nat,
                (more - 1) as nat,
            );
        },
    }
}

/// An operation ends in one way only.
pub proof fn lemma_completes_once<S, V>(
    next: spec_fn(S, ReplyView) -> StepView<S, V>,
    step: StepView<S, V>,
    store: Store,
    end1: Store,
    result1: Result<V, VfsError>,
    end2: Store,
    result2: Result<V, VfsError>,
)
    requires
        completes(next, step, store, end1, result1),
        completes(next, step, store, end2, result2),
    ensures
        end1 == end2,
        result1 == result2,
{
    let f1 = choose|fuel: nat| drive(next, step, store, fuel) == Some((end1, result1));
    let f2 = choose|fuel: nat| drive(next, step, store, fuel) == Some((end2, result2));
    if f1 <= f2 {
        lemma_drive_more_fuel(next, step, store, f1, f2);
    } else {
        lemma_drive_more_fuel(next, step, store, f2, f1);
    }
}

/// Whether the store holds `seen` at some moment while an operation that
/// reacts by `next` and stands at `step` makes up to `fuel` requests to a
/// store that starts as `store` and does not fail. These are the states
/// another reader of the store can observe.
pub open spec fn passes_through<S, V>(
    next: spec_fn(S, ReplyView) -> StepView<S, V>,
    step: StepView<S, V>,
    store: Store,
    fuel: nat,
    seen: Store,
) -> bool
    decreases fuel,
{
    seen == store || match step {
        StepView::Done(_) => false,
        StepView::Ask(request, op) => fuel > 0 && passes_through(
            next,
            next(op, answer(request, store)),
            effect(request, store),
            (fuel - 1) as nat,
            seen,
        ),
    }
}

/// Setting the entries of a batch keeps every key that is not among them.
pub proof fn lemma_put_all_keeps(store: Store, puts: Seq<(Seq<char>, Seq<u8>)>, key: Seq<char>)
    requires
        forall|i: int| 0 <= i < puts.len() ==> (#[trigger] puts[i]).0 != key,
    ensures
        put_all(store, puts).dom().contains(key) == store.dom().contains(key),
        put_all(store, puts)[key] == store[key],
    decreases puts.len(),
{
    if puts.len() > 0 {
        assert(puts.last().0 != key);
        assert forall|i: int| 0 <= i < puts.drop_last().len() implies (#[trigger] puts.drop_last()[i]).0
            != key by {
            assert(puts.drop_last()[i] == puts[i]);
        }
        lemma_put_all_keeps(store, puts.drop_last(), key);
    }
}

/// After a batch whose keys differ, each of its keys has its value.
pub proof fn lemma_put_all_sets(store: Store, puts: Seq<(Seq<char>, Seq<u8>)>, i: int)
    requires
        0 <= i < puts.len(),
        forall|a: int, b: int| 0 <= a < b < puts.len() ==> puts[a].0 != puts[b].0,
    ensures
        put_all(store, puts).dom().contains(puts[i].0),
        put_all(store, puts)[puts[i].0] == puts[i].1,
    decreases puts.len(),
{
    if i < puts.len() - 1 {
        let front = puts.drop_last();
        assert(front[i] == puts[i]);
        assert forall|a: int, b: int| 0 <= a < b < front.len() implies front[a].0 != front[b].0 by {
            assert(front[a] == puts[a]);
            assert(front[b] == puts[b]);
        }
        lemma_put_all_sets(store, front, i);
        assert(puts[i].0 != puts.last().0);
    }
}

} // verus!
