//! The fetch cycle: one pass of fetch, gate and write for one source.
//!
//! The cycle itself performs no outside work. It is a state machine that is
//! told what happened and answers with what to do next; whoever runs it
//! reads the store, asks the source and writes the batch.

use vstd::pervasive::unreached;
use vstd::prelude::*;
use crate::dedup::{gate, select_new, write_batch, Strategy};
use crate::error::{FetchError, FetchErrorView, StoreError, StoreErrorView};
use crate::item::{ids_of, Shareable, ShareableView};
use crate::pagination::fetched_view;
use crate::store::{
    insert_rows, lemma_ids_of_concat, lemma_insert_rows, lemma_upsert_idempotent,
    lemma_upsert_keeps_unique, unique_ids, upsert_rows, MemoryStore,
};

verus! {

/// How a cycle ended.
#[derive(Debug)]
pub enum CycleOutcome {
    /// The write went through; the number is that of the rows it added.
    Persisted(usize),
    /// The source gave no items; nothing was written.
    FetchFailed(FetchError),
    /// The store refused the read or the write.
    StoreFailed(StoreError),
}

/// What a `CycleOutcome` stands for.
pub enum CycleOutcomeView {
    Persisted(nat),
    FetchFailed(FetchErrorView),
    StoreFailed(StoreErrorView),
}

impl View for CycleOutcome {
    type V = CycleOutcomeView;

    open spec fn view(&self) -> CycleOutcomeView {
        match self {
            CycleOutcome::Persisted(n) => CycleOutcomeView::Persisted(*n as nat),
            CycleOutcome::FetchFailed(e) => CycleOutcomeView::FetchFailed(e@),
            CycleOutcome::StoreFailed(e) => CycleOutcomeView::StoreFailed(e@),
        }
    }
}

/// Where a cycle stands.
#[derive(Clone, Copy, Debug, PartialEq, Eq, Structural)]
pub enum Phase {
    /// Not begun.
    Ready,
    /// Waiting for the identifiers that the store holds.
    ReadingKnown,
    /// Waiting for the source.
    Fetching,
    /// Waiting for the store to take the batch.
    Writing,
    /// Over.
    Finished,
}

/// What happened outside the cycle.
#[derive(Debug)]
pub enum CycleEvent {
    /// The tick that begins the cycle.
    Begin,
    /// The store answered the read of its identifiers.
    KnownIds(Result<Vec<String>, StoreError>),
    /// The source answered: the normalized candidates of all its pages, or
    /// the failure that ended the fetch.
    Fetched(Result<Vec<Shareable>, FetchError>),
    /// The store answered the write: the number of rows it added, or why it
    /// refused.
    Written(Result<usize, StoreError>),
}

/// What a `CycleEvent` stands for.
pub enum CycleEventView {
    Begin,
    KnownIds(Result<Seq<Seq<char>>, StoreErrorView>),
    Fetched(Result<Seq<ShareableView>, FetchErrorView>),
    Written(Result<nat, StoreErrorView>),
}

impl View for CycleEvent {
    type V = CycleEventView;

    open spec fn view(&self) -> CycleEventView {
        match self {
            CycleEvent::Begin => CycleEventView::Begin,
            CycleEvent::KnownIds(Ok(ids)) => CycleEventView::KnownIds(Ok(ids.deep_view())),
            CycleEvent::KnownIds(Err(e)) => CycleEventView::KnownIds(Err(e@)),
            CycleEvent::Fetched(r) => CycleEventView::Fetched(fetched_view(*r)),
            CycleEvent::Written(Ok(n)) => CycleEventView::Written(Ok(*n as nat)),
            CycleEvent::Written(Err(e)) => CycleEventView::Written(Err(e@)),
        }
    }
}

/// What the runner of a cycle is to do next.
#[derive(Debug)]
pub enum CycleAction {
    /// Read the identifiers that the store holds.
    ReadKnownIds,
    /// Ask the source for its candidates.
    Fetch,
    /// Insert the batch as it is; the store is to refuse a taken identifier.
    Insert(Vec<Shareable>),
    /// Write the batch with upsert-ignore.
    UpsertIgnore(Vec<Shareable>),
    /// Report the outcome; the cycle is over.
    Finish(CycleOutcome),
    /// The event did not belong here; nothing is to be done.
    Nothing,
}

/// What a `CycleAction` stands for.
pub enum CycleActionView {
    ReadKnownIds,
    Fetch,
    Insert(Seq<ShareableView>),
    UpsertIgnore(Seq<ShareableView>),
    Finish(CycleOutcomeView),
    Nothing,
}

impl View for CycleAction {
    type V = CycleActionView;

    open spec fn view(&self) -> CycleActionView {
        match self {
            CycleAction::ReadKnownIds => CycleActionView::ReadKnownIds,
            CycleAction::Fetch => CycleActionView::Fetch,
            CycleAction::Insert(b) => CycleActionView::Insert(b.deep_view()),
            CycleAction::UpsertIgnore(b) => CycleActionView::UpsertIgnore(b.deep_view()),
            CycleAction::Finish(o) => CycleActionView::Finish(o@),
            CycleAction::Nothing => CycleActionView::Nothing,
        }
    }
}

/// The state of one fetch cycle.
#[derive(Debug)]
pub struct Cycle {
    strategy: Strategy,
    phase: Phase,
    known: Vec<String>,
}

/// What a `Cycle` stands for.
pub struct CycleView {
    pub strategy: Strategy,
    pub phase: Phase,
    /// The snapshot of known identifiers, once it has been read.
    pub known: Seq<Seq<char>>,
}

impl View for Cycle {
    type V = CycleView;

    closed spec fn view(&self) -> CycleView {
        CycleView { strategy: self.strategy, phase: self.phase, known: self.known.deep_view() }
    }
}

/// A cycle that has not begun.
pub open spec fn cycle_start(strategy: Strategy) -> CycleView {
    CycleView { strategy, phase: Phase::Ready, known: Seq::empty() }
}

/// The cycle `c` over, with `outcome` to report.
pub open spec fn finished(c: CycleView, outcome: CycleOutcomeView) -> (CycleView, CycleActionView) {
    (CycleView { phase: Phase::Finished, ..c }, CycleActionView::Finish(outcome))
}

/// What the cycle does with the candidates of the source: nothing to write
/// ends it with zero rows added; otherwise the batch goes to the store, by
/// insert under check-then-write and by upsert-ignore under idempotent write.
pub open spec fn after_fetch(c: CycleView, candidates: Seq<ShareableView>) -> (
    CycleView,
    CycleActionView,
) {
    let batch = write_batch(c.strategy, candidates, c.known);
    if batch.len() == 0 {
        finished(c, CycleOutcomeView::Persisted(0))
    } else {
        (
            CycleView { phase: Phase::Writing, ..c },
            match c.strategy {
                Strategy::CheckThenWrite => CycleActionView::Insert(batch),
                Strategy::IdempotentWrite => CycleActionView::UpsertIgnore(batch),
            },
        )
    }
}

/// The cycle after `event`, and what its runner is to do next.
///
/// A begun cycle reads the known identifiers first under check-then-write
/// and asks the source at once under idempotent write. A failed read, fetch
/// or write ends the cycle with that failure; after a failed fetch no write
/// is asked for. An event that does not belong to the phase changes nothing.
pub open spec fn cycle_step(c: CycleView, event: CycleEventView) -> (CycleView, CycleActionView) {
    match (c.phase, event) {
        (Phase::Ready, CycleEventView::Begin) => match c.strategy {
            Strategy::CheckThenWrite => (
                CycleView { phase: Phase::ReadingKnown, ..c },
                CycleActionView::ReadKnownIds,
            ),
            Strategy::IdempotentWrite => (
                CycleView { phase: Phase::Fetching, ..c },
                CycleActionView::Fetch,
            ),
        },
        (Phase::ReadingKnown, CycleEventView::KnownIds(Ok(ids))) => (
            CycleView { phase: Phase::Fetching, known: ids, ..c },
            CycleActionView::Fetch,
        ),
        (Phase::ReadingKnown, CycleEventView::KnownIds(Err(e))) => finished(
            c,
            CycleOutcomeView::StoreFailed(e),
        ),
        (Phase::Fetching, CycleEventView::Fetched(Ok(candidates))) => after_fetch(c, candidates),
        (Phase::Fetching, CycleEventView::Fetched(Err(e))) => finished(
            c,
            CycleOutcomeView::FetchFailed(e),
        ),
        (Phase::Writing, CycleEventView::Written(Ok(n))) => finished(
            c,
            CycleOutcomeView::Persisted(n),
        ),
        (Phase::Writing, CycleEventView::Written(Err(e))) => finished(
            c,
            CycleOutcomeView::StoreFailed(e),
        ),
        _ => (c, CycleActionView::Nothing),
    }
}

impl Cycle {
    /// A cycle under `strategy` that has not begun.
    pub fn new(strategy: Strategy) -> (c: Cycle)
        ensures
            c@ == cycle_start(strategy),
    {
        let c = Cycle { strategy, phase: Phase::Ready, known: Vec::new() };
        assert(c.known.deep_view() =~= Seq::empty());
        c
    }

    /// Where the cycle stands.
    pub fn phase(&self) -> (p: Phase)
        ensures
            p == self@.phase,
    {
        self.phase
    }

    /// The strategy of the cycle.
    pub fn strategy(&self) -> (s: Strategy)
        ensures
            s == self@.strategy,
    {
        self.strategy
    }

    /// Takes what happened and says what to do next.
    pub fn step(&mut self, event: CycleEvent) -> (action: CycleAction)
        ensures
            (final(self)@, action@) == cycle_step(old(self)@, event@),
    {
        match self.phase {
            Phase::Ready => match event {
                CycleEvent::Begin => match self.strategy {
                    Strategy::CheckThenWrite => {
                        self.phase = Phase::ReadingKnown;
                        CycleAction::ReadKnownIds
                    },
                    Strategy::IdempotentWrite => {
                        self.phase = Phase::Fetching;
                        CycleAction::Fetch
                    },
                },
                _ => CycleAction::Nothing,
            },
            Phase::ReadingKnown => match event {
                CycleEvent::KnownIds(Ok(ids)) => {
                    self.known = ids;
                    self.phase = Phase::Fetching;
                    CycleAction::Fetch
                },
                CycleEvent::KnownIds(Err(e)) => {
                    self.phase = Phase::Finished;
                    CycleAction::Finish(CycleOutcome::StoreFailed(e))
                },
                _ => CycleAction::Nothing,
            },
            Phase::Fetching => match event {
                CycleEvent::Fetched(Ok(candidates)) => {
                    let batch = gate(self.strategy, candidates, &self.known);
                    if batch.len() == 0 {
                        self.phase = Phase::Finished;
                        CycleAction::Finish(CycleOutcome::Persisted(0))
                    } else {
                        self.phase = Phase::Writing;
                        match self.strategy {
                            Strategy::CheckThenWrite => CycleAction::Insert(batch),
                            Strategy::IdempotentWrite => CycleAction::UpsertIgnore(batch),
                        }
                    }
                },
                CycleEvent::Fetched(Err(e)) => {
                    self.phase = Phase::Finished;
                    CycleAction::Finish(CycleOutcome::FetchFailed(e))
                },
                _ => CycleAction::Nothing,
            },
            Phase::Writing => match event {
                CycleEvent::Written(Ok(n)) => {
                    self.phase = Phase::Finished;
                    CycleAction::Finish(CycleOutcome::Persisted(n))
                },
                CycleEvent::Written(Err(e)) => {
                    self.phase = Phase::Finished;
                    CycleAction::Finish(CycleOutcome::StoreFailed(e))
                },
                _ => CycleAction::Nothing,
            },
            Phase::Finished => CycleAction::Nothing,
        }
    }
}

/// The rows of a store after one cycle that met the fetch result `fetched`.
///
/// A failed fetch leaves the rows as they were. Under idempotent write every
/// candidate is written with upsert-ignore. Under check-then-write the
/// candidates that the rows do not know are inserted as one batch, which the
/// store turns down as a whole if it holds an identifier twice.
pub open spec fn cycle_rows(
    rows: Seq<ShareableView>,
    strategy: Strategy,
    fetched: Result<Seq<ShareableView>, FetchErrorView>,
) -> Seq<ShareableView> {
    match fetched {
        Err(_) => rows,
        Ok(candidates) => match strategy {
            Strategy::IdempotentWrite => upsert_rows(rows, candidates),
            Strategy::CheckThenWrite => match insert_rows(
                rows,
                select_new(candidates, ids_of(rows)),
            ) {
                Ok(after) => after,
                Err(_) => rows,
            },
        },
    }
}

/// The outcome of one cycle on a store with `rows` that met the fetch result
/// `fetched`.
pub open spec fn cycle_outcome(
    rows: Seq<ShareableView>,
    strategy: Strategy,
    fetched: Result<Seq<ShareableView>, FetchErrorView>,
) -> CycleOutcomeView {
    match fetched {
        Err(e) => CycleOutcomeView::FetchFailed(e),
        Ok(candidates) => match strategy {
            Strategy::IdempotentWrite => CycleOutcomeView::Persisted(
                (upsert_rows(rows, candidates).len() - rows.len()) as nat,
            ),
            Strategy::CheckThenWrite => match insert_rows(
                rows,
                select_new(candidates, ids_of(rows)),
            ) {
                Ok(_) => CycleOutcomeView::Persisted(select_new(candidates, ids_of(rows)).len()),
                Err(id) => CycleOutcomeView::StoreFailed(StoreErrorView::Rejected(id)),
            },
        },
    }
}

/// Runs one cycle against a store in memory, with `fetched` as what the
/// source gave, and reports how it ended.
pub fn run_cycle(
    store: &mut MemoryStore,
    strategy: Strategy,
    fetched: Result<Vec<Shareable>, FetchError>,
) -> (outcome: CycleOutcome)
    ensures
        final(store)@ == cycle_rows(old(store)@, strategy, fetched_view(fetched)),
        outcome@ == cycle_outcome(old(store)@, strategy, fetched_view(fetched)),
        unique_ids(final(store)@),
{
    let before = store.len();
    let mut cycle = Cycle::new(strategy);
    let mut action = cycle.step(CycleEvent::Begin);
    if let CycleAction::ReadKnownIds = action {
        let known = store.list_known_ids();
        action = cycle.step(CycleEvent::KnownIds(Ok(known)));
    }
    assert(action@ == CycleActionView::Fetch);
    assert(cycle@.known == if strategy == Strategy::CheckThenWrite {
        ids_of(store@)
    } else {
        Seq::empty()
    });
    action = cycle.step(CycleEvent::Fetched(fetched));
    proof {
        if let Ok(candidates) = fetched_view(fetched) {
            lemma_upsert_keeps_unique(store@, candidates);
            lemma_insert_rows(store@, select_new(candidates, ids_of(store@)));
            if write_batch(strategy, candidates, cycle@.known).len() == 0 {
                assert(upsert_rows(store@, Seq::<ShareableView>::empty()) == store@);
            }
        }
    }
    match action {
        CycleAction::Insert(batch) => {
            let n = batch.len();
            let written = match store.insert(batch) {
                Ok(()) => Ok(n),
                Err(e) => Err(e),
            };
            action = cycle.step(CycleEvent::Written(written));
        },
        CycleAction::UpsertIgnore(batch) => {
            let ghost rows = store@;
            let ghost writes = batch.deep_view();
            let written = match store.upsert_ignore(batch) {
                Ok(()) => {
                    let after = store.len();
                    assert(rows.is_prefix_of(store@)) by {
                        lemma_upsert_keeps_unique(rows, writes);
                    }
                    Ok(after - before)
                },
                Err(e) => Err(e),
            };
            action = cycle.step(CycleEvent::Written(written));
        },
        other => {
            action = other;
        },
    }
    match action {
        CycleAction::Finish(outcome) => outcome,
        _ => unreached(),
    }
}

/// What a cycle leaves in the store holds no identifier twice.
pub proof fn lemma_cycle_keeps_unique(
    rows: Seq<ShareableView>,
    strategy: Strategy,
    fetched: Result<Seq<ShareableView>, FetchErrorView>,
)
    requires
        unique_ids(rows),
    ensures
        unique_ids(cycle_rows(rows, strategy, fetched)),
        rows.is_prefix_of(cycle_rows(rows, strategy, fetched)),
{
    if let Ok(candidates) = fetched {
        lemma_upsert_keeps_unique(rows, candidates);
        lemma_insert_rows(rows, select_new(candidates, ids_of(rows)));
    }
}

/// Failure isolation: a cycle whose fetch failed writes nothing and reports
/// the failure, so whatever cycle runs next meets the store as if the failed
/// one had never run.
pub proof fn lemma_failed_fetch_writes_nothing(
    rows: Seq<ShareableView>,
    strategy: Strategy,
    e: FetchErrorView,
    next_strategy: Strategy,
    next_fetched: Result<Seq<ShareableView>, FetchErrorView>,
)
    ensures
        cycle_rows(rows, strategy, Err(e)) == rows,
        cycle_outcome(rows, strategy, Err(e)) == CycleOutcomeView::FetchFailed(e),
        cycle_rows(cycle_rows(rows, strategy, Err(e)), next_strategy, next_fetched) == cycle_rows(
            rows,
            next_strategy,
            next_fetched,
        ),
        cycle_outcome(cycle_rows(rows, strategy, Err(e)), next_strategy, next_fetched)
            == cycle_outcome(rows, next_strategy, next_fetched),
{
}

/// Every candidate is known to the rows that a check-then-write insert left.
proof fn lemma_all_known_after_insert(rows: Seq<ShareableView>, candidates: Seq<ShareableView>)
    ensures
        select_new(candidates, ids_of(rows + select_new(candidates, ids_of(rows)))).len() == 0,
{
    let known = ids_of(rows);
    let batch = select_new(candidates, known);
    let after = ids_of(rows + batch);
    let fresh = |c: ShareableView| crate::dedup::is_new(known, c);
    let still = |c: ShareableView| crate::dedup::is_new(after, c);
    lemma_ids_of_concat(rows, batch);
    assert forall|i: int| 0 <= i < candidates.len() implies !still(candidates[i]) by {
        let c = candidates[i];
        if fresh(c) {
            candidates.lemma_filter_contains(fresh, i);
            let k = choose|k: int| 0 <= k < batch.len() && batch[k] == c;
            assert(ids_of(batch)[k] == c.id);
            assert(ids_of(batch).contains(c.id));
        }
        assert(after.contains(c.id));
    }
    candidates.lemma_all_neg_filter_empty(still);
}

/// Idempotence: a second cycle that meets the same fetch result leaves the
/// store as the first left it, and where the first reported rows added, the
/// second reports none.
pub proof fn lemma_cycle_idempotent(
    rows: Seq<ShareableView>,
    strategy: Strategy,
    fetched: Result<Seq<ShareableView>, FetchErrorView>,
)
    requires
        unique_ids(rows),
    ensures
        cycle_rows(cycle_rows(rows, strategy, fetched), strategy, fetched) == cycle_rows(
            rows,
            strategy,
            fetched,
        ),
        cycle_outcome(rows, strategy, fetched) is Persisted ==> cycle_outcome(
            cycle_rows(rows, strategy, fetched),
            strategy,
            fetched,
        ) == CycleOutcomeView::Persisted(0),
{
    if let Ok(candidates) = fetched {
        match strategy {
            Strategy::IdempotentWrite => {
                lemma_upsert_idempotent(rows, candidates);
            },
            Strategy::CheckThenWrite => {
                let batch = select_new(candidates, ids_of(rows));
                lemma_insert_rows(rows, batch);
                if insert_rows(rows, batch) is Ok {
                    lemma_all_known_after_insert(rows, candidates);
                    let again = select_new(candidates, ids_of(rows + batch));
                    assert(again =~= Seq::<ShareableView>::empty());
                }
            },
        }
    }
}

/// The store after the cycles that met `fetches`, one after the other.
pub open spec fn cycles_rows(
    rows: Seq<ShareableView>,
    strategy: Strategy,
    fetches: Seq<Result<Seq<ShareableView>, FetchErrorView>>,
) -> Seq<ShareableView>
    decreases fetches.len(),
{
    if fetches.len() == 0 {
        rows
    } else {
        cycles_rows(cycle_rows(rows, strategy, fetches.first()), strategy, fetches.drop_first())
    }
}

/// No duplicates: after any sequence of cycles, whatever each of them
/// fetched, the store holds no identifier twice.
pub proof fn lemma_cycles_keep_unique(
    rows: Seq<ShareableView>,
    strategy: Strategy,
    fetches: Seq<Result<Seq<ShareableView>, FetchErrorView>>,
)
    requires
        unique_ids(rows),
    ensures
        unique_ids(cycles_rows(rows, strategy, fetches)),
    decreases fetches.len(),
{
    if fetches.len() > 0 {
        lemma_cycle_keeps_unique(rows, strategy, fetches.first());
        lemma_cycles_keep_unique(
            cycle_rows(rows, strategy, fetches.first()),
            strategy,
            fetches.drop_first(),
        );
    }
}

/// Two tests that agree on every item of `items` keep the same items.
proof fn lemma_filter_agrees(
    items: Seq<ShareableView>,
    p: spec_fn(ShareableView) -> bool,
    q: spec_fn(ShareableView) -> bool,
)
    requires
        forall|i: int| 0 <= i < items.len() ==> p(#[trigger] items[i]) == q(items[i]),
    ensures
        items.filter(p) == items.filter(q),
    decreases items.len(),
{
    reveal(Seq::filter);
    if items.len() > 0 {
        let init = items.drop_last();
        assert forall|i: int| 0 <= i < init.len() implies p(#[trigger] init[i]) == q(init[i]) by {
            assert(init[i] == items[i]);
        }
        lemma_filter_agrees(init, p, q);
        assert(p(items[items.len() - 1]) == q(items[items.len() - 1]));
    }
}

/// Where no candidate shares its identifier with another, writing them all
/// with upsert-ignore adds exactly the candidates that the rows do not know.
pub proof fn lemma_upsert_adds_the_new(rows: Seq<ShareableView>, candidates: Seq<ShareableView>)
    requires
        unique_ids(candidates),
    ensures
        upsert_rows(rows, candidates) == rows + select_new(candidates, ids_of(rows)),
    decreases candidates.len(),
{
    let known = ids_of(rows);
    let fresh = |c: ShareableView| crate::dedup::is_new(known, c);
    if candidates.len() == 0 {
        reveal(Seq::filter);
        assert(rows + select_new(candidates, known) =~= rows);
    } else {
        let head = candidates.first();
        let rest = candidates.drop_first();
        assert(candidates =~= seq![head] + rest);
        rest.lemma_filter_prepend(head, fresh);
        assert forall|i: int, j: int| 0 <= i < j < rest.len() implies rest[i].id
            != rest[j].id by {
            assert(rest[i] == candidates[i + 1] && rest[j] == candidates[j + 1]);
        }
        if known.contains(head.id) {
            lemma_upsert_adds_the_new(rows, rest);
            assert(Seq::<ShareableView>::empty() + rest.filter(fresh) =~= rest.filter(fresh));
        } else {
            let grown = rows.push(head);
            let later = |c: ShareableView| crate::dedup::is_new(ids_of(grown), c);
            lemma_upsert_adds_the_new(grown, rest);
            assert(rows.push(head) =~= rows + seq![head]);
            lemma_ids_of_concat(rows, seq![head]);
            assert forall|i: int| 0 <= i < rest.len() implies later(#[trigger] rest[i]) == fresh(
                rest[i],
            ) by {
                assert(rest[i] == candidates[i + 1]);
                assert(candidates[0].id != candidates[i + 1].id);
                assert(ids_of(seq![head]) =~= seq![head.id]);
                if ids_of(seq![head]).contains(rest[i].id) {
                    let k = choose|k: int|
                        0 <= k < ids_of(seq![head]).len() && ids_of(seq![head])[k] == rest[i].id;
                    assert(false);
                }
            }
            lemma_filter_agrees(rest, later, fresh);
            assert(grown + rest.filter(fresh) =~= rows + (seq![head] + rest.filter(fresh)));
        }
    }
}

/// The two strategies come to the same: where the store holds no identifier
/// twice and no candidate shares its identifier with another, a cycle under
/// check-then-write and a cycle under idempotent write leave the same rows
/// and report the same number of rows added.
pub proof fn lemma_strategies_agree(rows: Seq<ShareableView>, candidates: Seq<ShareableView>)
    requires
        unique_ids(rows),
        unique_ids(candidates),
    ensures
        cycle_rows(rows, Strategy::CheckThenWrite, Ok(candidates)) == cycle_rows(
            rows,
            Strategy::IdempotentWrite,
            Ok(candidates),
        ),
        cycle_outcome(rows, Strategy::CheckThenWrite, Ok(candidates)) == cycle_outcome(
            rows,
            Strategy::IdempotentWrite,
            Ok(candidates),
        ),
        cycle_outcome(rows, Strategy::CheckThenWrite, Ok(candidates)) is Persisted,
{
    let batch = select_new(candidates, ids_of(rows));
    lemma_upsert_adds_the_new(rows, candidates);
    lemma_upsert_keeps_unique(rows, candidates);
    lemma_insert_rows(rows, batch);
}

} // verus!
