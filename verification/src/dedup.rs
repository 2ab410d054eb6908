//! The dedup gate: which candidates of a batch go to the store.

use vstd::prelude::*;
use crate::item::{Shareable, ShareableView};

verus! {

/// How a deployment keeps known items out of the store.
#[derive(Clone, Copy, Debug, PartialEq, Eq, Structural)]
pub enum Strategy {
    /// Compare each candidate with a snapshot of the known identifiers, then
    /// insert what is left.
    CheckThenWrite,
    /// Hand every candidate to the store, which skips what it already holds.
    IdempotentWrite,
}

/// A candidate is new when the snapshot does not hold its identifier.
pub open spec fn is_new(known: Seq<Seq<char>>, item: ShareableView) -> bool {
    !known.contains(item.id)
}

/// The candidates that the snapshot does not know, in their order.
pub open spec fn select_new(candidates: Seq<ShareableView>, known: Seq<Seq<char>>) -> Seq<
    ShareableView,
> {
    candidates.filter(|c: ShareableView| is_new(known, c))
}

/// The batch that goes to the store under `strategy`.
pub open spec fn write_batch(
    strategy: Strategy,
    candidates: Seq<ShareableView>,
    known: Seq<Seq<char>>,
) -> Seq<ShareableView> {
    match strategy {
        Strategy::CheckThenWrite => select_new(candidates, known),
        Strategy::IdempotentWrite => candidates,
    }
}

/// Whether the snapshot `known` holds `id`.
pub fn is_known(known: &Vec<String>, id: &String) -> (r: bool)
    ensures
        r == known.deep_view().contains(id@),
{
    let mut i: usize = 0;
    while i < known.len()
        invariant
            i <= known.len(),
            forall|j: int| 0 <= j < i ==> known.deep_view()[j] != id@,
        decreases known.len() - i,
    {
        if known[i] == *id {
            assert(known.deep_view()[i as int] == id@);
            return true;
        }
        i += 1;
    }
    false
}

/// Keeps the candidates whose identifier the snapshot does not hold.
pub fn keep_new(candidates: Vec<Shareable>, known: &Vec<String>) -> (batch: Vec<Shareable>)
    ensures
        batch.deep_view() == select_new(candidates.deep_view(), known.deep_view()),
{
    let mut batch: Vec<Shareable> = Vec::new();
    let ghost all = candidates.deep_view();
    let ghost pred = |c: ShareableView| is_new(known.deep_view(), c);
    assert(all.take(0) =~= Seq::empty());
    assert(all.take(0).filter(pred) =~= Seq::empty()) by {
        reveal(Seq::filter);
    }
    for candidate in it: candidates
        invariant
            it.seq() == candidates@,
            all == candidates.deep_view(),
            pred == (|c: ShareableView| is_new(known.deep_view(), c)),
            batch.deep_view() == all.take(it.index()).filter(pred),
    {
        let ghost before = batch.deep_view();
        proof {
            let i = it.index();
            assert(all[i] == candidate@);
            assert(all.take(i + 1) =~= all.take(i).push(candidate@));
            all.take(i).lemma_filter_push(candidate@, pred);
        }
        if !is_known(known, &candidate.id) {
            batch.push(candidate);
            assert(batch.deep_view() =~= before.push(candidate@));
        }
    }
    assert(all.take(all.len() as int) =~= all);
    batch
}

/// Runs the dedup gate: the batch that goes to the store under `strategy`.
pub fn gate(strategy: Strategy, candidates: Vec<Shareable>, known: &Vec<String>) -> (batch: Vec<
    Shareable,
>)
    ensures
        batch.deep_view() == write_batch(strategy, candidates.deep_view(), known.deep_view()),
{
    match strategy {
        Strategy::CheckThenWrite => keep_new(candidates, known),
        Strategy::IdempotentWrite => candidates,
    }
}

/// The dedup gate adds nothing: every item of the batch is one of the candidates,
/// and under check-then-write none of them is known.
pub proof fn lemma_batch_from_candidates(
    strategy: Strategy,
    candidates: Seq<ShareableView>,
    known: Seq<Seq<char>>,
    x: ShareableView,
)
    requires
        write_batch(strategy, candidates, known).contains(x),
    ensures
        candidates.contains(x),
        strategy == Strategy::CheckThenWrite ==> !known.contains(x.id),
{
    if strategy == Strategy::CheckThenWrite {
        let pred = |c: ShareableView| is_new(known, c);
        candidates.lemma_filter_contains_rev(pred, x);
        let k = choose|k: int|
            0 <= k < candidates.filter(pred).len() && candidates.filter(pred)[k] == x;
        candidates.lemma_filter_pred(pred, k);
    }
}

/// The dedup gate lets every new candidate through.
pub proof fn lemma_new_candidates_pass(
    strategy: Strategy,
    candidates: Seq<ShareableView>,
    known: Seq<Seq<char>>,
    i: int,
)
    requires
        0 <= i < candidates.len(),
        !known.contains(candidates[i].id),
    ensures
        write_batch(strategy, candidates, known).contains(candidates[i]),
{
    if strategy == Strategy::CheckThenWrite {
        let pred = |c: ShareableView| is_new(known, c);
        candidates.lemma_filter_contains(pred, i);
    }
}

/// An empty batch of candidates gives an empty batch to write.
pub proof fn lemma_empty_batch(strategy: Strategy, known: Seq<Seq<char>>)
    ensures
        write_batch(strategy, Seq::<ShareableView>::empty(), known).len() == 0,
{
    reveal(Seq::filter);
}

} // verus!
