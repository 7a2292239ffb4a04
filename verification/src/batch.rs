//! Per-item outcomes of a batch run and their summary.
//!
//! Every input path is processed independently: a failure to decode or to
//! save one image never aborts the others. The caller that runs the items
//! records one [`ItemOutcome`] each and asks [`tally`] for the final
//! report of how many items succeeded and how many failed.

use vstd::prelude::*;

verus! {

/// How processing one input path ended.
#[derive(PartialEq, Eq, Structural, Clone, Copy, Debug)]
pub enum ItemOutcome {
    /// The image was decoded, transformed and written to its forged name.
    Saved,
    /// The input could not be opened or decoded; nothing was written.
    DecodeFailed,
    /// The transformed image could not be written to the output directory.
    SaveFailed,
}

impl ItemOutcome {
    /// True exactly for an item that was converted and written.
    pub fn is_success(&self) -> (r: bool)
        ensures
            r == (*self == ItemOutcome::Saved),
    {
        match self {
            ItemOutcome::Saved => true,
            ItemOutcome::DecodeFailed => false,
            ItemOutcome::SaveFailed => false,
        }
    }
}

/// How many of the outcomes are successes.
pub open spec fn count_ok(s: Seq<ItemOutcome>) -> nat
    decreases s.len(),
{
    if s.len() == 0 {
        0
    } else {
        count_ok(s.drop_last()) + if s.last() == ItemOutcome::Saved {
            1nat
        } else {
            0nat
        }
    }
}

/// Sums a batch's outcomes into `(succeeded, failed)`.
///
/// Every outcome is counted exactly once: the two components always add
/// up to the number of items, successes first.
pub fn tally(outcomes: &Vec<ItemOutcome>) -> (r: (usize, usize))
    ensures
        r.0 == count_ok(outcomes@),
        r.1 == outcomes@.len() - count_ok(outcomes@),
        r.0 + r.1 == outcomes@.len(),
{
    proof {
        lemma_count_ok_bound(outcomes@);
    }
    let mut ok: usize = 0;
    let mut failed: usize = 0;
    let mut i: usize = 0;
    while i < outcomes.len()
        invariant
            0 <= i <= outcomes@.len(),
            ok == count_ok(outcomes@.take(i as int)),
            ok + failed == i,
        decreases outcomes@.len() - i,
    {
        proof {
            assert(outcomes@.take(i + 1).drop_last() =~= outcomes@.take(i as int));
            assert(outcomes@.take(i + 1).last() == outcomes@[i as int]);
            lemma_count_ok_bound(outcomes@.take(i + 1));
        }
        if outcomes[i].is_success() {
            ok = ok + 1;
        } else {
            failed = failed + 1;
        }
        i = i + 1;
    }
    proof {
        assert(outcomes@.take(outcomes@.len() as int) =~= outcomes@);
    }
    (ok, failed)
}

proof fn lemma_count_ok_bound(s: Seq<ItemOutcome>)
    ensures
        count_ok(s) <= s.len(),
    decreases s.len(),
{
    if s.len() > 0 {
        lemma_count_ok_bound(s.drop_last());
    }
}

} // verus!
