//! The figures of a training session's summary that come from its epoch history:
//! which epochs were accepted, how many were rejected, and the time spent.

use vstd::prelude::*;

verus! {

/// What the summary needs of one epoch.
#[derive(Clone, Copy, Debug)]
pub struct EpochRecord {
    pub epoch: usize,
    pub accepted: bool,
    pub elapsed_ms: u128,
}

/// The epochs whose candidate was accepted, in history order.
pub open spec fn accepted_epochs_of(s: Seq<EpochRecord>) -> Seq<usize>
    decreases s.len(),
{
    if s.len() == 0 {
        Seq::empty()
    } else if s.last().accepted {
        accepted_epochs_of(s.drop_last()).push(s.last().epoch)
    } else {
        accepted_epochs_of(s.drop_last())
    }
}

/// Time spent on all the epochs of `s`.
pub open spec fn total_ms_of(s: Seq<EpochRecord>) -> int
    decreases s.len(),
{
    if s.len() == 0 {
        0
    } else {
        total_ms_of(s.drop_last()) + s.last().elapsed_ms
    }
}

/// Figures of a session summary.
#[derive(Debug)]
pub struct HistoryDigest {
    pub accepted_epochs: Vec<usize>,
    pub accepted_count: usize,
    pub rejected_count: usize,
    pub total_ms: u128,
    /// Mean time per epoch, rounded down; 0 for an empty history.
    pub average_ms: u128,
}

/// The summary figures of an epoch history.
pub fn digest_history(history: &Vec<EpochRecord>) -> (res: HistoryDigest)
    requires
        total_ms_of(history@) <= u128::MAX,
    ensures
        res.accepted_epochs@ == accepted_epochs_of(history@),
        res.accepted_count == accepted_epochs_of(history@).len(),
        res.accepted_count + res.rejected_count == history@.len(),
        res.total_ms == total_ms_of(history@),
        history@.len() == 0 ==> res.average_ms == 0,
        history@.len() > 0 ==> res.average_ms == total_ms_of(history@) / (history@.len() as int),
{
    let n = history.len();
    let mut accepted_epochs: Vec<usize> = Vec::new();
    let mut rejected: usize = 0;
    let mut total: u128 = 0;
    let mut i: usize = 0;
    while i < n
        invariant
            n == history@.len(),
            i <= n,
            total_ms_of(history@) <= u128::MAX,
            accepted_epochs@ == accepted_epochs_of(history@.take(i as int)),
            accepted_epochs@.len() + rejected == i,
            total == total_ms_of(history@.take(i as int)),
        decreases n - i,
    {
        let r = history[i];
        proof {
            assert(history@.take(i + 1).drop_last() =~= history@.take(i as int));
            lemma_total_prefix(history@, i + 1);
        }
        if r.accepted {
            accepted_epochs.push(r.epoch);
        } else {
            rejected = rejected + 1;
        }
        total = total + r.elapsed_ms;
        i = i + 1;
    }
    proof {
        assert(history@.take(n as int) =~= history@);
    }
    let average_ms: u128 = if n > 0 { total / (n as u128) } else { 0 };
    HistoryDigest {
        accepted_count: accepted_epochs.len(),
        accepted_epochs,
        rejected_count: rejected,
        total_ms: total,
        average_ms,
    }
}

proof fn lemma_total_prefix(s: Seq<EpochRecord>, k: int)
    requires
        0 <= k <= s.len(),
    ensures
        total_ms_of(s.take(k)) <= total_ms_of(s),
    decreases s.len() - k,
{
    if k < s.len() {
        lemma_total_prefix(s, k + 1);
        assert(s.take(k + 1).drop_last() =~= s.take(k));
    } else {
        assert(s.take(k) =~= s);
    }
}

/// Games played over a session's epochs: each epoch's own count where the history
/// records one, else the session's games per epoch.
pub open spec fn games_played(games_per_epoch: u64, runs: Seq<Option<u64>>) -> int
    decreases runs.len(),
{
    if runs.len() == 0 {
        0
    } else {
        games_played(games_per_epoch, runs.drop_last()) + match runs.last() {
            Some(g) => g as int,
            None => games_per_epoch as int,
        }
    }
}

proof fn lemma_games_prefix(games_per_epoch: u64, runs: Seq<Option<u64>>, k: int)
    requires
        0 <= k <= runs.len(),
    ensures
        games_played(games_per_epoch, runs.take(k)) <= games_played(games_per_epoch, runs),
    decreases runs.len() - k,
{
    if k < runs.len() {
        lemma_games_prefix(games_per_epoch, runs, k + 1);
        assert(runs.take(k + 1).drop_last() =~= runs.take(k));
    } else {
        assert(runs.take(k) =~= runs);
    }
}

/// The number of games a session's history accounts for.
pub fn session_games(games_per_epoch: u64, runs: &Vec<Option<u64>>) -> (res: u64)
    requires
        games_played(games_per_epoch, runs@) <= u64::MAX,
    ensures
        res == games_played(games_per_epoch, runs@),
{
    let mut total: u64 = 0;
    let mut i: usize = 0;
    while i < runs.len()
        invariant
            i <= runs@.len(),
            games_played(games_per_epoch, runs@) <= u64::MAX,
            total == games_played(games_per_epoch, runs@.take(i as int)),
        decreases runs@.len() - i,
    {
        proof {
            assert(runs@.take(i + 1).drop_last() =~= runs@.take(i as int));
            lemma_games_prefix(games_per_epoch, runs@, i + 1);
        }
        let g = match runs[i] {
            Some(g) => g,
            None => games_per_epoch,
        };
        total = total + g;
        i = i + 1;
    }
    proof {
        assert(runs@.take(i as int) =~= runs@);
    }
    total
}

} // verus!
