//! Bookkeeping of a candidate-versus-baseline evaluation: which games are played
//! with which seed and on which side, and the running totals of what they produced.
//!
//! The games themselves, and the z-score that decides an early stop, are computed by
//! the caller; this module plans the chunks of games and keeps the tallies.

use vstd::prelude::*;
use vstd::arithmetic::div_mod::lemma_add_mod_noop_right;
use crate::game::Stats;

verus! {

/// The window test is applied once at least this many games have been played.
pub const WINDOW_MIN_GAMES: usize = 100;

/// Games are played in chunks of (at most) this many, and the window test is
/// applied after each chunk.
pub const WINDOW_CHECK_EVERY: usize = 25;

/// Why an evaluation stopped before its game budget was used up.
#[derive(Clone, Copy, PartialEq, Eq, Debug, Structural)]
pub enum EarlyStop {
    Worse,
    Better,
    Indecisive,
}

/// The label of an early stop in the epoch history.
pub fn early_stop_label(stop: EarlyStop) -> (res: &'static str)
    ensures
        stop == EarlyStop::Worse ==> res@ == "worse"@,
        stop == EarlyStop::Better ==> res@ == "better"@,
        stop == EarlyStop::Indecisive ==> res@ == "indecisive"@,
{
    match stop {
        EarlyStop::Worse => "worse",
        EarlyStop::Better => "better",
        EarlyStop::Indecisive => "indecisive",
    }
}

/// The suffix of an epoch line that tells how the evaluation ended
/// (empty when the whole game budget was played).
pub fn early_stop_suffix(stop: Option<EarlyStop>) -> (res: &'static str)
    ensures
        stop == Some(EarlyStop::Worse) ==> res@ == " [EARLY STOP: worse]"@,
        stop == Some(EarlyStop::Better) ==> res@ == " [EARLY STOP: better]"@,
        stop == Some(EarlyStop::Indecisive) ==> res@ == " [INDECISIVE: futile]"@,
        stop is None ==> res@ == ""@,
{
    match stop {
        Some(EarlyStop::Worse) => " [EARLY STOP: worse]",
        Some(EarlyStop::Better) => " [EARLY STOP: better]",
        Some(EarlyStop::Indecisive) => " [INDECISIVE: futile]",
        None => "",
    }
}

/// The short column tag of how an evaluation ended.
pub fn early_stop_tag(stop: Option<EarlyStop>) -> (res: &'static str)
    ensures
        stop == Some(EarlyStop::Worse) ==> res@ == "worse"@,
        stop == Some(EarlyStop::Better) ==> res@ == "better"@,
        stop == Some(EarlyStop::Indecisive) ==> res@ == "indecsv"@,
        stop is None ==> res@ == "full"@,
{
    match stop {
        Some(EarlyStop::Worse) => "worse",
        Some(EarlyStop::Better) => "better",
        Some(EarlyStop::Indecisive) => "indecsv",
        None => "full",
    }
}

/// One finished evaluation game, seen from the two contestants whatever side
/// each of them played on.
#[derive(Clone, Copy, Debug)]
pub struct GameOutcome {
    pub baseline_goals: u32,
    pub candidate_goals: u32,
    pub stats: Stats,
}

/// The counter number `k` (0 to 8) that an evaluation sums over its games:
/// baseline goals, candidate goals, passes, completed passes, shots, goals,
/// tackles, successful tackles, balls out of bounds.
pub open spec fn outcome_counter(o: GameOutcome, k: int) -> int {
    if k == 0 {
        o.baseline_goals as int
    } else if k == 1 {
        o.candidate_goals as int
    } else if k == 2 {
        o.stats.passes as int
    } else if k == 3 {
        o.stats.pass_completed as int
    } else if k == 4 {
        o.stats.shots as int
    } else if k == 5 {
        o.stats.goals as int
    } else if k == 6 {
        o.stats.tackles as int
    } else if k == 7 {
        o.stats.tackle_success as int
    } else {
        o.stats.out_of_bounds as int
    }
}

/// Sum of counter `k` over a sequence of games.
pub open spec fn counter_sum(s: Seq<GameOutcome>, k: int) -> int
    decreases s.len(),
{
    if s.len() == 0 {
        0
    } else {
        counter_sum(s.drop_last(), k) + outcome_counter(s.last(), k)
    }
}

/// Running sums of an evaluation.
#[derive(Clone, Copy, Debug)]
pub struct GameTotals {
    pub baseline_goals: u64,
    pub candidate_goals: u64,
    pub passes: u64,
    pub pass_completed: u64,
    pub shots: u64,
    pub goals: u64,
    pub tackles: u64,
    pub tackle_success: u64,
    pub out_of_bounds: u64,
}

impl GameTotals {
    /// Counter number `k` of the totals, numbered as in `outcome_counter`.
    pub open spec fn counter(self, k: int) -> int {
        if k == 0 {
            self.baseline_goals as int
        } else if k == 1 {
            self.candidate_goals as int
        } else if k == 2 {
            self.passes as int
        } else if k == 3 {
            self.pass_completed as int
        } else if k == 4 {
            self.shots as int
        } else if k == 5 {
            self.goals as int
        } else if k == 6 {
            self.tackles as int
        } else if k == 7 {
            self.tackle_success as int
        } else {
            self.out_of_bounds as int
        }
    }

    /// The totals are the sums over the games `s`.
    pub open spec fn sums_of(self, s: Seq<GameOutcome>) -> bool {
        forall|k: int| 0 <= k < 9 ==> #[trigger] self.counter(k) == counter_sum(s, k)
    }

    /// All totals at zero.
    pub fn new() -> (res: Self)
        ensures
            forall|k: int| 0 <= k < 9 ==> #[trigger] res.counter(k) == 0,
            res.sums_of(Seq::empty()),
    {
        GameTotals {
            baseline_goals: 0,
            candidate_goals: 0,
            passes: 0,
            pass_completed: 0,
            shots: 0,
            goals: 0,
            tackles: 0,
            tackle_success: 0,
            out_of_bounds: 0,
        }
    }

    /// Adds the counters of one game.
    pub fn add_game(&mut self, o: &GameOutcome)
        requires
            forall|k: int| 0 <= k < 9 ==> #[trigger] old(self).counter(k) + outcome_counter(*o, k) <= u64::MAX,
        ensures
            forall|k: int| 0 <= k < 9 ==> #[trigger] final(self).counter(k) == old(self).counter(k) + outcome_counter(*o, k),
            final(self).baseline_goals == old(self).baseline_goals + o.baseline_goals,
            final(self).candidate_goals == old(self).candidate_goals + o.candidate_goals,
            final(self).passes == old(self).passes + o.stats.passes,
            final(self).pass_completed == old(self).pass_completed + o.stats.pass_completed,
            final(self).shots == old(self).shots + o.stats.shots,
            final(self).goals == old(self).goals + o.stats.goals,
            final(self).tackles == old(self).tackles + o.stats.tackles,
            final(self).tackle_success == old(self).tackle_success + o.stats.tackle_success,
            final(self).out_of_bounds == old(self).out_of_bounds + o.stats.out_of_bounds,
    {
        assert(old(self).counter(0) + outcome_counter(*o, 0) <= u64::MAX);
        assert(old(self).counter(1) + outcome_counter(*o, 1) <= u64::MAX);
        assert(old(self).counter(2) + outcome_counter(*o, 2) <= u64::MAX);
        assert(old(self).counter(3) + outcome_counter(*o, 3) <= u64::MAX);
        assert(old(self).counter(4) + outcome_counter(*o, 4) <= u64::MAX);
        assert(old(self).counter(5) + outcome_counter(*o, 5) <= u64::MAX);
        assert(old(self).counter(6) + outcome_counter(*o, 6) <= u64::MAX);
        assert(old(self).counter(7) + outcome_counter(*o, 7) <= u64::MAX);
        assert(old(self).counter(8) + outcome_counter(*o, 8) <= u64::MAX);
        self.baseline_goals = self.baseline_goals + o.baseline_goals as u64;
        self.candidate_goals = self.candidate_goals + o.candidate_goals as u64;
        self.passes = self.passes + o.stats.passes as u64;
        self.pass_completed = self.pass_completed + o.stats.pass_completed as u64;
        self.shots = self.shots + o.stats.shots as u64;
        self.goals = self.goals + o.stats.goals as u64;
        self.tackles = self.tackles + o.stats.tackles as u64;
        self.tackle_success = self.tackle_success + o.stats.tackle_success as u64;
        self.out_of_bounds = self.out_of_bounds + o.stats.out_of_bounds as u64;
    }

    /// The candidate is accepted when it scored more goals in total than the baseline.
    pub fn candidate_won(&self) -> (res: bool)
        ensures
            res == (self.candidate_goals > self.baseline_goals),
    {
        self.candidate_goals > self.baseline_goals
    }
}

/// Seed of game number `k` of an evaluation whose first game got `first`:
/// consecutive games take consecutive seeds, wrapping around at `u64::MAX`.
pub open spec fn game_seed(first: u64, k: int) -> u64 {
    ((first + k) % 0x1_0000_0000_0000_0000) as u64
}

/// Whether game number `k` of an evaluation is played with the candidate on the left
/// (every odd game), so that half the games are played from each side.
pub open spec fn game_swapped(k: int) -> bool {
    k % 2 == 1
}

/// Number of games in the chunk that starts after `games_run` of `max_games`.
pub open spec fn chunk_len(games_run: int, max_games: int) -> int {
    if max_games - games_run < WINDOW_CHECK_EVERY {
        max_games - games_run
    } else {
        WINDOW_CHECK_EVERY as int
    }
}

/// Number of games among the first `n` of an evaluation that are played with the
/// candidate on the left.
pub open spec fn swapped_games(n: nat) -> nat
    decreases n,
{
    if n == 0 {
        0
    } else {
        swapped_games((n - 1) as nat) + if game_swapped(n - 1) { 1nat } else { 0nat }
    }
}

/// Side balance: of the first `n` games of an evaluation, `n / 2` are played with
/// the candidate on the left and the others with the candidate on the right, so
/// neither side of the pitch is favoured.
pub proof fn lemma_sides_balanced(n: nat)
    ensures
        swapped_games(n) == n / 2,
    decreases n,
{
    if n > 0 {
        lemma_sides_balanced((n - 1) as nat);
    }
}

/// Distinct seeds: within one evaluation (of fewer than 2^64 games) no two games
/// share a seed.
pub proof fn lemma_seeds_distinct(first: u64, a: int, b: int)
    requires
        0 <= a < b < 0x1_0000_0000_0000_0000,
    ensures
        game_seed(first, a) != game_seed(first, b),
{
    let m: int = 0x1_0000_0000_0000_0000;
    let x: int = first + a;
    let y: int = first + b;
    assert(0 <= x % m < m);
    assert(0 <= y % m < m);
    if x % m == y % m {
        assert(x == m * (x / m) + x % m);
        assert(y == m * (y / m) + y % m);
        assert(0 < y - x < m);
        assert(y - x == m * (y / m - x / m)) by (nonlinear_arith)
            requires
                x == m * (x / m) + x % m,
                y == m * (y / m) + y % m,
                x % m == y % m;
        assert(false) by (nonlinear_arith)
            requires
                0 < y - x < m,
                y - x == m * (y / m - x / m),
                m > 0;
    }
}

proof fn lemma_counter_bound(o: GameOutcome, k: int)
    ensures
        0 <= outcome_counter(o, k) <= u32::MAX,
{
}

proof fn lemma_counter_sum_bound(s: Seq<GameOutcome>, k: int)
    ensures
        0 <= counter_sum(s, k) <= s.len() * u32::MAX,
    decreases s.len(),
{
    if s.len() > 0 {
        lemma_counter_sum_bound(s.drop_last(), k);
        lemma_counter_bound(s.last(), k);
    }
}

proof fn lemma_counter_sum_push(s: Seq<GameOutcome>, o: GameOutcome, k: int)
    ensures
        counter_sum(s.push(o), k) == counter_sum(s, k) + outcome_counter(o, k),
{
    assert(s.push(o).drop_last() =~= s);
}

proof fn lemma_seed_step(first: u64, k: int, i: int)
    requires
        0 <= k,
        0 <= i,
    ensures
        ((game_seed(first, k) + i) % 0x1_0000_0000_0000_0000) as u64 == game_seed(first, k + i),
{
    lemma_add_mod_noop_right(i, first + k, 0x1_0000_0000_0000_0000);
    assert((first + k) % 0x1_0000_0000_0000_0000 == game_seed(first, k) as int);
    assert(i + (first + k) == first + (k + i));
    assert(i + game_seed(first, k) == game_seed(first, k) + i);
}

/// Draws a seed with `rand::random::<u64>()`, the thread-local generator of the
/// `rand` crate. Any `u64` can come back, so nothing is stated of the result.
#[verifier::external_body]
fn random_u64() -> u64 {
    rand::random::<u64>()
}

/// The state of one evaluation between two chunks of games.
pub struct EvalRun {
    /// The game budget.
    pub max_games: usize,
    /// Games played so far.
    pub games_run: usize,
    /// Seed of the first game.
    pub first_seed: u64,
    /// Seed of the next game to be played.
    pub next_seed: u64,
    /// Sums over the games played so far.
    pub totals: GameTotals,
    /// Candidate goals minus baseline goals, game by game.
    pub diffs: Vec<i64>,
    /// The games played so far, in order.
    pub outcomes: Ghost<Seq<GameOutcome>>,
}

impl EvalRun {
    /// Well-formedness: the tallies are exactly those of the games recorded, and the
    /// games were played chunk by chunk from the first seed on.
    pub open spec fn wf(&self) -> bool {
        &&& self.games_run <= self.max_games <= u32::MAX
        &&& (self.games_run % WINDOW_CHECK_EVERY == 0 || self.games_run == self.max_games)
        &&& self.next_seed == game_seed(self.first_seed, self.games_run as int)
        &&& self.outcomes@.len() == self.games_run
        &&& self.totals.sums_of(self.outcomes@)
        &&& self.diffs@.len() == self.games_run
        &&& forall|i: int| 0 <= i < self.games_run ==> #[trigger] self.diffs@[i]
            == self.outcomes@[i].candidate_goals - self.outcomes@[i].baseline_goals
    }

    /// A fresh evaluation of `max_games` games whose first game gets seed `first_seed`.
    pub fn start_with_seed(max_games: usize, first_seed: u64) -> (res: Self)
        requires
            max_games <= u32::MAX,
        ensures
            res.wf(),
            res.max_games == max_games,
            res.games_run == 0,
            res.first_seed == first_seed,
            res.outcomes@ == Seq::<GameOutcome>::empty(),
    {
        let totals = GameTotals::new();
        let res = EvalRun {
            max_games,
            games_run: 0,
            first_seed,
            next_seed: first_seed,
            totals,
            diffs: Vec::new(),
            outcomes: Ghost(Seq::empty()),
        };
        assert(first_seed as int % 0x1_0000_0000_0000_0000 == first_seed as int);
        res
    }

    /// A fresh evaluation of `max_games` games whose first seed is drawn at random.
    pub fn start(max_games: usize) -> (res: Self)
        requires
            max_games <= u32::MAX,
        ensures
            res.wf(),
            res.max_games == max_games,
            res.games_run == 0,
            res.outcomes@ == Seq::<GameOutcome>::empty(),
    {
        let seed = random_u64();
        Self::start_with_seed(max_games, seed)
    }

    /// Whether the game budget is used up.
    pub fn is_done(&self) -> (res: bool)
        requires
            self.wf(),
        ensures
            res == (self.games_run >= self.max_games),
    {
        self.games_run >= self.max_games
    }

    /// Whether enough games were played for the window test.
    pub fn window_ready(&self) -> (res: bool)
        ensures
            res == (self.games_run >= WINDOW_MIN_GAMES),
    {
        self.games_run >= WINDOW_MIN_GAMES
    }

    /// The next chunk of games: for each, its seed and whether the candidate plays
    /// on the left.
    pub fn next_chunk(&self) -> (res: Vec<(u64, bool)>)
        requires
            self.wf(),
            self.games_run < self.max_games,
        ensures
            res.len() == chunk_len(self.games_run as int, self.max_games as int),
            forall|i: int| 0 <= i < res.len() ==> #[trigger] res@[i] == (
                game_seed(self.first_seed, self.games_run + i),
                game_swapped(self.games_run + i),
            ),
    {
        let remaining = self.max_games - self.games_run;
        let size = if remaining < WINDOW_CHECK_EVERY { remaining } else { WINDOW_CHECK_EVERY };
        let mut res: Vec<(u64, bool)> = Vec::new();
        let mut i: usize = 0;
        while i < size
            invariant
                self.wf(),
                self.games_run < self.max_games,
                size == chunk_len(self.games_run as int, self.max_games as int),
                i <= size,
                res.len() == i,
                forall|j: int| 0 <= j < i ==> #[trigger] res@[j] == (
                    game_seed(self.first_seed, self.games_run + j),
                    game_swapped(self.games_run + j),
                ),
            decreases size - i,
        {
            let seed = self.next_seed.wrapping_add(i as u64);
            proof {
                lemma_seed_step(self.first_seed, self.games_run as int, i as int);
            }
            let swap = (self.games_run + i) % 2 == 1;
            res.push((seed, swap));
            i = i + 1;
        }
        res
    }

    /// Records the games of the chunk that `next_chunk` planned, in the same order.
    pub fn record_chunk(&mut self, results: &Vec<GameOutcome>)
        requires
            old(self).wf(),
            old(self).games_run < old(self).max_games,
            results.len() == chunk_len(old(self).games_run as int, old(self).max_games as int),
        ensures
            final(self).wf(),
            final(self).max_games == old(self).max_games,
            final(self).first_seed == old(self).first_seed,
            final(self).games_run == old(self).games_run + results.len(),
            final(self).outcomes@ == old(self).outcomes@ + results@,
    {
        let ghost start = self.outcomes@;
        let mut j: usize = 0;
        while j < results.len()
            invariant
                j <= results.len(),
                results.len() == chunk_len(old(self).games_run as int, old(self).max_games as int),
                self.max_games == old(self).max_games <= u32::MAX,
                self.first_seed == old(self).first_seed,
                self.games_run == old(self).games_run < self.max_games,
                self.next_seed == old(self).next_seed,
                start == old(self).outcomes@,
                start.len() == self.games_run,
                self.outcomes@ == start + results@.subrange(0, j as int),
                self.totals.sums_of(self.outcomes@),
                self.diffs@.len() == self.games_run + j,
                forall|i: int| 0 <= i < self.games_run + j ==> #[trigger] self.diffs@[i]
                    == self.outcomes@[i].candidate_goals - self.outcomes@[i].baseline_goals,
            decreases results.len() - j,
        {
            let o = results[j];
            let ghost before = self.outcomes@;
            proof {
                assert forall|k: int| 0 <= k < 9 implies #[trigger] self.totals.counter(k)
                    + outcome_counter(o, k) <= u64::MAX by {
                    lemma_counter_sum_bound(before, k);
                    lemma_counter_bound(o, k);
                    assert(before.len() + 1 <= u32::MAX);
                    assert(before.len() * u32::MAX + u32::MAX <= u32::MAX * u32::MAX)
                        by (nonlinear_arith)
                        requires before.len() + 1 <= u32::MAX;
                }
            }
            self.totals.add_game(&o);
            let d: i64 = o.candidate_goals as i64 - o.baseline_goals as i64;
            self.diffs.push(d);
            proof {
                self.outcomes@ = before.push(o);
                assert(results@.subrange(0, j + 1) =~= results@.subrange(0, j as int).push(o));
                assert forall|k: int| 0 <= k < 9 implies #[trigger] self.totals.counter(k)
                    == counter_sum(self.outcomes@, k) by {
                    lemma_counter_sum_push(before, o, k);
                }
            }
            j = j + 1;
        }
        proof {
            assert(results@.subrange(0, j as int) =~= results@);
        }
        let n = results.len();
        let ghost old_run = self.games_run as int;
        self.games_run = self.games_run + n;
        self.next_seed = self.next_seed.wrapping_add(n as u64);
        proof {
            lemma_seed_step(self.first_seed, old_run, n as int);
        }
    }
}

/// Sum of the per-game goal differences.
pub open spec fn diff_sum(d: Seq<i64>) -> int
    decreases d.len(),
{
    if d.len() == 0 {
        0
    } else {
        diff_sum(d.drop_last()) + d.last()
    }
}

proof fn lemma_diff_sum(d: Seq<i64>, o: Seq<GameOutcome>)
    requires
        d.len() == o.len(),
        forall|i: int| 0 <= i < d.len() ==> #[trigger] d[i] == o[i].candidate_goals - o[i].baseline_goals,
    ensures
        diff_sum(d) == counter_sum(o, 1) - counter_sum(o, 0),
    decreases d.len(),
{
    if d.len() > 0 {
        let d1 = d.drop_last();
        let o1 = o.drop_last();
        assert forall|i: int| 0 <= i < d1.len() implies #[trigger] d1[i] == o1[i].candidate_goals - o1[i].baseline_goals by {
            assert(d1[i] == d[i] && o1[i] == o[i]);
        }
        lemma_diff_sum(d1, o1);
        assert(d.last() == d[d.len() - 1]);
    }
}

/// The verdict agrees with the goal differences: at any point of an evaluation, the
/// candidate leads on total goals exactly when the per-game differences (the series
/// the z-score is computed from) sum to more than zero, and the totals differ by
/// exactly that sum.
pub proof fn lemma_verdict_matches_diffs(run: EvalRun)
    requires
        run.wf(),
    ensures
        run.totals.candidate_goals - run.totals.baseline_goals == diff_sum(run.diffs@),
        (run.totals.candidate_goals > run.totals.baseline_goals) <==> diff_sum(run.diffs@) > 0,
{
    lemma_diff_sum(run.diffs@, run.outcomes@);
    assert(run.totals.counter(0) == counter_sum(run.outcomes@, 0));
    assert(run.totals.counter(1) == counter_sum(run.outcomes@, 1));
}

/// Counter law: counter `k` of the totals and counter `k` of a game name the same
/// quantity (baseline goals, candidate goals, passes, completed passes, shots, goals,
/// tackles, successful tackles, balls out, in that order), so sums over games add each
/// game's statistic to the total of the same name.
pub proof fn lemma_counters_match_fields(t: GameTotals, o: GameOutcome)
    ensures
        t.counter(0) == t.baseline_goals && outcome_counter(o, 0) == o.baseline_goals,
        t.counter(1) == t.candidate_goals && outcome_counter(o, 1) == o.candidate_goals,
        t.counter(2) == t.passes && outcome_counter(o, 2) == o.stats.passes,
        t.counter(3) == t.pass_completed && outcome_counter(o, 3) == o.stats.pass_completed,
        t.counter(4) == t.shots && outcome_counter(o, 4) == o.stats.shots,
        t.counter(5) == t.goals && outcome_counter(o, 5) == o.stats.goals,
        t.counter(6) == t.tackles && outcome_counter(o, 6) == o.stats.tackles,
        t.counter(7) == t.tackle_success && outcome_counter(o, 7) == o.stats.tackle_success,
        t.counter(8) == t.out_of_bounds && outcome_counter(o, 8) == o.stats.out_of_bounds,
{
}

} // verus!
