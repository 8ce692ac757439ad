use training_engine::game::Stats;
use training_engine::mutation::{pick_mutation_slots, slots_from_draws};
use training_engine::history::{digest_history, session_games, EpochRecord};
use training_engine::trainer::{
    early_stop_label, early_stop_suffix, early_stop_tag, EarlyStop, EvalRun, GameOutcome, GameTotals,
    WINDOW_CHECK_EVERY, WINDOW_MIN_GAMES,
};

fn outcome(b: u32, c: u32, passes: u32) -> GameOutcome {
    let mut stats = Stats::default();
    stats.passes = passes;
    stats.pass_completed = passes / 2;
    stats.shots = b + c;
    stats.goals = b + c;
    stats.tackles = 1;
    stats.out_of_bounds = 2;
    GameOutcome { baseline_goals: b, candidate_goals: c, stats }
}

#[test]
fn early_stop_texts() {
    assert_eq!(early_stop_label(EarlyStop::Worse), "worse");
    assert_eq!(early_stop_label(EarlyStop::Better), "better");
    assert_eq!(early_stop_label(EarlyStop::Indecisive), "indecisive");
    assert_eq!(early_stop_suffix(Some(EarlyStop::Worse)), " [EARLY STOP: worse]");
    assert_eq!(early_stop_suffix(Some(EarlyStop::Indecisive)), " [INDECISIVE: futile]");
    assert_eq!(early_stop_suffix(None), "");
    assert_eq!(early_stop_tag(Some(EarlyStop::Indecisive)), "indecsv");
    assert_eq!(early_stop_tag(None), "full");
}

#[test]
fn totals_add_up() {
    let mut t = GameTotals::new();
    t.add_game(&outcome(1, 2, 10));
    t.add_game(&outcome(3, 0, 4));
    assert_eq!((t.baseline_goals, t.candidate_goals), (4, 2));
    assert_eq!((t.passes, t.pass_completed, t.shots, t.goals), (14, 7, 6, 6));
    assert_eq!((t.tackles, t.tackle_success, t.out_of_bounds), (2, 0, 4));
    assert!(!t.candidate_won());
    t.add_game(&outcome(0, 3, 0));
    assert!(t.candidate_won());
}

#[test]
fn chunks_take_consecutive_seeds_and_alternate_sides() {
    let run = EvalRun::start_with_seed(60, u64::MAX - 1);
    let chunk = run.next_chunk();
    assert_eq!(chunk.len(), WINDOW_CHECK_EVERY);
    assert_eq!(chunk[0], (u64::MAX - 1, false));
    assert_eq!(chunk[1], (u64::MAX, true));
    assert_eq!(chunk[2], (0, false));
    assert_eq!(chunk[24], (22, false));
}

#[test]
fn evaluation_runs_in_chunks_to_the_budget() {
    let mut run = EvalRun::start_with_seed(60, 1000);
    let mut sizes = Vec::new();
    let mut seeds = Vec::new();
    while !run.is_done() {
        let chunk = run.next_chunk();
        sizes.push(chunk.len());
        seeds.extend(chunk.iter().map(|(s, _)| *s));
        let results: Vec<GameOutcome> = chunk
            .iter()
            .map(|(seed, swap)| if *swap { outcome(0, 1, 3) } else { outcome((*seed % 2) as u32, 0, 1) })
            .collect();
        run.record_chunk(&results);
    }
    assert_eq!(sizes, vec![25, 25, 10]);
    assert_eq!(run.games_run, 60);
    assert_eq!(run.next_seed, 1060);
    assert_eq!(run.diffs.len(), 60);
    assert_eq!(run.diffs[1], 1);
    assert_eq!(run.diffs[0], 0);
    assert_eq!(run.totals.candidate_goals, 30);
    assert_eq!(run.totals.baseline_goals, 0);
    assert_eq!(run.totals.passes, 30 * 3 + 30);
    assert!(run.totals.candidate_won());
    seeds.sort();
    seeds.dedup();
    assert_eq!(seeds.len(), 60);
    let diff_total: i64 = run.diffs.iter().sum();
    assert_eq!(diff_total, run.totals.candidate_goals as i64 - run.totals.baseline_goals as i64);
}

#[test]
fn window_opens_after_four_chunks() {
    let mut run = EvalRun::start(1000);
    let mut chunks = 0;
    while !run.window_ready() {
        let chunk = run.next_chunk();
        let results: Vec<GameOutcome> = chunk.iter().map(|_| outcome(1, 1, 0)).collect();
        run.record_chunk(&results);
        chunks += 1;
    }
    assert_eq!(chunks, 4);
    assert_eq!(run.games_run, WINDOW_MIN_GAMES);
    assert!(run.diffs.iter().all(|d| *d == 0));
}

#[test]
fn sides_are_balanced_over_a_run() {
    let mut run = EvalRun::start(75);
    let mut swapped = 0;
    while !run.is_done() {
        let chunk = run.next_chunk();
        swapped += chunk.iter().filter(|(_, s)| *s).count();
        let results: Vec<GameOutcome> = chunk.iter().map(|_| outcome(0, 0, 0)).collect();
        run.record_chunk(&results);
    }
    assert_eq!(swapped, 37);
}

#[test]
fn history_digest() {
    let h = vec![
        EpochRecord { epoch: 1, accepted: false, elapsed_ms: 100 },
        EpochRecord { epoch: 2, accepted: true, elapsed_ms: 250 },
        EpochRecord { epoch: 3, accepted: true, elapsed_ms: 51 },
    ];
    let d = digest_history(&h);
    assert_eq!(d.accepted_epochs, vec![2, 3]);
    assert_eq!((d.accepted_count, d.rejected_count), (2, 1));
    assert_eq!(d.total_ms, 401);
    assert_eq!(d.average_ms, 133);
    let e = digest_history(&Vec::new());
    assert_eq!((e.accepted_count, e.rejected_count, e.total_ms, e.average_ms), (0, 0, 0, 0));
}

#[test]
fn session_games_use_default_when_missing() {
    assert_eq!(session_games(1000, &vec![Some(100), None, Some(25)]), 1125);
    assert_eq!(session_games(7, &Vec::new()), 0);
}

#[test]
fn mutation_slots_from_draws() {
    assert_eq!(slots_from_draws(&vec![false, true, false, true, false], 0), vec![1, 3]);
    assert_eq!(slots_from_draws(&vec![false; 5], 2), vec![2]);
    assert_eq!(slots_from_draws(&vec![true; 5], 4), vec![0, 1, 2, 3, 4]);
}

#[test]
fn drawn_mutation_slots_are_never_empty() {
    for _ in 0..200 {
        let s = pick_mutation_slots();
        assert!(!s.is_empty());
        assert!(s.iter().all(|i| *i < 5));
        assert!(s.windows(2).all(|w| w[0] < w[1]));
    }
}
