use training_engine::matrix::MatrixCell;
use training_engine::registry::SlotRegistry;
use training_engine::tournament::{
    best_and_worst_opponent, match_points, rank_teams, round_robin_pairs, score_result, PointsTable, ScoreTally,
    Standings,
};

#[test]
fn round_robin_of_four_teams() {
    assert_eq!(round_robin_pairs(4), vec![(0, 1), (0, 2), (0, 3), (1, 2), (1, 3), (2, 3)]);
    assert_eq!(round_robin_pairs(1), Vec::<(usize, usize)>::new());
    assert_eq!(round_robin_pairs(10).len(), 45);
}

#[test]
fn standings_count_both_sides() {
    let mut s = Standings::new(3);
    s.record(0, 1, 2, 1, 0);
    s.record(2, 0, 1, 0, 1);
    assert_eq!(s.wins, vec![3, 0, 1]);
    assert_eq!(s.draws, vec![1, 1, 0]);
    assert_eq!(s.losses, vec![1, 2, 1]);
    assert_eq!(s.points(0), 10);
    assert_eq!(s.points(1), 1);
    assert_eq!(s.points(2), 3);
    assert_eq!(s.wins.iter().sum::<u64>(), s.losses.iter().sum::<u64>());
}

#[test]
fn series_points() {
    assert_eq!(match_points(5, 2), (3, 0));
    assert_eq!(match_points(2, 2), (1, 1));
    assert_eq!(match_points(0, 1), (0, 3));
    for (a, b) in [(0, 0), (3, 1), (1, 4)] {
        let (x, y) = match_points(a, b);
        assert_eq!(match_points(b, a), (y, x));
    }
}

#[test]
fn ranking_by_points_then_goal_difference() {
    assert_eq!(rank_teams(&vec![3, 7, 7, 1], &vec![0, -2, 5, 9]), vec![2, 1, 0, 3]);
    assert_eq!(rank_teams(&vec![4, 4], &vec![1, 1]), vec![0, 1]);
    assert_eq!(rank_teams(&Vec::new(), &Vec::new()), Vec::<usize>::new());
}

#[test]
fn best_and_worst_opponents() {
    assert_eq!(best_and_worst_opponent(&vec![0, 3, 6, 6, 1], 0), (3, 4));
    assert_eq!(best_and_worst_opponent(&vec![5, 2, 2, 9], 3), (0, 1));
    assert_eq!(best_and_worst_opponent(&vec![7, 0], 1), (0, 0));
}

#[test]
fn score_letters() {
    assert_eq!(score_result(3, 1), "W");
    assert_eq!(score_result(0, 2), "L");
    assert_eq!(score_result(1, 1), "D");
}

#[test]
fn score_tally_counts_and_sorts() {
    let mut t = ScoreTally::new();
    for (a, b) in [(1, 0), (2, 2), (1, 0), (0, 3), (1, 0), (2, 2)] {
        t.record(a, b);
    }
    assert_eq!(t.entries, vec![(1, 0, 3), (2, 2, 2), (0, 3, 1)]);
    assert_eq!(t.by_frequency(), vec![(1, 0, 3), (2, 2, 2), (0, 3, 1)]);
    assert_eq!(t.entries.iter().map(|e| e.2).sum::<u32>(), 6);
    let mut u = ScoreTally::new();
    u.record(0, 0);
    u.record(4, 1);
    u.record(4, 1);
    let sorted = u.by_frequency();
    assert_eq!(sorted, vec![(4, 1, 2), (0, 0, 1)]);
}

#[test]
fn matrix_cell_records_results() {
    let mut c = MatrixCell::default();
    c.record_game(2, 1);
    c.record_game(0, 0);
    c.record_game(1, 3);
    assert_eq!((c.team0_wins, c.team1_wins, c.draws, c.games), (1, 1, 1, 3));
    assert_eq!((c.team0_goals, c.team1_goals), (3, 4));
}

#[test]
fn registry_reuses_freed_slots() {
    let mut r: SlotRegistry<&str> = SlotRegistry::new();
    assert_eq!(r.insert("a"), 0);
    assert_eq!(r.insert("b"), 1);
    r.remove(0);
    assert_eq!(r.get(0), None);
    assert_eq!(r.insert("c"), 0);
    assert_eq!(r.get(0), Some(&"c"));
    assert_eq!(r.get(1), Some(&"b"));
    assert_eq!(r.get(5), None);
    r.remove(9);
    assert_eq!(r.take(1), Some("b"));
    assert_eq!(r.get(1), None);
    assert_eq!(r.insert("d"), 1);
    r.put(1, "e");
    assert_eq!(r.get(1), Some(&"e"));
}

#[test]
fn points_table_rows_add_up_to_league_points() {
    let mut t = PointsTable::new(3);
    t.record(0, 1, 2, 1, 0);
    t.record(2, 0, 1, 0, 1);
    t.record(1, 2, 0, 4, 0);
    assert_eq!(t.points, vec![vec![0, 7, 3], vec![1, 0, 4], vec![3, 4, 0]]);
    for i in 0..3 {
        assert_eq!(t.row_total(i), t.standings.points(i));
    }
    assert_eq!(t.row_total(0), 10);
    assert_eq!(t.row_total(1), 5);
    assert_eq!(t.row_total(2), 7);
}

#[test]
fn removed_handle_is_reused_first() {
    let mut r: SlotRegistry<u32> = SlotRegistry::new();
    for k in 0..4 {
        assert_eq!(r.insert(k), k as usize);
    }
    r.remove(2);
    assert_eq!(r.insert(9), 2);
    r.remove(3);
    r.remove(1);
    assert_eq!(r.insert(7), 1);
    assert_eq!(r.insert(8), 3);
    assert_eq!(r.insert(6), 4);
}
