use training_engine::clock::{ClockAction, MatchClock, GOAL_ANIM_FRAMES, SET_PIECE_FRAMES};
use training_engine::frame::{facing_label, hair_color, ViewerState, HUMAN_CELEBRATE_FRAMES};
use training_engine::game::{phase_str, role_str, state_str, Phase, PlayerState, PlayerStats, Role, Stats};
use training_engine::rules::{
    ball_out_restart, count_tackle, credit_goal, find_role_player, tackle_outcome, PlayerInfo,
    PlayerTimers, Restart, TackleOutcome, TimerOutcome,
};
use training_engine::spatial::{Corridor, FieldZone};

#[test]
fn client_names_of_enums() {
    assert_eq!(phase_str(Phase::Kickoff), "kickoff");
    assert_eq!(phase_str(Phase::Fulltime), "fulltime");
    assert_eq!(role_str(Role::Gk), "gk");
    assert_eq!(role_str(Role::Mid), "mid");
    assert_eq!(state_str(PlayerState::Knocked), "knocked");
}

#[test]
fn zone_and_corridor_indices() {
    assert_eq!(FieldZone::OwnPenaltyArea.index(), 0);
    assert_eq!(FieldZone::Midfield.index(), 2);
    assert_eq!(FieldZone::OppPenaltyArea.index(), 4);
    assert_eq!(Corridor::Top.index(), -1);
    assert_eq!(Corridor::Middle.index(), 0);
    assert_eq!(Corridor::Bottom.index(), 1);
}

#[test]
fn stats_start_at_zero() {
    let s = Stats::default();
    assert_eq!(s.passes + s.goals + s.tackles + s.penalties, 0);
    let p = PlayerStats::default();
    assert_eq!(p.goals + p.assists + p.fouls, 0);
}

#[test]
fn clock_first_tick_starts_play() {
    let mut c = MatchClock::new(100);
    assert_eq!(c.tick(false), ClockAction::Play);
    assert_eq!(c.phase, Phase::Playing);
    assert_eq!(c.timer, 99);
}

#[test]
fn clock_reaches_fulltime() {
    let mut c = MatchClock::new(3);
    assert_eq!(c.tick(false), ClockAction::Play);
    assert_eq!(c.tick(false), ClockAction::Play);
    assert_eq!(c.tick(false), ClockAction::Idle);
    assert_eq!(c.phase, Phase::Fulltime);
    assert_eq!(c.tick(false), ClockAction::Idle);
    assert_eq!(c.phase, Phase::Fulltime);
}

#[test]
fn goal_celebration_lasts_its_frames() {
    let mut c = MatchClock::new(1000);
    c.tick(false);
    c.goal(1);
    assert_eq!(c.phase, Phase::Goal);
    assert_eq!(c.goal_team, Some(1));
    for _ in 1..GOAL_ANIM_FRAMES {
        assert_eq!(c.tick(false), ClockAction::Idle);
    }
    assert_eq!(c.tick(false), ClockAction::ResetKickoff);
    assert_eq!(c.phase, Phase::Kickoff);
}

#[test]
fn start_penalty_sets_phase_and_penalty_team() {
    let mut c = MatchClock::new(1000);
    c.start_penalty(1, true);
    assert_eq!(c.phase, Phase::Penalty);
    assert_eq!(c.penalty_team, Some(1));
    assert!(!c.penalty_taken);
    assert_eq!(c.set_piece_timer, SET_PIECE_FRAMES);
}

#[test]
fn penalty_is_struck_after_the_hold() {
    let mut c = MatchClock::new(1000);
    c.start_penalty(0, true);
    let mut frames = 0;
    loop {
        frames += 1;
        match c.tick(true) {
            ClockAction::ShootPenalty { team } => {
                assert_eq!(team, 0);
                break;
            }
            other => assert_eq!(other, ClockAction::Idle),
        }
    }
    assert_eq!(frames, 55);
    assert!(c.penalty_taken);
    assert_eq!(c.phase, Phase::Playing);
}

#[test]
fn penalty_without_shooter_resumes_play() {
    let mut c = MatchClock::new(1000);
    c.start_penalty(0, true);
    assert_eq!(c.tick(false), ClockAction::Idle);
    assert_eq!(c.phase, Phase::Playing);
}

#[test]
fn set_piece_hold_counts_down() {
    let mut c = MatchClock::new(1000);
    c.start_set_piece(2);
    assert_eq!(c.tick(false), ClockAction::Play);
    assert_eq!(c.set_piece_timer, 1);
    c.tick(false);
    c.tick(false);
    assert_eq!(c.set_piece_timer, 0);
}

fn player(id: usize, team: usize, role: Role, state: PlayerState) -> PlayerInfo {
    PlayerInfo { id, team, role, state }
}

#[test]
fn role_player_falls_back_to_any_active_teammate() {
    let players = vec![
        player(0, 0, Role::Fwd, PlayerState::Active),
        player(1, 0, Role::Gk, PlayerState::Knocked),
        player(5, 1, Role::Gk, PlayerState::Active),
        player(6, 1, Role::Def, PlayerState::Active),
    ];
    assert_eq!(find_role_player(&players, 1, Role::Def), Some(6));
    assert_eq!(find_role_player(&players, 0, Role::Gk), Some(0));
    assert_eq!(find_role_player(&players, 2, Role::Gk), None);
}

#[test]
fn restarts_after_ball_out() {
    assert_eq!(ball_out_restart(true, true, Some(0)), Restart::KickIn { team: 1 });
    assert_eq!(ball_out_restart(true, false, Some(1)), Restart::KickIn { team: 0 });
    assert_eq!(ball_out_restart(true, false, None), Restart::KickIn { team: 0 });
    assert_eq!(ball_out_restart(false, true, Some(1)), Restart::GoalKick { team: 0 });
    assert_eq!(ball_out_restart(false, true, Some(0)), Restart::Corner { team: 1 });
    assert_eq!(ball_out_restart(false, false, Some(0)), Restart::GoalKick { team: 1 });
    assert_eq!(ball_out_restart(false, false, None), Restart::Corner { team: 0 });
}

#[test]
fn tackle_outcomes() {
    assert_eq!(tackle_outcome(false, true, false, true, false, false), TackleOutcome::NoTackle);
    assert_eq!(tackle_outcome(true, true, true, true, false, false), TackleOutcome::TacklerKnocked);
    assert_eq!(tackle_outcome(true, true, false, true, false, true), TackleOutcome::BallStolen);
    assert_eq!(tackle_outcome(true, true, false, false, false, true), TackleOutcome::Penalty);
    assert_eq!(tackle_outcome(true, true, false, false, true, true), TackleOutcome::FreeKick);
    assert_eq!(tackle_outcome(true, true, false, false, false, false), TackleOutcome::FreeKick);
}

#[test]
fn tackle_counting() {
    let mut stats = Stats::default();
    let mut tackler = PlayerStats::default();
    count_tackle(&mut stats, &mut tackler, TackleOutcome::BallStolen);
    assert_eq!((stats.tackles, stats.tackle_success, stats.fouls), (1, 1, 0));
    count_tackle(&mut stats, &mut tackler, TackleOutcome::Penalty);
    assert_eq!((stats.tackles, stats.tackle_success), (2, 1));
    assert_eq!((tackler.fouls, tackler.penalties_caused), (1, 1));
    count_tackle(&mut stats, &mut tackler, TackleOutcome::FreeKick);
    assert_eq!((stats.tackles, stats.tackle_success, stats.fouls), (3, 2, 1));
    assert_eq!((tackler.fouls, tackler.penalties_caused), (2, 1));
    count_tackle(&mut stats, &mut tackler, TackleOutcome::NoTackle);
    assert_eq!(stats.tackles, 3);
}

#[test]
fn goal_credits_scorer_and_assist() {
    let mut stats = vec![PlayerStats::default(); 3];
    let ids = vec![10, 11, 12];
    let assist = credit_goal(&mut stats, &ids, Some(11), Some(10), false);
    assert_eq!(assist, Some(10));
    assert_eq!(stats[1].goals, 1);
    assert_eq!(stats[1].penalties_scored, 0);
    assert_eq!(stats[0].assists, 1);
    assert_eq!(stats[2].goals + stats[2].assists, 0);
}

#[test]
fn penalty_goal_without_assist() {
    let mut stats = vec![PlayerStats::default(); 2];
    let ids = vec![3, 4];
    let assist = credit_goal(&mut stats, &ids, Some(4), Some(4), true);
    assert_eq!(assist, None);
    assert_eq!((stats[1].goals, stats[1].penalties_scored, stats[1].assists), (1, 1, 0));
    let unknown = credit_goal(&mut stats, &ids, None, Some(3), false);
    assert_eq!(unknown, None);
    assert_eq!(stats[0].assists, 0);
}

fn timers(state: PlayerState, knock: i32) -> PlayerTimers {
    PlayerTimers {
        state,
        knock_timer: knock,
        tackle_cooldown: 2,
        jump_timer: 0,
        slow_timer: 1,
        gk_dive_timer: 0,
        gk_dive_dir: None,
    }
}

#[test]
fn knocked_player_gets_up_when_timer_runs_out() {
    let mut t = timers(PlayerState::Knocked, 2);
    assert_eq!(t.tick(), TimerOutcome::Busy);
    assert_eq!(t.state, PlayerState::Knocked);
    assert_eq!(t.tick(), TimerOutcome::Busy);
    assert_eq!(t.state, PlayerState::Active);
    assert_eq!(t.tick(), TimerOutcome::Ready);
    assert_eq!((t.tackle_cooldown, t.slow_timer), (0, 0));
}

#[test]
fn diving_keeper_recovers() {
    let mut t = timers(PlayerState::Active, 0);
    t.gk_dive_timer = -2;
    assert_eq!(t.tick(), TimerOutcome::Busy);
    assert_eq!(t.gk_dive_timer, -1);
    assert_eq!(t.tick(), TimerOutcome::Busy);
    assert_eq!(t.tick(), TimerOutcome::Ready);
}

#[test]
fn human_timers_and_actions() {
    let mut t = timers(PlayerState::Knocked, 5);
    t.tick_human();
    assert_eq!((t.tackle_cooldown, t.jump_timer, t.slow_timer, t.knock_timer), (1, 0, 0, 5));
    assert!(!t.can_tackle());
    t.tick_human();
    assert!(t.can_tackle());
    assert!(t.try_jump(30));
    assert_eq!(t.jump_timer, 30);
    assert!(!t.try_jump(30));
}

#[test]
fn viewer_goal_celebration() {
    let mut v = ViewerState::new();
    assert_eq!(v.set_piece_text(), Some("AVSPARK"));
    v.settle_banner(0);
    assert_eq!(v.set_piece_text(), None);
    v.begin_frame();
    v.after_step(Phase::Playing, Phase::Goal, Some(0));
    assert!(v.ev_goal_scored);
    assert!(v.celebration);
    v.goal_frame(true, false);
    assert_eq!(v.celebrate_frame, 1);
    assert_eq!(v.celebrate_timer, HUMAN_CELEBRATE_FRAMES);
    v.goal_frame(false, false);
    assert_eq!(v.celebrate_timer, HUMAN_CELEBRATE_FRAMES - 1);
    v.goal_frame(false, true);
    assert!(!v.celebration);
    assert_eq!(v.celebrate_frame, 0);
    assert_eq!(v.set_piece_text(), Some("AVSPARK"));
    v.begin_frame();
    assert!(!v.ev_goal_scored);
}

#[test]
fn viewer_other_events() {
    let mut v = ViewerState::new();
    v.after_step(Phase::Playing, Phase::Goal, Some(1));
    assert!(v.ev_goal_scored);
    assert!(!v.celebration);
    v.begin_frame();
    v.after_step(Phase::Goal, Phase::Goal, Some(0));
    assert!(!v.ev_goal_scored);
    v.penalty_struck();
    assert!(v.ev_shot_taken);
    assert_eq!(v.set_piece_text(), None);
    v.finish();
    assert!(v.done);
}

#[test]
fn facing_and_hair() {
    assert_eq!(facing_label(true, true), "right");
    assert_eq!(facing_label(true, false), "left");
    assert_eq!(facing_label(false, true), "down");
    assert_eq!(facing_label(false, false), "up");
    assert_eq!(hair_color(0), "#5a3a1a");
    assert_eq!(hair_color(3), "#8b0000");
    assert_eq!(hair_color(9), "#c87850");
    assert_eq!(hair_color(14), "#ffd700");
}

#[test]
fn penalty_without_taker_keeps_hold() {
    let mut c = MatchClock::new(1000);
    c.start_penalty(1, false);
    assert_eq!(c.phase, Phase::Penalty);
    assert_eq!(c.penalty_team, Some(1));
    assert_eq!(c.set_piece_timer, 0);
    assert_eq!(c.tick(true), ClockAction::ShootPenalty { team: 1 });
    assert_eq!(c.set_piece_timer, -1);
    assert!(c.penalty_taken);
}
