//! Match rules that decide from plain facts: who restarts after the ball goes out, what a
//! tackle leads to, who is credited with a goal, and how player timers run down.

use vstd::prelude::*;
use crate::game::{PlayerState, PlayerStats, Role, Stats};

verus! {

/// The parts of a player the rules read.
#[derive(Clone, Copy, Debug)]
pub struct PlayerInfo {
    pub id: usize,
    pub team: usize,
    pub role: Role,
    pub state: PlayerState,
}

/// Id of the first active player of `team` (with role `role` when one is given).
pub open spec fn first_active(s: Seq<PlayerInfo>, team: usize, role: Option<Role>) -> Option<usize>
    decreases s.len(),
{
    if s.len() == 0 {
        None
    } else if s[0].team == team && s[0].state == PlayerState::Active
        && (role matches Some(r) ==> s[0].role == r) {
        Some(s[0].id)
    } else {
        first_active(s.drop_first(), team, role)
    }
}

fn first_active_exec(players: &Vec<PlayerInfo>, team: usize, role: Option<Role>) -> (res: Option<usize>)
    ensures
        res == first_active(players@, team, role),
{
    let mut i: usize = 0;
    proof {
        assert(players@.skip(0) =~= players@);
    }
    while i < players.len()
        invariant
            i <= players@.len(),
            first_active(players@, team, role) == first_active(players@.skip(i as int), team, role),
        decreases players@.len() - i,
    {
        let p = players[i];
        let role_ok = match role {
            Some(r) => p.role == r,
            None => true,
        };
        proof {
            assert(players@.skip(i as int)[0] == p);
            assert(players@.skip(i as int).drop_first() =~= players@.skip(i + 1));
        }
        if p.team == team && p.state == PlayerState::Active && role_ok {
            return Some(p.id);
        }
        i = i + 1;
    }
    None
}

/// Id of the first active player of `team` with role `role`, or failing that of the first
/// active player of `team`.
pub fn find_role_player(players: &Vec<PlayerInfo>, team: usize, role: Role) -> (res: Option<usize>)
    ensures
        res == (match first_active(players@, team, Some(role)) {
            Some(id) => Some(id),
            None => first_active(players@, team, None),
        }),
{
    match first_active_exec(players, team, Some(role)) {
        Some(id) => Some(id),
        None => first_active_exec(players, team, None),
    }
}

/// How play restarts after the ball left the field.
#[derive(Clone, Copy, PartialEq, Eq, Debug, Structural)]
pub enum Restart {
    KickIn { team: usize },
    GoalKick { team: usize },
    Corner { team: usize },
}

/// The restart owed when the ball crossed a touchline (`over_touchline`) or a goal line wide
/// of the goal (in the left half when `left_half`), last touched by `last_touch`: the side
/// that did not touch the ball last takes a kick-in; over a goal line the defending side
/// (the one whose goal it is) takes a goal kick when the attackers touched it last,
/// otherwise the attackers take a corner.
pub open spec fn restart_rule(over_touchline: bool, left_half: bool, last_touch: Option<usize>) -> Restart {
    let attacking: usize = if left_half { 1 } else { 0 };
    let defending: usize = if left_half { 0 } else { 1 };
    if over_touchline {
        Restart::KickIn { team: if last_touch == Some(0usize) { 1 } else { 0 } }
    } else if last_touch == Some(attacking) {
        Restart::GoalKick { team: defending }
    } else {
        Restart::Corner { team: attacking }
    }
}

/// Decides the restart after the ball left the field (see [`restart_rule`]).
pub fn ball_out_restart(over_touchline: bool, left_half: bool, last_touch: Option<usize>) -> (res: Restart)
    ensures
        res == restart_rule(over_touchline, left_half, last_touch),
        over_touchline && last_touch == Some(0usize) ==> res == (Restart::KickIn { team: 1 }),
        over_touchline && last_touch == Some(1usize) ==> res == (Restart::KickIn { team: 0 }),
{
    if over_touchline {
        let team: usize = match last_touch {
            Some(0) => 1,
            _ => 0,
        };
        return Restart::KickIn { team };
    }
    let (attacking, defending): (usize, usize) = if left_half { (1, 0) } else { (0, 1) };
    if last_touch == Some(attacking) {
        Restart::GoalKick { team: defending }
    } else {
        Restart::Corner { team: attacking }
    }
}

/// What a tackle attempt leads to.
#[derive(Clone, Copy, PartialEq, Eq, Debug, Structural)]
pub enum TackleOutcome {
    /// One of the two players is down: nothing happens.
    NoTackle,
    /// The target was in the air: the tackler falls.
    TacklerKnocked,
    /// The target had the ball and loses it.
    BallStolen,
    /// Off-ball foul by a defender in his own penalty area.
    Penalty,
    /// Off-ball foul anywhere else.
    FreeKick,
}

/// The outcome the rules give a tackle attempt.
pub open spec fn tackle_rule(
    tackler_active: bool,
    target_active: bool,
    target_jumping: bool,
    target_has_ball: bool,
    same_team: bool,
    tackler_in_own_area: bool,
) -> TackleOutcome {
    if !tackler_active || !target_active {
        TackleOutcome::NoTackle
    } else if target_jumping {
        TackleOutcome::TacklerKnocked
    } else if target_has_ball {
        TackleOutcome::BallStolen
    } else if !same_team && tackler_in_own_area {
        TackleOutcome::Penalty
    } else {
        TackleOutcome::FreeKick
    }
}

/// Decides a tackle from the facts the rules look at (see [`tackle_rule`]).
pub fn tackle_outcome(
    tackler_active: bool,
    target_active: bool,
    target_jumping: bool,
    target_has_ball: bool,
    same_team: bool,
    tackler_in_own_area: bool,
) -> (res: TackleOutcome)
    ensures
        res == tackle_rule(tackler_active, target_active, target_jumping, target_has_ball, same_team, tackler_in_own_area),
        !tackler_active || !target_active ==> res == TackleOutcome::NoTackle,
{
    if !tackler_active || !target_active {
        TackleOutcome::NoTackle
    } else if target_jumping {
        TackleOutcome::TacklerKnocked
    } else if target_has_ball {
        TackleOutcome::BallStolen
    } else if !same_team && tackler_in_own_area {
        TackleOutcome::Penalty
    } else {
        TackleOutcome::FreeKick
    }
}

/// Match statistics after a tackle with the given outcome: every real tackle is counted,
/// a stolen ball and a free kick count as successful, a free kick also as a foul.
pub open spec fn stats_after_tackle(s: Stats, outcome: TackleOutcome) -> Stats {
    match outcome {
        TackleOutcome::NoTackle => s,
        TackleOutcome::TacklerKnocked => Stats { tackles: (s.tackles + 1) as u32, ..s },
        TackleOutcome::BallStolen => Stats {
            tackles: (s.tackles + 1) as u32,
            tackle_success: (s.tackle_success + 1) as u32,
            ..s
        },
        TackleOutcome::Penalty => Stats { tackles: (s.tackles + 1) as u32, ..s },
        TackleOutcome::FreeKick => Stats {
            tackles: (s.tackles + 1) as u32,
            tackle_success: (s.tackle_success + 1) as u32,
            fouls: (s.fouls + 1) as u32,
            ..s
        },
    }
}

/// The tackler's statistics after a tackle: a foul for either off-ball outcome, and a
/// penalty caused for a foul in his own area.
pub open spec fn tackler_after_tackle(p: PlayerStats, outcome: TackleOutcome) -> PlayerStats {
    match outcome {
        TackleOutcome::Penalty => PlayerStats {
            fouls: (p.fouls + 1) as u32,
            penalties_caused: (p.penalties_caused + 1) as u32,
            ..p
        },
        TackleOutcome::FreeKick => PlayerStats { fouls: (p.fouls + 1) as u32, ..p },
        _ => p,
    }
}

/// Counts a tackle in the match statistics and in the tackler's own statistics.
pub fn count_tackle(stats: &mut Stats, tackler: &mut PlayerStats, outcome: TackleOutcome)
    requires
        old(stats).tackles < u32::MAX,
        old(stats).tackle_success < u32::MAX,
        old(stats).fouls < u32::MAX,
        old(tackler).fouls < u32::MAX,
        old(tackler).penalties_caused < u32::MAX,
    ensures
        *final(stats) == stats_after_tackle(*old(stats), outcome),
        *final(tackler) == tackler_after_tackle(*old(tackler), outcome),
{
    match outcome {
        TackleOutcome::NoTackle => {},
        TackleOutcome::TacklerKnocked => {
            stats.tackles = stats.tackles + 1;
        },
        TackleOutcome::BallStolen => {
            stats.tackles = stats.tackles + 1;
            stats.tackle_success = stats.tackle_success + 1;
        },
        TackleOutcome::Penalty => {
            stats.tackles = stats.tackles + 1;
            tackler.fouls = tackler.fouls + 1;
            tackler.penalties_caused = tackler.penalties_caused + 1;
        },
        TackleOutcome::FreeKick => {
            stats.tackles = stats.tackles + 1;
            stats.tackle_success = stats.tackle_success + 1;
            stats.fouls = stats.fouls + 1;
            tackler.fouls = tackler.fouls + 1;
        },
    }
}

fn position_of(ids: &Vec<usize>, id: usize) -> (res: Option<usize>)
    ensures
        res matches Some(k) ==> k < ids@.len() && ids@[k as int] == id && forall|m: int| 0 <= m < k ==> ids@[m] != id,
        res is None ==> !ids@.contains(id),
{
    let mut k: usize = 0;
    while k < ids.len()
        invariant
            k <= ids@.len(),
            forall|m: int| 0 <= m < k ==> ids@[m] != id,
        decreases ids@.len() - k,
    {
        if ids[k] == id {
            return Some(k);
        }
        k = k + 1;
    }
    None
}

/// `k` is the first position of `id` in `ids`.
pub open spec fn first_position(ids: Seq<usize>, k: int, id: usize) -> bool {
    0 <= k < ids.len() && ids[k] == id && forall|m: int| 0 <= m < k ==> ids[m] != id
}

/// The assist a goal credits: the last passer, when there is one, it is not the scorer and
/// it is among `ids`.
pub open spec fn assist_rule(ids: Seq<usize>, scorer: Option<usize>, passer: Option<usize>) -> Option<usize> {
    match (scorer, passer) {
        (Some(s), Some(a)) => if a != s && ids.contains(a) { Some(a) } else { None },
        _ => None,
    }
}

/// Statistics of the player at position `k` after a goal is credited.
pub open spec fn stats_after_goal(
    before: PlayerStats,
    ids: Seq<usize>,
    k: int,
    scorer: Option<usize>,
    assist: Option<usize>,
    is_penalty: bool,
) -> PlayerStats {
    let scored = scorer matches Some(s) && first_position(ids, k, s);
    let assisted = assist matches Some(a) && first_position(ids, k, a);
    PlayerStats {
        goals: if scored { (before.goals + 1) as u32 } else { before.goals },
        penalties_scored: if scored && is_penalty { (before.penalties_scored + 1) as u32 } else { before.penalties_scored },
        assists: if assisted { (before.assists + 1) as u32 } else { before.assists },
        ..before
    }
}

/// Credits a goal: the scorer (found by id in `ids`, which lists the player ids in the same
/// order as `player_stats`) gets a goal, and a penalty goal when `is_penalty`; the assist
/// goes as [`assist_rule`] says. Returns the id credited with the assist.
pub fn credit_goal(
    player_stats: &mut Vec<PlayerStats>,
    ids: &Vec<usize>,
    scorer: Option<usize>,
    passer: Option<usize>,
    is_penalty: bool,
) -> (assist: Option<usize>)
    requires
        old(player_stats)@.len() == ids@.len(),
        forall|k: int| 0 <= k < ids@.len() ==> (#[trigger] old(player_stats)@[k]).goals < u32::MAX
            && old(player_stats)@[k].penalties_scored < u32::MAX
            && old(player_stats)@[k].assists < u32::MAX,
    ensures
        final(player_stats)@.len() == old(player_stats)@.len(),
        assist == assist_rule(ids@, scorer, passer),
        forall|k: int| 0 <= k < ids@.len() ==> #[trigger] final(player_stats)@[k]
            == stats_after_goal(old(player_stats)@[k], ids@, k, scorer, assist, is_penalty),
{
    let ghost stats_before = player_stats@;
    if let Some(sid) = scorer {
        if let Some(idx) = position_of(ids, sid) {
            let mut st = player_stats[idx];
            st.goals = st.goals + 1;
            if is_penalty {
                st.penalties_scored = st.penalties_scored + 1;
            }
            player_stats.set(idx, st);
        }
    }
    let ghost mid = player_stats@;
    let mut assist: Option<usize> = None;
    if let (Some(aid), Some(sid)) = (passer, scorer) {
        if aid != sid {
            if let Some(idx) = position_of(ids, aid) {
                let mut st = player_stats[idx];
                st.assists = st.assists + 1;
                player_stats.set(idx, st);
                assist = Some(aid);
            }
        }
    }
    assist
}

/// Timers of a player that run down by one every frame of play.
#[derive(Clone, Copy, Debug)]
pub struct PlayerTimers {
    pub state: PlayerState,
    pub knock_timer: i32,
    pub tackle_cooldown: i32,
    pub jump_timer: i32,
    pub slow_timer: i32,
    /// Negative while a goalkeeper recovers from a dive.
    pub gk_dive_timer: i32,
    /// Direction of a goalkeeper dive in progress (`true` up, `false` down).
    pub gk_dive_dir: Option<bool>,
}

/// Whether the player may act this frame after its timers ran.
#[derive(Clone, Copy, PartialEq, Eq, Debug, Structural)]
pub enum TimerOutcome {
    /// Still recovering from a dive or lying down: no action this frame.
    Busy,
    /// Free to act.
    Ready,
}

/// A positive countdown one frame further.
pub open spec fn count_down(t: i32) -> i32 {
    if t > 0 { (t - 1) as i32 } else { t }
}

impl PlayerTimers {
    /// Runs the player's timers for one frame: cooldowns count down; a diving goalkeeper
    /// recovers by one frame; a knocked player counts down and gets up (ending any dive)
    /// when the knock timer runs out.
    pub fn tick(&mut self) -> (res: TimerOutcome)
        requires
            old(self).gk_dive_timer >= 0 && old(self).state == PlayerState::Knocked ==> old(self).knock_timer > i32::MIN,
        ensures
            final(self).tackle_cooldown == count_down(old(self).tackle_cooldown),
            final(self).jump_timer == count_down(old(self).jump_timer),
            final(self).slow_timer == count_down(old(self).slow_timer),
            old(self).gk_dive_timer < 0 ==> res == TimerOutcome::Busy
                && final(self).gk_dive_timer == old(self).gk_dive_timer + 1
                && final(self).state == old(self).state
                && final(self).knock_timer == old(self).knock_timer
                && final(self).gk_dive_dir == old(self).gk_dive_dir,
            old(self).gk_dive_timer >= 0 ==> final(self).gk_dive_timer == old(self).gk_dive_timer,
            old(self).gk_dive_timer >= 0 && old(self).state == PlayerState::Knocked ==> res == TimerOutcome::Busy
                && final(self).knock_timer == old(self).knock_timer - 1
                && (final(self).knock_timer <= 0 ==> final(self).state == PlayerState::Active && final(self).gk_dive_dir is None)
                && (final(self).knock_timer > 0 ==> final(self).state == PlayerState::Knocked && final(self).gk_dive_dir == old(self).gk_dive_dir),
            old(self).gk_dive_timer >= 0 && old(self).state == PlayerState::Active ==> res == TimerOutcome::Ready
                && final(self).state == PlayerState::Active
                && final(self).knock_timer == old(self).knock_timer
                && final(self).gk_dive_dir == old(self).gk_dive_dir,
    {
        if self.tackle_cooldown > 0 {
            self.tackle_cooldown = self.tackle_cooldown - 1;
        }
        if self.jump_timer > 0 {
            self.jump_timer = self.jump_timer - 1;
        }
        if self.slow_timer > 0 {
            self.slow_timer = self.slow_timer - 1;
        }
        if self.gk_dive_timer < 0 {
            self.gk_dive_timer = self.gk_dive_timer + 1;
            return TimerOutcome::Busy;
        }
        if self.state != PlayerState::Active {
            self.knock_timer = self.knock_timer - 1;
            if self.knock_timer <= 0 {
                self.state = PlayerState::Active;
                self.gk_dive_dir = None;
            }
            return TimerOutcome::Busy;
        }
        TimerOutcome::Ready
    }

    /// The timers of the human-controlled player for one frame: only the tackle, jump
    /// and slow cooldowns count down (the human is never knocked out of control by
    /// the simulation's own timer pass).
    pub fn tick_human(&mut self)
        ensures
            *final(self) == (PlayerTimers {
                tackle_cooldown: count_down(old(self).tackle_cooldown),
                jump_timer: count_down(old(self).jump_timer),
                slow_timer: count_down(old(self).slow_timer),
                ..*old(self)
            }),
    {
        if self.tackle_cooldown > 0 {
            self.tackle_cooldown = self.tackle_cooldown - 1;
        }
        if self.jump_timer > 0 {
            self.jump_timer = self.jump_timer - 1;
        }
        if self.slow_timer > 0 {
            self.slow_timer = self.slow_timer - 1;
        }
    }

    /// A jump of `frames` frames starts when no jump is in progress; returns whether it did.
    pub fn try_jump(&mut self, frames: i32) -> (started: bool)
        ensures
            started == (old(self).jump_timer <= 0),
            started ==> *final(self) == (PlayerTimers { jump_timer: frames, ..*old(self) }),
            !started ==> *final(self) == *old(self),
    {
        if self.jump_timer <= 0 {
            self.jump_timer = frames;
            true
        } else {
            false
        }
    }

    /// Whether the tackle cooldown allows a tackle this frame.
    pub fn can_tackle(&self) -> (res: bool)
        ensures
            res == (self.tackle_cooldown <= 0),
    {
        self.tackle_cooldown <= 0
    }
}

/// A knocked player with `k >= 1` frames on the knock timer and no dive in progress is
/// back on his feet after exactly `k` frames.
pub proof fn lemma_knock_recovery(t: PlayerTimers, t1: PlayerTimers)
    requires
        t.gk_dive_timer >= 0,
        t.state == PlayerState::Knocked,
        t.knock_timer >= 1,
        t1.gk_dive_timer == t.gk_dive_timer,
        t1.knock_timer == t.knock_timer - 1,
        t1.knock_timer <= 0 ==> t1.state == PlayerState::Active,
        t1.knock_timer > 0 ==> t1.state == PlayerState::Knocked,
    ensures
        t.knock_timer == 1 <==> t1.state == PlayerState::Active,
{
}

/// Kick-in law: over a touchline, the kick-in goes to the team that did not touch the
/// ball last, whichever half of the field the ball left in.
pub proof fn lemma_kick_in_goes_to_other_team(left_half: bool, t: usize)
    requires
        t < 2,
    ensures
        restart_rule(true, left_half, Some(t)) == (Restart::KickIn { team: (1 - t) as usize }),
{
}

/// Goal-line law: over a goal line, the restart is a goal kick for the defending side
/// when the attacking side touched the ball last, and a corner for the attacking side
/// otherwise; the defending side is team 0 in the left half and team 1 in the right.
pub proof fn lemma_goal_line_restart(left_half: bool, last_touch: Option<usize>)
    ensures
        last_touch == Some(if left_half { 1usize } else { 0usize }) ==>
            restart_rule(false, left_half, last_touch) == (Restart::GoalKick { team: if left_half { 0usize } else { 1usize } }),
        last_touch != Some(if left_half { 1usize } else { 0usize }) ==>
            restart_rule(false, left_half, last_touch) == (Restart::Corner { team: if left_half { 1usize } else { 0usize } }),
{
}

/// Down-player law: when the tackler or the target is not on his feet, nothing happens,
/// whatever else holds of the two players.
pub proof fn lemma_no_tackle_when_down(
    tackler_active: bool,
    target_active: bool,
    target_jumping: bool,
    target_has_ball: bool,
    same_team: bool,
    tackler_in_own_area: bool,
)
    requires
        !tackler_active || !target_active,
    ensures
        tackle_rule(tackler_active, target_active, target_jumping, target_has_ball, same_team, tackler_in_own_area)
            == TackleOutcome::NoTackle,
{
}

/// Foul law: between two standing players, a foul (penalty or free kick) is given
/// exactly when the target neither jumps nor holds the ball, and it is a penalty only
/// against a tackler of the other team in his own area.
pub proof fn lemma_fouls_between_standing_players(
    target_jumping: bool,
    target_has_ball: bool,
    same_team: bool,
    tackler_in_own_area: bool,
)
    ensures
        (tackle_rule(true, true, target_jumping, target_has_ball, same_team, tackler_in_own_area) == TackleOutcome::Penalty
            || tackle_rule(true, true, target_jumping, target_has_ball, same_team, tackler_in_own_area) == TackleOutcome::FreeKick)
            <==> (!target_jumping && !target_has_ball),
        tackle_rule(true, true, target_jumping, target_has_ball, same_team, tackler_in_own_area) == TackleOutcome::Penalty
            <==> (!target_jumping && !target_has_ball && !same_team && tackler_in_own_area),
        target_jumping ==> tackle_rule(true, true, target_jumping, target_has_ball, same_team, tackler_in_own_area)
            == TackleOutcome::TacklerKnocked,
        !target_jumping && target_has_ball ==> tackle_rule(true, true, target_jumping, target_has_ball, same_team, tackler_in_own_area)
            == TackleOutcome::BallStolen,
{
}

} // verus!
