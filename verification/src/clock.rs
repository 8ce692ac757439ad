//! The match clock: phase transitions and the countdowns that drive them, one frame at a
//! time. Moving players and the ball is left to the caller, as the returned action says.

use vstd::prelude::*;
use crate::game::Phase;

verus! {

/// Frames a goal celebration lasts.
pub const GOAL_ANIM_FRAMES: i32 = 160;
/// Frames play stays on hold after the ball is given to a restart taker.
pub const SET_PIECE_FRAMES: i32 = 90;
/// Frames a free kick, corner, kick-in or goal kick stays on hold after the ball is placed.
pub const AWARD_HOLD_FRAMES: i32 = 120;
/// A penalty is struck once its hold countdown is at or below this many frames.
pub const PENALTY_SHOT_AT: i32 = 35;

/// What the caller has to do after one frame of the clock.
#[derive(Clone, Copy, PartialEq, Eq, Debug, Structural)]
pub enum ClockAction {
    /// Nothing moves this frame.
    Idle,
    /// The celebration is over: put players and ball back to the kickoff positions.
    ResetKickoff,
    /// The penalty taker of `team` shoots now.
    ShootPenalty { team: usize },
    /// Normal play: tick every player and then the ball.
    Play,
}

/// Clock and phase state of a match.
#[derive(Clone, Copy, Debug)]
pub struct MatchClock {
    pub phase: Phase,
    /// Frames of play left.
    pub timer: i32,
    /// Frames of goal celebration left.
    pub goal_anim: i32,
    pub goal_team: Option<usize>,
    /// Frames a set piece stays on hold.
    pub set_piece_timer: i32,
    pub penalty_team: Option<usize>,
    pub penalty_taken: bool,
}

impl MatchClock {
    /// The match timer is non-negative until fulltime (where it reads -1 at most), and a
    /// celebration has frames left.
    pub open spec fn wf(&self) -> bool {
        &&& self.timer >= -1
        &&& self.phase != Phase::Fulltime ==> self.timer >= 0
        &&& self.goal_anim >= 0
        &&& self.phase == Phase::Goal ==> self.goal_anim >= 1
    }

    /// The clock after one frame, and what the caller must do; `shooter_present` tells
    /// whether, during a penalty, the ball is held by a player of the match.
    pub open spec fn next(self, shooter_present: bool) -> (MatchClock, ClockAction) {
        let c = if self.phase == Phase::Kickoff { MatchClock { phase: Phase::Playing, ..self } } else { self };
        if c.phase == Phase::Goal {
            let c2 = MatchClock { goal_anim: (c.goal_anim - 1) as i32, ..c };
            if c2.goal_anim <= 0 {
                (MatchClock { phase: Phase::Kickoff, set_piece_timer: 0, penalty_team: None, penalty_taken: false, ..c2 },
                 ClockAction::ResetKickoff)
            } else {
                (c2, ClockAction::Idle)
            }
        } else if c.phase == Phase::Penalty {
            if !shooter_present {
                (MatchClock { phase: Phase::Playing, ..c }, ClockAction::Idle)
            } else if c.penalty_taken {
                (c, ClockAction::Idle)
            } else {
                let c2 = MatchClock { set_piece_timer: (c.set_piece_timer - 1) as i32, ..c };
                if c2.set_piece_timer <= PENALTY_SHOT_AT {
                    let team = match c.penalty_team { Some(t) => t, None => 1 };
                    (MatchClock { phase: Phase::Playing, penalty_taken: true, ..c2 }, ClockAction::ShootPenalty { team })
                } else {
                    (c2, ClockAction::Idle)
                }
            }
        } else if c.phase == Phase::Fulltime {
            (c, ClockAction::Idle)
        } else {
            let c2 = MatchClock { timer: (c.timer - 1) as i32, ..c };
            if c2.timer <= 0 {
                (MatchClock { phase: Phase::Fulltime, ..c2 }, ClockAction::Idle)
            } else {
                let c3 = if c2.set_piece_timer > 0 { MatchClock { set_piece_timer: (c2.set_piece_timer - 1) as i32, ..c2 } } else { c2 };
                (c3, ClockAction::Play)
            }
        }
    }

    /// A clock at kickoff with `frames` frames of play.
    pub fn new(frames: i32) -> (res: MatchClock)
        requires
            frames >= 0,
        ensures
            res.wf(),
            res.phase == Phase::Kickoff,
            res.timer == frames,
            res.goal_anim == 0,
            res.goal_team is None,
            res.set_piece_timer == 0,
            res.penalty_team is None,
            !res.penalty_taken,
    {
        MatchClock {
            phase: Phase::Kickoff,
            timer: frames,
            goal_anim: 0,
            goal_team: None,
            set_piece_timer: 0,
            penalty_team: None,
            penalty_taken: false,
        }
    }

    /// Advances the clock by one frame.
    pub fn tick(&mut self, shooter_present: bool) -> (action: ClockAction)
        requires
            old(self).wf(),
            (old(self).phase == Phase::Penalty && shooter_present && !old(self).penalty_taken)
                ==> old(self).set_piece_timer > i32::MIN,
        ensures
            final(self).wf(),
            (*final(self), action) == old(self).next(shooter_present),
            old(self).phase != Phase::Kickoff && old(self).phase != Phase::Playing ==> final(self).timer == old(self).timer,
            old(self).phase == Phase::Kickoff || old(self).phase == Phase::Playing ==> final(self).timer == old(self).timer - 1,
    {
        if self.phase == Phase::Kickoff {
            self.phase = Phase::Playing;
        }
        if self.phase == Phase::Goal {
            self.goal_anim = self.goal_anim - 1;
            if self.goal_anim <= 0 {
                self.reset_kickoff();
                return ClockAction::ResetKickoff;
            }
            return ClockAction::Idle;
        }
        if self.phase == Phase::Penalty {
            if !shooter_present {
                self.phase = Phase::Playing;
                return ClockAction::Idle;
            }
            if self.penalty_taken {
                return ClockAction::Idle;
            }
            self.set_piece_timer = self.set_piece_timer - 1;
            if self.set_piece_timer <= PENALTY_SHOT_AT {
                let team = match self.penalty_team {
                    Some(t) => t,
                    None => 1,
                };
                self.phase = Phase::Playing;
                self.penalty_taken = true;
                return ClockAction::ShootPenalty { team };
            }
            return ClockAction::Idle;
        }
        if self.phase == Phase::Fulltime {
            return ClockAction::Idle;
        }
        self.timer = self.timer - 1;
        if self.timer <= 0 {
            self.phase = Phase::Fulltime;
            return ClockAction::Idle;
        }
        if self.set_piece_timer > 0 {
            self.set_piece_timer = self.set_piece_timer - 1;
        }
        ClockAction::Play
    }

    /// Kickoff after a goal: back to the kickoff phase with no set piece or penalty pending.
    pub fn reset_kickoff(&mut self)
        requires
            old(self).timer >= 0,
            old(self).goal_anim >= 0,
        ensures
            final(self).wf(),
            *final(self) == (MatchClock { phase: Phase::Kickoff, set_piece_timer: 0, penalty_team: None, penalty_taken: false, ..*old(self) }),
    {
        self.phase = Phase::Kickoff;
        self.set_piece_timer = 0;
        self.penalty_team = None;
        self.penalty_taken = false;
    }

    /// A goal for `team`: the celebration starts.
    pub fn goal(&mut self, team: usize)
        requires
            old(self).wf(),
            old(self).phase != Phase::Fulltime,
        ensures
            final(self).wf(),
            *final(self) == (MatchClock { phase: Phase::Goal, goal_anim: GOAL_ANIM_FRAMES, goal_team: Some(team), ..*old(self) }),
    {
        self.phase = Phase::Goal;
        self.goal_anim = GOAL_ANIM_FRAMES;
        self.goal_team = Some(team);
    }

    /// The ball was placed for a restart: play resumes and a hold of `hold` frames starts.
    pub fn start_set_piece(&mut self, hold: i32)
        requires
            old(self).wf(),
            old(self).phase != Phase::Fulltime,
            hold >= 0,
        ensures
            final(self).wf(),
            *final(self) == (MatchClock { phase: Phase::Playing, set_piece_timer: hold, ..*old(self) }),
    {
        self.phase = Phase::Playing;
        self.set_piece_timer = hold;
    }

    /// A penalty for `team`: the shot is pending. When a taker was found
    /// (`shooter_found`), the ball is given to him on the spot, which starts the hold of
    /// [`SET_PIECE_FRAMES`] frames; otherwise the hold is left as it was.
    pub fn start_penalty(&mut self, team: usize, shooter_found: bool)
        requires
            old(self).wf(),
            old(self).phase != Phase::Fulltime,
        ensures
            final(self).wf(),
            *final(self) == (MatchClock {
                phase: Phase::Penalty,
                set_piece_timer: if shooter_found { SET_PIECE_FRAMES } else { old(self).set_piece_timer },
                penalty_team: Some(team),
                penalty_taken: false,
                ..*old(self)
            }),
    {
        if shooter_found {
            self.start_set_piece(SET_PIECE_FRAMES);
        }
        self.phase = Phase::Penalty;
        self.penalty_team = Some(team);
        self.penalty_taken = false;
    }
}

/// The clock after `n` frames in which no goal is scored and no penalty is pending.
pub open spec fn run_frames(c: MatchClock, n: nat) -> MatchClock
    decreases n,
{
    if n == 0 { c } else { run_frames(c.next(true).0, (n - 1) as nat) }
}

/// Fulltime is final: a finished match stays finished and asks for nothing.
pub proof fn lemma_fulltime_absorbing(c: MatchClock, shooter_present: bool)
    requires
        c.phase == Phase::Fulltime,
    ensures
        c.next(shooter_present) == (c, ClockAction::Idle),
{
}

/// The match clock never runs backwards.
pub proof fn lemma_timer_never_increases(c: MatchClock, shooter_present: bool)
    requires
        c.wf(),
    ensures
        c.next(shooter_present).0.timer <= c.timer,
{
}

/// A match in play with `timer` frames left reaches fulltime after exactly `timer` frames
/// when nothing interrupts play.
pub proof fn lemma_play_reaches_fulltime(c: MatchClock)
    requires
        c.wf(),
        c.phase == Phase::Playing,
        c.timer >= 1,
    ensures
        run_frames(c, c.timer as nat).phase == Phase::Fulltime,
        forall|k: nat| k < c.timer ==> #[trigger] run_frames(c, k).phase == Phase::Playing,
    decreases c.timer,
{
    let c1 = c.next(true).0;
    if c.timer == 1 {
        assert(c1.phase == Phase::Fulltime);
        assert(run_frames(c1, 0) == c1);
        assert forall|k: nat| k < c.timer implies #[trigger] run_frames(c, k).phase == Phase::Playing by {
            assert(k == 0);
        }
    } else {
        assert(c1.phase == Phase::Playing && c1.timer == c.timer - 1 && c1.wf());
        lemma_play_reaches_fulltime(c1);
        assert(run_frames(c, c.timer as nat) == run_frames(c1, c1.timer as nat));
        assert forall|k: nat| k < c.timer implies #[trigger] run_frames(c, k).phase == Phase::Playing by {
            if k > 0 {
                assert(run_frames(c, k) == run_frames(c1, (k - 1) as nat));
            }
        }
    }
}

/// A goal celebration of `n` frames ends with the kickoff reset on its `n`-th frame.
pub proof fn lemma_celebration_length(c: MatchClock, shooter_present: bool)
    requires
        c.phase == Phase::Goal,
        c.goal_anim >= 1,
    ensures
        c.goal_anim == 1 ==> c.next(shooter_present).1 == ClockAction::ResetKickoff
            && c.next(shooter_present).0.phase == Phase::Kickoff,
        c.goal_anim > 1 ==> c.next(shooter_present).1 == ClockAction::Idle
            && c.next(shooter_present).0.phase == Phase::Goal
            && c.next(shooter_present).0.goal_anim == c.goal_anim - 1,
{
}

/// Stopped-clock law: only frames of kickoff and play count the match timer down; a
/// frame of goal celebration, of a penalty, or after fulltime leaves it as it was.
pub proof fn lemma_clock_stops_outside_play(c: MatchClock, shooter_present: bool)
    requires
        c.phase != Phase::Kickoff,
        c.phase != Phase::Playing,
    ensures
        c.next(shooter_present).0.timer == c.timer,
{
}

/// Running-clock law: a frame of kickoff or play counts the match timer down by one.
pub proof fn lemma_clock_runs_in_play(c: MatchClock, shooter_present: bool)
    requires
        c.wf(),
        c.phase == Phase::Kickoff || c.phase == Phase::Playing,
    ensures
        c.next(shooter_present).0.timer == c.timer - 1,
{
}

} // verus!
