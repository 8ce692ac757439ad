//! What a browser session keeps beside the match itself, frame by frame: the banner
//! shown at kickoff, the celebration after a goal by the human's team, the end flag,
//! and the one-frame events that trigger sounds.

use vstd::prelude::*;
use crate::game::Phase;

verus! {

/// Frames the human player's celebration pose lasts once the key is pressed.
pub const HUMAN_CELEBRATE_FRAMES: i32 = 55;

/// Per-session state shown by the browser client.
#[derive(Clone, Copy, Debug)]
pub struct ViewerState {
    /// Whether the kickoff banner is shown.
    pub kickoff_banner: bool,
    /// Whether the human's team is celebrating a goal.
    pub celebration: bool,
    /// Frames the celebration has lasted.
    pub celebrate_frame: i32,
    /// Frames left of the human player's celebration pose.
    pub celebrate_timer: i32,
    /// Whether the match is over.
    pub done: bool,
    pub ev_goal_scored: bool,
    pub ev_shot_taken: bool,
    pub ev_pass_done: bool,
    pub ev_tackle_done: bool,
}

impl ViewerState {
    /// Counters never run negative and the pose lasts at most its full length.
    pub open spec fn wf(&self) -> bool {
        &&& self.celebrate_frame >= 0
        &&& 0 <= self.celebrate_timer <= HUMAN_CELEBRATE_FRAMES
    }

    /// No event raised this frame.
    pub open spec fn quiet(&self) -> bool {
        !self.ev_goal_scored && !self.ev_shot_taken && !self.ev_pass_done && !self.ev_tackle_done
    }

    /// The state of a new session: the kickoff banner up, nothing else going on.
    pub fn new() -> (res: Self)
        ensures
            res.wf(),
            res.quiet(),
            res.kickoff_banner,
            !res.celebration,
            res.celebrate_frame == 0,
            res.celebrate_timer == 0,
            !res.done,
    {
        ViewerState {
            kickoff_banner: true,
            celebration: false,
            celebrate_frame: 0,
            celebrate_timer: 0,
            done: false,
            ev_goal_scored: false,
            ev_shot_taken: false,
            ev_pass_done: false,
            ev_tackle_done: false,
        }
    }

    /// The banner text the client shows over the pitch.
    pub fn set_piece_text(&self) -> (res: Option<&'static str>)
        ensures
            self.kickoff_banner ==> res is Some && res->0@ == "AVSPARK"@,
            !self.kickoff_banner ==> res is None,
    {
        if self.kickoff_banner {
            Some("AVSPARK")
        } else {
            None
        }
    }

    /// Start of a frame: the events of the previous frame are cleared.
    pub fn begin_frame(&mut self)
        ensures
            final(self).quiet(),
            *final(self) == (ViewerState {
                ev_goal_scored: false,
                ev_shot_taken: false,
                ev_pass_done: false,
                ev_tackle_done: false,
                ..*old(self)
            }),
    {
        self.ev_goal_scored = false;
        self.ev_shot_taken = false;
        self.ev_pass_done = false;
        self.ev_tackle_done = false;
    }

    /// One frame of the goal phase: the celebration (if any) advances and the human's
    /// pose counts down, or restarts when `celebrate_pressed`; when `kickoff_reset`
    /// (the celebration countdown ran out) the banner returns and the celebration ends.
    pub fn goal_frame(&mut self, celebrate_pressed: bool, kickoff_reset: bool)
        requires
            old(self).wf(),
            old(self).celebrate_frame < i32::MAX,
        ensures
            final(self).wf(),
            final(self).done == old(self).done,
            final(self).ev_goal_scored == old(self).ev_goal_scored,
            final(self).ev_shot_taken == old(self).ev_shot_taken,
            final(self).ev_pass_done == old(self).ev_pass_done,
            final(self).ev_tackle_done == old(self).ev_tackle_done,
            final(self).celebrate_timer == if celebrate_pressed && old(self).celebration {
                HUMAN_CELEBRATE_FRAMES as int
            } else if old(self).celebration && old(self).celebrate_timer > 0 {
                old(self).celebrate_timer - 1
            } else {
                old(self).celebrate_timer as int
            },
            kickoff_reset ==> final(self).kickoff_banner && !final(self).celebration && final(self).celebrate_frame == 0,
            !kickoff_reset ==> final(self).kickoff_banner == old(self).kickoff_banner
                && final(self).celebration == old(self).celebration
                && final(self).celebrate_frame == old(self).celebrate_frame + if old(self).celebration { 1int } else { 0int },
    {
        if self.celebration {
            self.celebrate_frame = self.celebrate_frame + 1;
            if self.celebrate_timer > 0 {
                self.celebrate_timer = self.celebrate_timer - 1;
            }
        }
        if celebrate_pressed && self.celebration {
            self.celebrate_timer = HUMAN_CELEBRATE_FRAMES;
        }
        if kickoff_reset {
            self.kickoff_banner = true;
            self.celebration = false;
            self.celebrate_frame = 0;
        }
    }

    /// The human player struck the penalty: the banner goes and the shot is announced.
    pub fn penalty_struck(&mut self)
        ensures
            *final(self) == (ViewerState { kickoff_banner: false, ev_shot_taken: true, ..*old(self) }),
    {
        self.kickoff_banner = false;
        self.ev_shot_taken = true;
    }

    /// After a simulation step that went from `prev_phase` to `phase`: a goal just
    /// scored is announced, and a goal by team 0 (the human's) starts the celebration.
    pub fn after_step(&mut self, prev_phase: Phase, phase: Phase, goal_team: Option<usize>)
        requires
            old(self).wf(),
        ensures
            final(self).wf(),
            (phase == Phase::Goal && prev_phase == Phase::Playing) ==> final(self).ev_goal_scored,
            !(phase == Phase::Goal && prev_phase == Phase::Playing) ==> *final(self) == *old(self),
            (phase == Phase::Goal && prev_phase == Phase::Playing && goal_team == Some(0usize)) ==>
                *final(self) == (ViewerState { ev_goal_scored: true, celebration: true, celebrate_frame: 0, ..*old(self) }),
            (phase == Phase::Goal && prev_phase == Phase::Playing && goal_team != Some(0usize)) ==>
                *final(self) == (ViewerState { ev_goal_scored: true, ..*old(self) }),
    {
        if phase == Phase::Goal && prev_phase == Phase::Playing {
            self.ev_goal_scored = true;
            if goal_team == Some(0) {
                self.celebration = true;
                self.celebrate_frame = 0;
            }
        }
    }

    /// The banner is taken down once no set piece is on hold.
    pub fn settle_banner(&mut self, set_piece_timer: i32)
        ensures
            set_piece_timer == 0 ==> *final(self) == (ViewerState { kickoff_banner: false, ..*old(self) }),
            set_piece_timer != 0 ==> *final(self) == *old(self),
    {
        if set_piece_timer == 0 {
            self.kickoff_banner = false;
        }
    }

    /// Full time: the session is over.
    pub fn finish(&mut self)
        ensures
            *final(self) == (ViewerState { done: true, ..*old(self) }),
    {
        self.done = true;
    }
}

/// Where the client's player looks after moving by `(dx, dy)`, given which component
/// is larger in size and the signs: sideways when the horizontal move dominates.
pub fn facing_label(horizontal: bool, positive: bool) -> (res: &'static str)
    ensures
        horizontal && positive ==> res@ == "right"@,
        horizontal && !positive ==> res@ == "left"@,
        !horizontal && positive ==> res@ == "down"@,
        !horizontal && !positive ==> res@ == "up"@,
{
    if horizontal {
        if positive { "right" } else { "left" }
    } else {
        if positive { "down" } else { "up" }
    }
}

/// Hair colour of player `i` in the browser client, cycling through ten colours.
pub fn hair_color(i: usize) -> (res: &'static str)
    ensures
        i % 10 == 0 ==> res@ == "#5a3a1a"@,
        i % 10 == 1 ==> res@ == "#1a1a1a"@,
        i % 10 == 2 ==> res@ == "#f4d090"@,
        i % 10 == 3 ==> res@ == "#8b0000"@,
        i % 10 == 4 ==> res@ == "#ffd700"@,
        i % 10 == 5 ==> res@ == "#5a3a1a"@,
        i % 10 == 6 ==> res@ == "#1a1a1a"@,
        i % 10 == 7 ==> res@ == "#f4d090"@,
        i % 10 == 8 ==> res@ == "#5a3a1a"@,
        i % 10 == 9 ==> res@ == "#c87850"@,
{
    let k = i % 10;
    if k == 0 {
        "#5a3a1a"
    } else if k == 1 {
        "#1a1a1a"
    } else if k == 2 {
        "#f4d090"
    } else if k == 3 {
        "#8b0000"
    } else if k == 4 {
        "#ffd700"
    } else if k == 5 {
        "#5a3a1a"
    } else if k == 6 {
        "#1a1a1a"
    } else if k == 7 {
        "#f4d090"
    } else if k == 8 {
        "#5a3a1a"
    } else {
        "#c87850"
    }
}

} // verus!
