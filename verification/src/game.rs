//! Match state that is pure bookkeeping: phases, roles, player states, statistics
//! counters, the match clock and the per-player timers.

use vstd::prelude::*;

verus! {

/// Phase of a match.
#[derive(Clone, Copy, PartialEq, Eq, Debug, Structural)]
pub enum Phase {
    Kickoff,
    Playing,
    Goal,
    Penalty,
    Fulltime,
}

/// Playing position of a player.
#[derive(Clone, Copy, PartialEq, Eq, Debug, Structural)]
pub enum Role {
    Fwd,
    Mid,
    Def,
    Gk,
}

/// Whether a player can act or is lying knocked down.
#[derive(Clone, Copy, PartialEq, Eq, Debug, Structural)]
pub enum PlayerState {
    Active,
    Knocked,
}

/// Name of a phase as the browser client spells it.
pub fn phase_str(phase: Phase) -> (res: &'static str)
    ensures
        phase == Phase::Kickoff ==> res@ == "kickoff"@,
        phase == Phase::Playing ==> res@ == "playing"@,
        phase == Phase::Goal ==> res@ == "goal"@,
        phase == Phase::Penalty ==> res@ == "penalty"@,
        phase == Phase::Fulltime ==> res@ == "fulltime"@,
{
    match phase {
        Phase::Kickoff => "kickoff",
        Phase::Playing => "playing",
        Phase::Goal => "goal",
        Phase::Penalty => "penalty",
        Phase::Fulltime => "fulltime",
    }
}

/// Name of a role as the browser client spells it.
pub fn role_str(role: Role) -> (res: &'static str)
    ensures
        role == Role::Fwd ==> res@ == "fwd"@,
        role == Role::Mid ==> res@ == "mid"@,
        role == Role::Def ==> res@ == "def"@,
        role == Role::Gk ==> res@ == "gk"@,
{
    match role {
        Role::Fwd => "fwd",
        Role::Mid => "mid",
        Role::Def => "def",
        Role::Gk => "gk",
    }
}

/// Name of a player state as the browser client spells it.
pub fn state_str(state: PlayerState) -> (res: &'static str)
    ensures
        state == PlayerState::Active ==> res@ == "active"@,
        state == PlayerState::Knocked ==> res@ == "knocked"@,
{
    match state {
        PlayerState::Active => "active",
        PlayerState::Knocked => "knocked",
    }
}

/// Per-player match statistics.
#[derive(Clone, Copy, Debug)]
pub struct PlayerStats {
    pub goals: u32,
    pub shots: u32,
    pub assists: u32,
    pub fouls: u32,
    pub penalties_caused: u32,
    pub penalties_taken: u32,
    pub penalties_scored: u32,
}

impl Default for PlayerStats {
    fn default() -> (res: Self)
        ensures
            res.goals == 0 && res.shots == 0 && res.assists == 0 && res.fouls == 0,
            res.penalties_caused == 0 && res.penalties_taken == 0 && res.penalties_scored == 0,
    {
        PlayerStats {
            goals: 0,
            shots: 0,
            assists: 0,
            fouls: 0,
            penalties_caused: 0,
            penalties_taken: 0,
            penalties_scored: 0,
        }
    }
}

/// Match-wide event counters.
#[derive(Clone, Copy, Debug)]
pub struct Stats {
    pub passes: u32,
    pub pass_completed: u32,
    pub shots: u32,
    pub goals: u32,
    pub tackles: u32,
    pub tackle_success: u32,
    pub turnovers: u32,
    pub out_of_bounds: u32,
    pub fouls: u32,
    pub free_kicks: u32,
    pub corners: u32,
    pub penalties: u32,
}

impl Default for Stats {
    fn default() -> (res: Self)
        ensures
            res.passes == 0 && res.pass_completed == 0 && res.shots == 0 && res.goals == 0,
            res.tackles == 0 && res.tackle_success == 0 && res.turnovers == 0,
            res.out_of_bounds == 0 && res.fouls == 0 && res.free_kicks == 0,
            res.corners == 0 && res.penalties == 0,
    {
        Stats {
            passes: 0,
            pass_completed: 0,
            shots: 0,
            goals: 0,
            tackles: 0,
            tackle_success: 0,
            turnovers: 0,
            out_of_bounds: 0,
            fouls: 0,
            free_kicks: 0,
            corners: 0,
            penalties: 0,
        }
    }
}

} // verus!
