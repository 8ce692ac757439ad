//! Zones and corridors of the pitch as seen from one team.

use vstd::prelude::*;

verus! {

/// Zone along the length of the pitch, from the own goal towards the opponent's goal.
#[derive(Clone, Copy, Debug, PartialEq, Eq, Structural)]
pub enum FieldZone {
    OwnPenaltyArea,
    OwnHalf,
    Midfield,
    OppHalf,
    OppPenaltyArea,
}

impl FieldZone {
    /// Position of the zone from the own goal: 0 (own penalty area) to 4.
    pub fn index(&self) -> (res: usize)
        ensures
            *self == FieldZone::OwnPenaltyArea ==> res == 0,
            *self == FieldZone::OwnHalf ==> res == 1,
            *self == FieldZone::Midfield ==> res == 2,
            *self == FieldZone::OppHalf ==> res == 3,
            *self == FieldZone::OppPenaltyArea ==> res == 4,
    {
        match self {
            FieldZone::OwnPenaltyArea => 0,
            FieldZone::OwnHalf => 1,
            FieldZone::Midfield => 2,
            FieldZone::OppHalf => 3,
            FieldZone::OppPenaltyArea => 4,
        }
    }
}

/// Third of the pitch across its width.
#[derive(Clone, Copy, Debug, PartialEq, Eq, Structural)]
pub enum Corridor {
    Top,
    Middle,
    Bottom,
}

impl Corridor {
    /// Signed position of the corridor: -1 top, 0 middle, 1 bottom.
    pub fn index(&self) -> (res: i32)
        ensures
            *self == Corridor::Top ==> res == -1,
            *self == Corridor::Middle ==> res == 0,
            *self == Corridor::Bottom ==> res == 1,
    {
        match self {
            Corridor::Top => -1,
            Corridor::Middle => 0,
            Corridor::Bottom => 1,
        }
    }
}

} // verus!
