//! The league's teams: folder names, coach descriptions, and which of them a population
//! run trains.

use vstd::prelude::*;
use crate::text::str_eq;
use crate::params::position_in;

verus! {

/// Folder names of the league's teams.
pub const TEAM_NAMES: [&'static str; 10] = [
    "aurora-fc",
    "granite-athletic",
    "phoenix-rovers",
    "tempest-united",
    "mirage-sc",
    "eclipse-town",
    "catalyst-city",
    "vortex-galaxy",
    "glacier-fc",
    "nebula-rangers",
];

/// Coach descriptions of the teams, in the order of [`TEAM_NAMES`].
pub const TEAM_DESCRIPTIONS: [&'static str; 10] = [
    "Aurora FC — graceful and fluid",
    "Granite Athletic — solid and robust",
    "Phoenix Rovers — energetic, comeback-prone",
    "Tempest United — stormy, chaotic press",
    "Mirage SC — deceptive, unpredictable",
    "Eclipse Town — dark horse, counter-attack",
    "Catalyst City — fast transitions",
    "Vortex Galaxy — possession circulation",
    "Glacier FC — slow but inevitable",
    "Nebula Rangers — diffuse, exploratory",
];

/// The team folder names.
pub open spec fn team_names() -> Seq<Seq<char>> {
    seq![
        "aurora-fc"@,
        "granite-athletic"@,
        "phoenix-rovers"@,
        "tempest-united"@,
        "mirage-sc"@,
        "eclipse-town"@,
        "catalyst-city"@,
        "vortex-galaxy"@,
        "glacier-fc"@,
        "nebula-rangers"@,
    ]
}

/// The team descriptions, position by position.
pub open spec fn team_descriptions() -> Seq<Seq<char>> {
    seq![
        "Aurora FC — graceful and fluid"@,
        "Granite Athletic — solid and robust"@,
        "Phoenix Rovers — energetic, comeback-prone"@,
        "Tempest United — stormy, chaotic press"@,
        "Mirage SC — deceptive, unpredictable"@,
        "Eclipse Town — dark horse, counter-attack"@,
        "Catalyst City — fast transitions"@,
        "Vortex Galaxy — possession circulation"@,
        "Glacier FC — slow but inevitable"@,
        "Nebula Rangers — diffuse, exploratory"@,
    ]
}

/// Description of the team named `name`, or `name` itself for a team outside the league.
pub open spec fn team_desc_of(name: Seq<char>) -> Seq<char> {
    match position_in(team_names(), name) {
        Some(k) => team_descriptions()[k],
        None => name,
    }
}

/// Looks up the coach description of a team by its folder name; falls back to the name.
pub fn lookup_team_desc(team_name: &str) -> (res: &str)
    ensures
        res@ == team_desc_of(team_name@),
{
    let mut i: usize = 0;
    proof {
        assert(team_names().skip(0) =~= team_names());
    }
    while i < 10
        invariant
            i <= 10,
            forall|k: int| 0 <= k < 10 ==> (#[trigger] TEAM_NAMES@[k])@ == team_names()[k],
            forall|k: int| 0 <= k < 10 ==> (#[trigger] TEAM_DESCRIPTIONS@[k])@ == team_descriptions()[k],
            position_in(team_names(), team_name@) == match position_in(team_names().skip(i as int), team_name@) {
                Some(k) => Some(k + i),
                None => None::<int>,
            },
        decreases 10 - i,
    {
        proof {
            let rest = team_names().skip(i as int);
            assert(rest[0] == team_names()[i as int]);
            assert(rest.drop_first() =~= team_names().skip(i + 1));
        }
        if str_eq(team_name, TEAM_NAMES[i]) {
            return TEAM_DESCRIPTIONS[i];
        }
        i = i + 1;
    }
    proof {
        assert(team_names().skip(10) =~= Seq::<Seq<char>>::empty());
    }
    team_name
}

/// Positions `[start, end)` in [`TEAM_NAMES`] of the teams a population run trains: it
/// skips `skip` teams and takes up to `num_teams` of the rest.
pub fn population_range(skip: usize, num_teams: usize) -> (res: (usize, usize))
    requires
        (if skip < 10 { skip } else { 10 }) + num_teams <= usize::MAX,
    ensures
        res.0 == (if skip < 10 { skip } else { 10 }),
        res.1 == (if res.0 + num_teams < 10 { res.0 + num_teams } else { 10 }),
        res.0 <= res.1 <= 10,
{
    let start = if skip < 10 { skip } else { 10 };
    let end = if num_teams < 10 - start { start + num_teams } else { 10 };
    (start, end)
}

} // verus!
