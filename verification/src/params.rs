//! Names of the tunable decision and spatial parameters, and the naming of parameter
//! sweeps and their combinations.

use vstd::prelude::*;
use crate::text::{chars_of, push_char, push_str, str_eq};
use crate::combos::texts;

verus! {

/// Short (snake_case) names of the decision parameters, in sweep order.
pub const DECISION_NAMES: [&'static str; 13] = [
    "pass_chance_pressured",
    "pass_chance_wing",
    "pass_chance_forward",
    "pass_chance_default",
    "shoot_progress_threshold",
    "tackle_chance",
    "forward_pass_min_gain",
    "mark_distance",
    "aggression",
    "risk_appetite",
    "pass_dir_offensive",
    "pass_dir_defensive",
    "pass_dir_neutral",
];

/// JSON (camelCase) field names of the decision parameters, in the order of [`DECISION_NAMES`].
pub const DECISION_JSON_FIELDS: [&'static str; 13] = [
    "passChancePressured",
    "passChanceWing",
    "passChanceForward",
    "passChanceDefault",
    "shootProgressThreshold",
    "tackleChance",
    "forwardPassMinGain",
    "markDistance",
    "aggression",
    "riskAppetite",
    "passDirOffensive",
    "passDirDefensive",
    "passDirNeutral",
];

/// Dot paths of the decision parameters, in the order of [`DECISION_NAMES`].
pub const DECISION_PATHS: [&'static str; 13] = [
    "decisions.pass_chance_pressured",
    "decisions.pass_chance_wing",
    "decisions.pass_chance_forward",
    "decisions.pass_chance_default",
    "decisions.shoot_progress_threshold",
    "decisions.tackle_chance",
    "decisions.forward_pass_min_gain",
    "decisions.mark_distance",
    "decisions.aggression",
    "decisions.risk_appetite",
    "decisions.pass_dir_offensive",
    "decisions.pass_dir_defensive",
    "decisions.pass_dir_neutral",
];

/// Dot paths of the spatial parameters, in sweep order.
pub const SPATIAL_PATHS: [&'static str; 15] = [
    "spatial.own_goal.min",
    "spatial.own_goal.preferred",
    "spatial.own_goal.max",
    "spatial.side.min",
    "spatial.side.preferred",
    "spatial.side.max",
    "spatial.ball.min",
    "spatial.ball.preferred",
    "spatial.ball.max",
    "spatial.teammate.min",
    "spatial.teammate.preferred",
    "spatial.teammate.max",
    "spatial.opponent.min",
    "spatial.opponent.preferred",
    "spatial.opponent.max",
];

/// The short names of the decision parameters.
pub open spec fn decision_names() -> Seq<Seq<char>> {
    seq![
        "pass_chance_pressured"@,
        "pass_chance_wing"@,
        "pass_chance_forward"@,
        "pass_chance_default"@,
        "shoot_progress_threshold"@,
        "tackle_chance"@,
        "forward_pass_min_gain"@,
        "mark_distance"@,
        "aggression"@,
        "risk_appetite"@,
        "pass_dir_offensive"@,
        "pass_dir_defensive"@,
        "pass_dir_neutral"@,
    ]
}

/// Their JSON field names, position by position.
pub open spec fn decision_json_fields() -> Seq<Seq<char>> {
    seq![
        "passChancePressured"@,
        "passChanceWing"@,
        "passChanceForward"@,
        "passChanceDefault"@,
        "shootProgressThreshold"@,
        "tackleChance"@,
        "forwardPassMinGain"@,
        "markDistance"@,
        "aggression"@,
        "riskAppetite"@,
        "passDirOffensive"@,
        "passDirDefensive"@,
        "passDirNeutral"@,
    ]
}

/// Their dot paths, position by position.
pub open spec fn decision_paths() -> Seq<Seq<char>> {
    seq![
        "decisions.pass_chance_pressured"@,
        "decisions.pass_chance_wing"@,
        "decisions.pass_chance_forward"@,
        "decisions.pass_chance_default"@,
        "decisions.shoot_progress_threshold"@,
        "decisions.tackle_chance"@,
        "decisions.forward_pass_min_gain"@,
        "decisions.mark_distance"@,
        "decisions.aggression"@,
        "decisions.risk_appetite"@,
        "decisions.pass_dir_offensive"@,
        "decisions.pass_dir_defensive"@,
        "decisions.pass_dir_neutral"@,
    ]
}

/// Dot paths of the spatial parameters.
pub open spec fn spatial_paths() -> Seq<Seq<char>> {
    seq![
        "spatial.own_goal.min"@,
        "spatial.own_goal.preferred"@,
        "spatial.own_goal.max"@,
        "spatial.side.min"@,
        "spatial.side.preferred"@,
        "spatial.side.max"@,
        "spatial.ball.min"@,
        "spatial.ball.preferred"@,
        "spatial.ball.max"@,
        "spatial.teammate.min"@,
        "spatial.teammate.preferred"@,
        "spatial.teammate.max"@,
        "spatial.opponent.min"@,
        "spatial.opponent.preferred"@,
        "spatial.opponent.max"@,
    ]
}

/// Position of the first occurrence of `p` in `names`.
pub open spec fn position_in(names: Seq<Seq<char>>, p: Seq<char>) -> Option<int>
    decreases names.len(),
{
    if names.len() == 0 {
        None
    } else if names[0] == p {
        Some(0)
    } else {
        match position_in(names.drop_first(), p) {
            Some(k) => Some(k + 1),
            None => None,
        }
    }
}

proof fn lemma_position_in_bounds(names: Seq<Seq<char>>, p: Seq<char>)
    ensures
        position_in(names, p) matches Some(k) ==> 0 <= k < names.len() && names[k] == p,
        position_in(names, p) is None ==> !names.contains(p),
    decreases names.len(),
{
    if names.len() > 0 {
        lemma_position_in_bounds(names.drop_first(), p);
        if position_in(names, p) is None {
            assert forall|k: int| 0 <= k < names.len() implies names[k] != p by {
                if k > 0 {
                    assert(names.drop_first()[k - 1] == names[k]);
                }
            }
        }
    }
}

/// Position of `name` among the decision parameters' short names.
fn decision_position(name: &str) -> (res: Option<usize>)
    ensures
        res matches Some(k) ==> position_in(decision_names(), name@) == Some(k as int),
        res is None ==> position_in(decision_names(), name@) is None,
{
    let mut i: usize = 0;
    proof {
        assert(decision_names().skip(0) =~= decision_names());
    }
    while i < 13
        invariant
            i <= 13,
            forall|k: int| 0 <= k < 13 ==> (#[trigger] DECISION_NAMES@[k])@ == decision_names()[k],
            position_in(decision_names(), name@) == match position_in(decision_names().skip(i as int), name@) {
                Some(k) => Some(k + i),
                None => None::<int>,
            },
        decreases 13 - i,
    {
        proof {
            let rest = decision_names().skip(i as int);
            assert(rest[0] == decision_names()[i as int]);
            assert(rest.drop_first() =~= decision_names().skip(i + 1));
        }
        if str_eq(name, DECISION_NAMES[i]) {
            return Some(i);
        }
        i = i + 1;
    }
    proof {
        assert(decision_names().skip(13) =~= Seq::<Seq<char>>::empty());
    }
    None
}

/// JSON field name of a decision parameter given by its short name.
pub open spec fn json_field_of(p: Seq<char>) -> Option<Seq<char>> {
    match position_in(decision_names(), p) {
        Some(k) => Some(decision_json_fields()[k]),
        None => None,
    }
}

/// Dot path of a decision parameter given by its short name.
pub open spec fn full_path_of(p: Seq<char>) -> Option<Seq<char>> {
    match position_in(decision_names(), p) {
        Some(k) => Some(decision_paths()[k]),
        None => None,
    }
}

/// JSON (camelCase) field name of a decision parameter, e.g. `mark_distance` →
/// `markDistance`. Only the thirteen decision parameters have one.
pub fn decision_json_field(param: &str) -> (res: &'static str)
    requires
        json_field_of(param@) is Some,
    ensures
        res@ == json_field_of(param@)->0,
{
    let k = decision_position(param).unwrap();
    proof {
        lemma_position_in_bounds(decision_names(), param@);
        assert(DECISION_JSON_FIELDS@[k as int]@ == decision_json_fields()[k as int]);
    }
    DECISION_JSON_FIELDS[k]
}

/// Dot path of a decision parameter, e.g. `pass_chance_pressured` →
/// `decisions.pass_chance_pressured`.
pub fn decision_full_path(short: &str) -> (res: &'static str)
    requires
        full_path_of(short@) is Some,
    ensures
        res@ == full_path_of(short@)->0,
{
    let k = decision_position(short).unwrap();
    proof {
        lemma_position_in_bounds(decision_names(), short@);
        assert(DECISION_PATHS@[k as int]@ == decision_paths()[k as int]);
    }
    DECISION_PATHS[k]
}

/// Every decision parameter's dot path is `decisions.` followed by its short name.
pub proof fn lemma_full_path_prefixes(p: Seq<char>)
    requires
        full_path_of(p) is Some,
    ensures
        json_field_of(p) is Some,
        full_path_of(p)->0 == "decisions."@ + p,
{
    lemma_position_in_bounds(decision_names(), p);
    reveal_strlit("decisions.");
    reveal_strlit("pass_chance_pressured");
    reveal_strlit("decisions.pass_chance_pressured");
    reveal_strlit("pass_chance_wing");
    reveal_strlit("decisions.pass_chance_wing");
    reveal_strlit("pass_chance_forward");
    reveal_strlit("decisions.pass_chance_forward");
    reveal_strlit("pass_chance_default");
    reveal_strlit("decisions.pass_chance_default");
    reveal_strlit("shoot_progress_threshold");
    reveal_strlit("decisions.shoot_progress_threshold");
    reveal_strlit("tackle_chance");
    reveal_strlit("decisions.tackle_chance");
    reveal_strlit("forward_pass_min_gain");
    reveal_strlit("decisions.forward_pass_min_gain");
    reveal_strlit("mark_distance");
    reveal_strlit("decisions.mark_distance");
    reveal_strlit("aggression");
    reveal_strlit("decisions.aggression");
    reveal_strlit("risk_appetite");
    reveal_strlit("decisions.risk_appetite");
    reveal_strlit("pass_dir_offensive");
    reveal_strlit("decisions.pass_dir_offensive");
    reveal_strlit("pass_dir_defensive");
    reveal_strlit("decisions.pass_dir_defensive");
    reveal_strlit("pass_dir_neutral");
    reveal_strlit("decisions.pass_dir_neutral");
    let k = position_in(decision_names(), p)->0;
    assert(decision_paths()[k] =~= "decisions."@ + decision_names()[k]);
}

/// The texts of a sequence of string slices.
pub open spec fn views(s: Seq<&'static str>) -> Seq<Seq<char>> {
    s.map_values(|p: &'static str| p@)
}

/// Which parameters a sweep or optimisation covers.
#[derive(Clone, Copy, Debug, PartialEq, Eq, Structural)]
pub enum ParamScope {
    Decision,
    Spatial,
    All,
}

/// Dot paths of the parameters in a scope: decision ones first, then spatial ones.
pub open spec fn scope_paths(scope: ParamScope) -> Seq<Seq<char>> {
    match scope {
        ParamScope::Decision => decision_paths(),
        ParamScope::Spatial => spatial_paths(),
        ParamScope::All => decision_paths() + spatial_paths(),
    }
}

/// Scope named by `s`: `spatial`/`Spatial`, `all`/`All`, anything else means decision.
pub open spec fn scope_named(s: Seq<char>) -> ParamScope {
    if s == "spatial"@ || s == "Spatial"@ {
        ParamScope::Spatial
    } else if s == "all"@ || s == "All"@ {
        ParamScope::All
    } else {
        ParamScope::Decision
    }
}

/// Lower-case name of a scope.
pub open spec fn scope_label(scope: ParamScope) -> Seq<char> {
    match scope {
        ParamScope::Decision => "decision"@,
        ParamScope::Spatial => "spatial"@,
        ParamScope::All => "all"@,
    }
}

impl ParamScope {
    /// Reads a scope from a command-line word (see [`scope_named`]).
    pub fn parse(s: &str) -> (res: ParamScope)
        ensures
            res == scope_named(s@),
    {
        if str_eq(s, "spatial") || str_eq(s, "Spatial") {
            ParamScope::Spatial
        } else if str_eq(s, "all") || str_eq(s, "All") {
            ParamScope::All
        } else {
            ParamScope::Decision
        }
    }

    /// Lower-case name of the scope, as used in folder names.
    pub fn label(self) -> (res: &'static str)
        ensures
            res@ == scope_label(self),
    {
        match self {
            ParamScope::Decision => "decision",
            ParamScope::Spatial => "spatial",
            ParamScope::All => "all",
        }
    }

    /// Dot paths of the parameters in the scope, in sweep order (see [`scope_paths`]).
    pub fn param_paths(self) -> (res: Vec<&'static str>)
        ensures
            views(res@) == scope_paths(self),
    {
        let mut out: Vec<&'static str> = Vec::new();
        if self == ParamScope::Decision || self == ParamScope::All {
            let mut i: usize = 0;
            while i < 13
                invariant
                    i <= 13,
                    views(out@) == decision_paths().take(i as int),
                decreases 13 - i,
            {
                proof {
                    assert(DECISION_PATHS@[i as int]@ == decision_paths()[i as int]);
                }
                let ghost prev = out@;
                out.push(DECISION_PATHS[i]);
                proof {
                    assert(views(out@) =~= views(prev).push(DECISION_PATHS@[i as int]@));
                    assert(views(out@) =~= decision_paths().take(i + 1));
                }
                i = i + 1;
            }
            proof {
                assert(decision_paths().take(13) =~= decision_paths());
            }
        }
        let ghost mid = out@;
        if self == ParamScope::Spatial || self == ParamScope::All {
            let mut i: usize = 0;
            while i < 15
                invariant
                    i <= 15,
                    views(out@) == views(mid) + spatial_paths().take(i as int),
                decreases 15 - i,
            {
                proof {
                    assert(SPATIAL_PATHS@[i as int]@ == spatial_paths()[i as int]);
                }
                let ghost prev = out@;
                out.push(SPATIAL_PATHS[i]);
                proof {
                    assert(views(out@) =~= views(prev).push(SPATIAL_PATHS@[i as int]@));
                    assert(views(out@) =~= views(mid) + spatial_paths().take(i + 1));
                }
                i = i + 1;
            }
            proof {
                assert(spatial_paths().take(15) =~= spatial_paths());
            }
        }
        proof {
            assert(views(out@) =~= scope_paths(self));
        }
        out
    }
}

/// Round trip: the label of a scope reads back as that scope.
pub proof fn lemma_parse_label(scope: ParamScope)
    ensures
        scope_named(scope_label(scope)) == scope,
{
    reveal_strlit("decision");
    reveal_strlit("spatial");
    reveal_strlit("Spatial");
    reveal_strlit("all");
    reveal_strlit("All");
    assert("decision"@.len() == 8);
    assert("spatial"@.len() == 7);
    assert("Spatial"@.len() == 7);
    assert("all"@.len() == 3);
    assert("All"@.len() == 3);
    assert("spatial"@[0] != "Spatial"@[0]);
    assert("all"@[0] != "All"@[0]);
}

/// The pieces of `s` between dots (`a.b.` gives `a`, `b` and an empty piece).
pub open spec fn split_dots(s: Seq<char>) -> Seq<Seq<char>>
    decreases s.len(),
{
    if s.len() == 0 {
        seq![Seq::empty()]
    } else {
        let rest = split_dots(s.drop_last());
        if s.last() == '.' {
            rest.push(Seq::empty())
        } else {
            rest.update(rest.len() - 1, rest.last().push(s.last()))
        }
    }
}

proof fn lemma_split_nonempty(s: Seq<char>)
    ensures
        split_dots(s).len() >= 1,
    decreases s.len(),
{
    if s.len() > 0 {
        lemma_split_nonempty(s.drop_last());
    }
}

/// JSON field name of a spatial dimension.
pub open spec fn dim_json_name(d: Seq<char>) -> Option<Seq<char>> {
    if d == "own_goal"@ {
        Some("ownGoal"@)
    } else if d == "side"@ {
        Some("side"@)
    } else if d == "ball"@ {
        Some("ball"@)
    } else if d == "teammate"@ {
        Some("teammate"@)
    } else if d == "opponent"@ {
        Some("opponent"@)
    } else {
        None
    }
}

/// Whether the JSON keys of dot path `p` are defined: a two-piece path under
/// `decisions` must name a decision parameter.
pub open spec fn json_path_defined(p: Seq<char>) -> bool {
    let parts = split_dots(p);
    (parts.len() == 2 && parts[0] == "decisions"@) ==> json_field_of(parts[1]) is Some
}

/// The keys under which a slot's JSON object stores the parameter with dot path `p`:
/// `decisions.<name>` is found under `decisions` and the camelCase name,
/// `spatial.<dimension>.<bound>` under `spatial`, the camelCase dimension and the bound.
/// Any other path has none.
pub open spec fn json_key_path(p: Seq<char>) -> Option<Seq<Seq<char>>> {
    let parts = split_dots(p);
    if parts.len() == 2 && parts[0] == "decisions"@ {
        match json_field_of(parts[1]) {
            Some(f) => Some(seq!["decisions"@, f]),
            None => None,
        }
    } else if parts.len() == 3 && parts[0] == "spatial"@ {
        match dim_json_name(parts[1]) {
            Some(d) => Some(seq!["spatial"@, d, parts[2]]),
            None => None,
        }
    } else {
        None
    }
}

fn split_dots_exec(s: &str) -> (res: Vec<String>)
    ensures
        texts(res@) == split_dots(s@),
{
    let v = chars_of(s);
    let mut pieces: Vec<String> = Vec::new();
    let mut current = String::new();
    let mut i: usize = 0;
    proof {
        assert(v@.take(0) =~= Seq::<char>::empty());
        assert(texts(pieces@).push(current@) =~= seq![Seq::<char>::empty()]);
    }
    while i < v.len()
        invariant
            v@ == s@,
            i <= v@.len(),
            texts(pieces@).push(current@) == split_dots(v@.take(i as int)),
        decreases v@.len() - i,
    {
        let c = v[i];
        let ghost before = v@.take(i as int);
        proof {
            assert(v@.take(i + 1).drop_last() =~= before);
            assert(v@.take(i + 1).last() == c);
            lemma_split_nonempty(before);
        }
        if c == '.' {
            let ghost old_pieces = pieces@;
            let done = current;
            pieces.push(done);
            current = String::new();
            proof {
                assert(texts(pieces@) =~= texts(old_pieces).push(done@));
                assert(texts(pieces@).push(current@) =~= split_dots(v@.take(i + 1)));
            }
        } else {
            let ghost old_current = current@;
            push_char(&mut current, c);
            proof {
                let rest = split_dots(before);
                assert(rest.last() == old_current);
                assert(texts(pieces@).push(current@) =~= rest.update(rest.len() - 1, old_current.push(c)));
            }
        }
        i = i + 1;
    }
    proof {
        assert(v@.take(i as int) =~= v@);
    }
    let ghost old_pieces = pieces@;
    let last = current;
    pieces.push(last);
    proof {
        assert(texts(pieces@) =~= texts(old_pieces).push(last@));
    }
    pieces
}

fn owned(s: &str) -> (res: String)
    ensures
        res@ == s@,
{
    let mut out = String::new();
    push_str(&mut out, s);
    proof {
        assert(out@ =~= s@);
    }
    out
}

fn dim_json_name_exec(d: &str) -> (res: Option<&'static str>)
    ensures
        res is Some <==> dim_json_name(d@) is Some,
        res is Some ==> res->0@ == dim_json_name(d@)->0,
{
    if str_eq(d, "own_goal") {
        Some("ownGoal")
    } else if str_eq(d, "side") {
        Some("side")
    } else if str_eq(d, "ball") {
        Some("ball")
    } else if str_eq(d, "teammate") {
        Some("teammate")
    } else if str_eq(d, "opponent") {
        Some("opponent")
    } else {
        None
    }
}

/// The JSON keys of the parameter with dot path `dot_path` in a slot's JSON object
/// (see [`json_key_path`]), or `None` for a path that has none.
pub fn json_keys_of(dot_path: &str) -> (res: Option<Vec<String>>)
    requires
        json_path_defined(dot_path@),
    ensures
        res is None <==> json_key_path(dot_path@) is None,
        res matches Some(v) ==> json_key_path(dot_path@) == Some(texts(v@)),
{
    let parts = split_dots_exec(dot_path);
    proof {
        assert(texts(parts@).len() == parts@.len());
    }
    if parts.len() == 2 && str_eq(parts[0].as_str(), "decisions") {
        proof {
            assert(texts(parts@)[0] == parts@[0]@);
            assert(texts(parts@)[1] == parts@[1]@);
        }
        let field = decision_json_field(parts[1].as_str());
        let out = vec![owned("decisions"), owned(field)];
        proof {
            assert(texts(out@) =~= seq!["decisions"@, field@]);
        }
        Some(out)
    } else if parts.len() == 3 && str_eq(parts[0].as_str(), "spatial") {
        proof {
            assert(texts(parts@)[0] == parts@[0]@);
            assert(texts(parts@)[1] == parts@[1]@);
            assert(texts(parts@)[2] == parts@[2]@);
        }
        match dim_json_name_exec(parts[1].as_str()) {
            Some(d) => {
                let out = vec![owned("spatial"), owned(d), owned(parts[2].as_str())];
                proof {
                    assert(texts(out@) =~= seq!["spatial"@, d@, parts@[2]@]);
                }
                Some(out)
            },
            None => None,
        }
    } else {
        proof {
            if parts.len() == 2 {
                assert(texts(parts@)[0] == parts@[0]@);
            }
            if parts.len() == 3 {
                assert(texts(parts@)[0] == parts@[0]@);
            }
        }
        None
    }
}

/// Upper case of an ASCII lower-case letter; any other character as it is.
pub open spec fn ascii_upper(c: char) -> char {
    if 'a' <= c && c <= 'z' { ((c as u32) - 32) as char } else { c }
}

/// snake_case to camelCase: every '_' is dropped and the letter after it is capitalised.
pub open spec fn snake_to_camel(s: Seq<char>) -> Seq<char>
    decreases s.len(),
{
    if s.len() == 0 {
        s
    } else if s[0] == '_' && s.len() >= 2 {
        seq![ascii_upper(s[1])] + snake_to_camel(s.subrange(2, s.len() as int))
    } else {
        seq![s[0]] + snake_to_camel(s.drop_first())
    }
}

proof fn lemma_camel_pass_chance_pressured()
    ensures
        snake_to_camel("pass_chance_pressured"@) == "passChancePressured"@,
{
    reveal_strlit("pass_chance_pressured");
    reveal_strlit("passChancePressured");
    reveal_with_fuel(snake_to_camel, 25);
    assert(snake_to_camel("pass_chance_pressured"@) =~= "passChancePressured"@);
}

proof fn lemma_camel_pass_chance_wing()
    ensures
        snake_to_camel("pass_chance_wing"@) == "passChanceWing"@,
{
    reveal_strlit("pass_chance_wing");
    reveal_strlit("passChanceWing");
    reveal_with_fuel(snake_to_camel, 25);
    assert(snake_to_camel("pass_chance_wing"@) =~= "passChanceWing"@);
}

proof fn lemma_camel_pass_chance_forward()
    ensures
        snake_to_camel("pass_chance_forward"@) == "passChanceForward"@,
{
    reveal_strlit("pass_chance_forward");
    reveal_strlit("passChanceForward");
    reveal_with_fuel(snake_to_camel, 25);
    assert(snake_to_camel("pass_chance_forward"@) =~= "passChanceForward"@);
}

proof fn lemma_camel_pass_chance_default()
    ensures
        snake_to_camel("pass_chance_default"@) == "passChanceDefault"@,
{
    reveal_strlit("pass_chance_default");
    reveal_strlit("passChanceDefault");
    reveal_with_fuel(snake_to_camel, 25);
    assert(snake_to_camel("pass_chance_default"@) =~= "passChanceDefault"@);
}

proof fn lemma_camel_shoot_progress_threshold()
    ensures
        snake_to_camel("shoot_progress_threshold"@) == "shootProgressThreshold"@,
{
    reveal_strlit("shoot_progress_threshold");
    reveal_strlit("shootProgressThreshold");
    reveal_with_fuel(snake_to_camel, 25);
    assert(snake_to_camel("shoot_progress_threshold"@) =~= "shootProgressThreshold"@);
}

proof fn lemma_camel_tackle_chance()
    ensures
        snake_to_camel("tackle_chance"@) == "tackleChance"@,
{
    reveal_strlit("tackle_chance");
    reveal_strlit("tackleChance");
    reveal_with_fuel(snake_to_camel, 25);
    assert(snake_to_camel("tackle_chance"@) =~= "tackleChance"@);
}

proof fn lemma_camel_forward_pass_min_gain()
    ensures
        snake_to_camel("forward_pass_min_gain"@) == "forwardPassMinGain"@,
{
    reveal_strlit("forward_pass_min_gain");
    reveal_strlit("forwardPassMinGain");
    reveal_with_fuel(snake_to_camel, 25);
    assert(snake_to_camel("forward_pass_min_gain"@) =~= "forwardPassMinGain"@);
}

proof fn lemma_camel_mark_distance()
    ensures
        snake_to_camel("mark_distance"@) == "markDistance"@,
{
    reveal_strlit("mark_distance");
    reveal_strlit("markDistance");
    reveal_with_fuel(snake_to_camel, 25);
    assert(snake_to_camel("mark_distance"@) =~= "markDistance"@);
}

proof fn lemma_camel_aggression()
    ensures
        snake_to_camel("aggression"@) == "aggression"@,
{
    reveal_strlit("aggression");
    reveal_strlit("aggression");
    reveal_with_fuel(snake_to_camel, 25);
    assert(snake_to_camel("aggression"@) =~= "aggression"@);
}

proof fn lemma_camel_risk_appetite()
    ensures
        snake_to_camel("risk_appetite"@) == "riskAppetite"@,
{
    reveal_strlit("risk_appetite");
    reveal_strlit("riskAppetite");
    reveal_with_fuel(snake_to_camel, 25);
    assert(snake_to_camel("risk_appetite"@) =~= "riskAppetite"@);
}

proof fn lemma_camel_pass_dir_offensive()
    ensures
        snake_to_camel("pass_dir_offensive"@) == "passDirOffensive"@,
{
    reveal_strlit("pass_dir_offensive");
    reveal_strlit("passDirOffensive");
    reveal_with_fuel(snake_to_camel, 25);
    assert(snake_to_camel("pass_dir_offensive"@) =~= "passDirOffensive"@);
}

proof fn lemma_camel_pass_dir_defensive()
    ensures
        snake_to_camel("pass_dir_defensive"@) == "passDirDefensive"@,
{
    reveal_strlit("pass_dir_defensive");
    reveal_strlit("passDirDefensive");
    reveal_with_fuel(snake_to_camel, 25);
    assert(snake_to_camel("pass_dir_defensive"@) =~= "passDirDefensive"@);
}

proof fn lemma_camel_pass_dir_neutral()
    ensures
        snake_to_camel("pass_dir_neutral"@) == "passDirNeutral"@,
{
    reveal_strlit("pass_dir_neutral");
    reveal_strlit("passDirNeutral");
    reveal_with_fuel(snake_to_camel, 25);
    assert(snake_to_camel("pass_dir_neutral"@) =~= "passDirNeutral"@);
}

/// Naming law: the JSON field name of each decision parameter is its short name
/// turned from snake_case into camelCase.
pub proof fn lemma_json_fields_are_camel_case()
    ensures
        forall|k: int| 0 <= k < 13 ==> #[trigger] decision_json_fields()[k] == snake_to_camel(decision_names()[k]),
{
    lemma_camel_pass_chance_pressured();
    lemma_camel_pass_chance_wing();
    lemma_camel_pass_chance_forward();
    lemma_camel_pass_chance_default();
    lemma_camel_shoot_progress_threshold();
    lemma_camel_tackle_chance();
    lemma_camel_forward_pass_min_gain();
    lemma_camel_mark_distance();
    lemma_camel_aggression();
    lemma_camel_risk_appetite();
    lemma_camel_pass_dir_offensive();
    lemma_camel_pass_dir_defensive();
    lemma_camel_pass_dir_neutral();
    assert forall|k: int| 0 <= k < 13 implies #[trigger] decision_json_fields()[k] == snake_to_camel(decision_names()[k]) by {
        assert(decision_names()[k] == decision_names()[k]);
    }
}

} // verus!
