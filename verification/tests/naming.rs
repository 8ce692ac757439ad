use training_engine::anneal::{
    advance_threshold, continuation_prefix, should_log_epoch, stage_session_name, variant_label,
    variant_stages, AnnealProgress, AnnealVariant, ScaleChange, SingleStageMode,
};
use training_engine::combos::{
    combo_label, join_with, mask_binary, mask_selection, param_folder_name, remaining_params,
    trim_start_copies,
};
use training_engine::matrix::{format_thousands, hex_color};
use training_engine::params::{decision_full_path, decision_json_field, json_keys_of, ParamScope};
use training_engine::sessions::{epoch_name, numeric_session_sort, order_by_name, SessionWriter};
use training_engine::teams::{lookup_team_desc, population_range};
use training_engine::text::u64_to_decimal;

fn strings(v: &[&str]) -> Vec<String> {
    v.iter().map(|s| s.to_string()).collect()
}

#[test]
fn decimal_text() {
    assert_eq!(u64_to_decimal(0), "0");
    assert_eq!(u64_to_decimal(907), "907");
    assert_eq!(u64_to_decimal(u64::MAX), "18446744073709551615");
}

#[test]
fn session_sort_uses_trailing_numbers() {
    let mut v = strings(&["session-10", "session-2", "session-1"]);
    numeric_session_sort(&mut v);
    assert_eq!(v, strings(&["session-1", "session-2", "session-10"]));
}

#[test]
fn session_sort_groups_by_prefix() {
    let mut v = strings(&["b", "a10", "a9", "epoch-3", "a"]);
    numeric_session_sort(&mut v);
    assert_eq!(v, strings(&["a", "a9", "a10", "b", "epoch-3"]));
}

#[test]
fn session_sort_keeps_duplicates() {
    let mut v = strings(&["x2", "x1", "x2"]);
    numeric_session_sort(&mut v);
    assert_eq!(v, strings(&["x1", "x2", "x2"]));
}

#[test]
fn order_by_name_is_stable_and_sorted() {
    let names = strings(&["mirage-sc", "aurora-fc", "glacier-fc", "aurora-fc"]);
    assert_eq!(order_by_name(&names), vec![1, 3, 2, 0]);
    assert_eq!(order_by_name(&Vec::new()), Vec::<usize>::new());
}

#[test]
fn epoch_names_are_zero_padded() {
    assert_eq!(epoch_name(7), "epoch-007");
    assert_eq!(epoch_name(123), "epoch-123");
    assert_eq!(epoch_name(1234), "epoch-1234");
}

#[test]
fn session_writer_keeps_name_and_dir() {
    let w = SessionWriter::from_parts(std::path::PathBuf::from("/tmp/sessions/s1"), "s1");
    assert_eq!(w.session_name(), "s1");
    assert_eq!(w.session_dir(), std::path::Path::new("/tmp/sessions/s1"));
}

#[test]
fn anneal_schedules() {
    assert_eq!(variant_stages(AnnealVariant::Quick), &[(50, 500), (20, 5000), (5, 50000)]);
    assert_eq!(variant_stages(AnnealVariant::Short), &[(500, 500), (200, 5000), (50, 50000)]);
    assert_eq!(
        variant_stages(AnnealVariant::Full),
        &[(10000, 100), (2000, 1000), (500, 10000), (100, 1_000_000)]
    );
    assert_eq!(variant_label(AnnealVariant::Quick), "QUICK");
    assert_eq!(variant_label(AnnealVariant::Short), "SHORT");
    assert_eq!(variant_label(AnnealVariant::Full), "FULL");
}

#[test]
fn stage_and_continuation_names() {
    assert_eq!(stage_session_name("", 0, 50, 500), "anneal-stage-1-50ep-500g");
    assert_eq!(stage_session_name("s2-", 2, 5, 50000), "s2-anneal-stage-3-5ep-50000g");
    assert_eq!(continuation_prefix(2), "s2-");
}

#[test]
fn single_stage_mode_texts() {
    let full = SingleStageMode::Full;
    let slot = SingleStageMode::SlotOnly(2);
    let gk = SingleStageMode::GkOnly;
    assert_eq!(full.folder_name(), "single-stage");
    assert_eq!(slot.folder_name(), "single-stage-slot2");
    assert_eq!(gk.folder_name(), "single-stage-gk");
    assert_eq!(full.slot_filter(), None);
    assert_eq!(slot.slot_filter(), Some(2));
    assert_eq!(gk.slot_filter(), Some(4));
    assert_eq!(full.description("aurora-fc", 100, 500), "aurora-fc: single-stage 100×500");
    assert_eq!(slot.description("aurora-fc", 10, 50), "aurora-fc: single-stage slot 2 (mid-bot) 10×50");
    assert_eq!(gk.description("aurora-fc", 3, 4), "aurora-fc: single-stage GK-only 3×4");
    assert_eq!(full.training_method(), "single-stage-anneal");
    assert_eq!(slot.training_method(), "single-stage-slot-2");
    assert_eq!(gk.training_method(), "single-stage-gk-only");
    assert_eq!(full.mode_label(), "single-stage");
    assert_eq!(slot.mode_label(), "single-stage SLOT-2");
    assert_eq!(gk.mode_label(), "single-stage GK-ONLY");
}

#[test]
fn epoch_logging_schedule() {
    assert!(should_log_epoch(1, 100));
    assert!(should_log_epoch(5, 100));
    assert!(!should_log_epoch(6, 100));
    assert!(should_log_epoch(30, 100));
    assert!(should_log_epoch(97, 97));
    assert!(!should_log_epoch(97, 100));
}

#[test]
fn anneal_progress_shrinks_every_twentieth_rejection() {
    let mut p = AnnealProgress::new();
    for epoch in 1..20 {
        assert_eq!(p.record(epoch, false), ScaleChange::Keep);
    }
    assert_eq!(p.record(20, false), ScaleChange::Shrink);
    assert_eq!(p.rejection_streak, 20);
    assert!(p.should_advance(20));
    assert!(!p.should_advance(21));
    assert_eq!(p.record(21, true), ScaleChange::Grow);
    assert_eq!(p.champion_epoch, 21);
    assert_eq!(p.rejection_streak, 0);
    assert_eq!(p.accepted_count, 1);
}

#[test]
fn advance_threshold_is_tenth_but_at_least_fifty() {
    assert_eq!(advance_threshold(100), 50);
    assert_eq!(advance_threshold(505), 50);
    assert_eq!(advance_threshold(10000), 1000);
    assert_eq!(advance_threshold(519), 51);
}

#[test]
fn param_folder_names() {
    assert_eq!(param_folder_name("decisions.pass_chance_wing"), "decisions__pass_chance_wing");
    assert_eq!(param_folder_name("spatial.ball.min"), "spatial__ball__min");
    assert_eq!(param_folder_name("plain"), "plain");
}

#[test]
fn trim_start_removes_every_copy() {
    assert_eq!(trim_start_copies("decisions.tackle_chance", "decisions."), "tackle_chance");
    assert_eq!(trim_start_copies("ababc", "ab"), "c");
    assert_eq!(trim_start_copies("abc", ""), "abc");
    assert_eq!(trim_start_copies("xabc", "ab"), "xabc");
}

#[test]
fn remaining_params_skips_locked() {
    let all: Vec<&'static str> = vec!["a.x", "a.y", "a.z"];
    let locked = strings(&["a.y"]);
    assert_eq!(remaining_params(&all, &locked), vec!["a.x", "a.z"]);
    assert_eq!(remaining_params(&all, &Vec::new()), all);
}

#[test]
fn mask_selects_set_bits() {
    let items = strings(&["a", "b", "c"]);
    assert_eq!(mask_selection(&items, 5), strings(&["a", "c"]));
    assert_eq!(mask_selection(&items, 0), Vec::<String>::new());
    assert_eq!(mask_selection(&items, 7), items);
}

#[test]
fn labels_of_combinations() {
    assert_eq!(join_with(&strings(&["x", "y", "z"]), ", "), "x, y, z");
    assert_eq!(join_with(&Vec::new(), ", "), "");
    assert_eq!(combo_label(&Vec::new(), "original"), "original");
    assert_eq!(combo_label(&strings(&["x", "y"]), "original"), "x+y");
}

#[test]
fn binary_masks_are_padded() {
    assert_eq!(mask_binary(5, 4), "0101");
    assert_eq!(mask_binary(0, 3), "000");
    assert_eq!(mask_binary(5, 2), "101");
    assert_eq!(mask_binary(0, 0), "0");
}

#[test]
fn decision_param_names() {
    assert_eq!(decision_json_field("tackle_chance"), "tackleChance");
    assert_eq!(decision_json_field("pass_dir_neutral"), "passDirNeutral");
    assert_eq!(decision_full_path("aggression"), "decisions.aggression");
}

#[test]
fn param_scopes() {
    assert_eq!(ParamScope::parse("Spatial"), ParamScope::Spatial);
    assert_eq!(ParamScope::parse("all"), ParamScope::All);
    assert_eq!(ParamScope::parse("whatever"), ParamScope::Decision);
    assert_eq!(ParamScope::Spatial.label(), "spatial");
    assert_eq!(ParamScope::parse(ParamScope::All.label()), ParamScope::All);
    let d = ParamScope::Decision.param_paths();
    let s = ParamScope::Spatial.param_paths();
    let a = ParamScope::All.param_paths();
    assert_eq!(d.len(), 13);
    assert_eq!(s.len(), 15);
    assert_eq!(a.len(), 28);
    assert_eq!(d[0], "decisions.pass_chance_pressured");
    assert_eq!(a[13], s[0]);
}

#[test]
fn team_descriptions() {
    assert_eq!(lookup_team_desc("glacier-fc"), "Glacier FC — slow but inevitable");
    assert_eq!(lookup_team_desc("aurora-fc"), "Aurora FC — graceful and fluid");
    assert_eq!(lookup_team_desc("unknown-team"), "unknown-team");
}

#[test]
fn population_ranges_are_clamped() {
    assert_eq!(population_range(3, 4), (3, 7));
    assert_eq!(population_range(8, 5), (8, 10));
    assert_eq!(population_range(12, 2), (10, 10));
}

#[test]
fn thousands_separators() {
    assert_eq!(format_thousands(1234567), "1 234 567");
    assert_eq!(format_thousands(999), "999");
    assert_eq!(format_thousands(1000), "1 000");
    assert_eq!(format_thousands(0), "0");
}

#[test]
fn hex_colours() {
    assert_eq!(hex_color(255, 0, 16), "#ff0010");
    assert_eq!(hex_color(0, 171, 9), "#00ab09");
}

#[test]
fn json_keys_of_dot_paths() {
    assert_eq!(
        json_keys_of("decisions.tackle_chance"),
        Some(vec!["decisions".to_string(), "tackleChance".to_string()])
    );
    assert_eq!(
        json_keys_of("spatial.own_goal.min"),
        Some(vec!["spatial".to_string(), "ownGoal".to_string(), "min".to_string()])
    );
    assert_eq!(
        json_keys_of("spatial.ball.preferred"),
        Some(vec!["spatial".to_string(), "ball".to_string(), "preferred".to_string()])
    );
    assert_eq!(json_keys_of("spatial.corner.min"), None);
    assert_eq!(json_keys_of("spatial.ball"), None);
    assert_eq!(json_keys_of("aggression"), None);
    assert_eq!(json_keys_of("decisions.x.y"), None);
}

#[test]
fn session_sort_is_stable_for_equal_keys() {
    let mut v = strings(&["session-1", "session-01", "session-0"]);
    numeric_session_sort(&mut v);
    assert_eq!(v, strings(&["session-0", "session-1", "session-01"]));
    let mut w = strings(&["session-01", "session-1", "session-0"]);
    numeric_session_sort(&mut w);
    assert_eq!(w, strings(&["session-0", "session-01", "session-1"]));
}

#[test]
fn session_sort_twice_changes_nothing() {
    let mut v = strings(&["s-10", "s-001", "s-2", "s-1", "t", "s"]);
    numeric_session_sort(&mut v);
    let once = v.clone();
    numeric_session_sort(&mut v);
    assert_eq!(v, once);
    assert_eq!(once, strings(&["s", "s-001", "s-1", "s-2", "s-10", "t"]));
}

#[test]
fn session_writer_new_composes_folder() {
    let w = SessionWriter::new(std::path::Path::new("/data/policies/v6"), "session-3");
    assert_eq!(w.session_name(), "session-3");
    assert_eq!(w.session_dir(), std::path::Path::new("/data/policies/v6/sessions/session-3"));
}

#[test]
fn json_fields_are_camel_case_of_names() {
    let pairs = [
        ("mark_distance", "markDistance"),
        ("forward_pass_min_gain", "forwardPassMinGain"),
        ("aggression", "aggression"),
        ("shoot_progress_threshold", "shootProgressThreshold"),
        ("pass_dir_neutral", "passDirNeutral"),
    ];
    for (snake, camel) in pairs {
        assert_eq!(decision_json_field(snake), camel);
    }
}
