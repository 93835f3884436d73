use engine::finalize::{
    apply_multipliers_pass, apply_tree_disables, multiplier_keys_for, multiplier_specs,
    reapply_multipliers_for_touched,
};
use engine::aggregate::apply_multiplier;
use engine::keymap::KeyMap;
use engine::ranged::{combine_additive_and_more, Ranged};
use engine::sources::{
    compute_item_effective_defense, is_zero, push_source, stats_combined_map, sum_contributions,
    sum_ranged_from_map, SourceContribution, SourceMap, SourceType,
};
use engine::stat_defs::{stat_def, StatDef, StatDefs};
use engine::stat_map::{KeySet, StatMap};
use engine::types::DisableTarget;

/// A value in points as millionths.
fn p(x: f64) -> i64 {
    (x * 1_000_000.0).round() as i64
}

fn r(a: f64, b: f64) -> Ranged {
    (p(a), p(b))
}

fn contrib(v: Ranged) -> SourceContribution {
    SourceContribution { label: "test".to_string(), source_type: SourceType::Item, value: v, forge: None }
}

fn k(s: &str) -> String {
    s.to_string()
}

fn stat_map(entries: &[(&str, Ranged)]) -> StatMap {
    let mut m: StatMap = KeyMap::new();
    for (key, v) in entries {
        m.insert(k(key), *v);
    }
    m
}

fn defs() -> StatDefs {
    let mut d: StatDefs = KeyMap::new();
    d.insert(k("all_skills"), StatDef { key: k("all_skills"), name: k("All Skills"), format: None, modifies_attribute: None });
    d.insert(k("life"), StatDef { key: k("life"), name: k("Maximum Life"), format: None, modifies_attribute: None });
    d.insert(
        k("increased_life"),
        StatDef { key: k("increased_life"), name: k("Increased Life"), format: Some(k("percent")), modifies_attribute: None },
    );
    d
}

#[test]
fn is_zero_recognises_zero_and_nonzero() {
    assert!(is_zero(r(0.0, 0.0)));
    assert!(!is_zero(r(1.0, 1.0)));
    assert!(!is_zero(r(0.0, 1.0)));
    assert!(!is_zero(r(-1.0, 0.0)));
}

#[test]
fn push_source_skips_zero_and_appends() {
    let mut map: SourceMap = KeyMap::new();
    push_source(&mut map, "life", contrib(r(0.0, 0.0)));
    assert_eq!(map.len(), 0, "zero value should be skipped");
    push_source(&mut map, "life", contrib(r(10.0, 20.0)));
    assert_eq!(map.get(&k("life")).map(|v| v.len()), Some(1));
    push_source(&mut map, "life", contrib(r(5.0, 5.0)));
    assert_eq!(map.get(&k("life")).map(|v| v.len()), Some(2));
}

#[test]
fn sum_contributions_adds_endpoints() {
    let list = vec![contrib(r(10.0, 20.0)), contrib(r(5.0, 5.0)), contrib(r(-2.0, -1.0))];
    assert_eq!(sum_contributions(&list), r(13.0, 24.0));
    assert_eq!(sum_contributions(&[]), r(0.0, 0.0));
}

#[test]
fn sum_ranged_from_map_floors_endpoints() {
    let mut map: SourceMap = KeyMap::new();
    push_source(&mut map, "life", contrib(r(10.5, 20.7)));
    push_source(&mut map, "life", contrib(r(5.5, 5.5)));
    // sum = (16.0, 26.2); floored to (16, 26).
    assert_eq!(sum_ranged_from_map(&map, "life"), r(16.0, 26.0));
    assert_eq!(sum_ranged_from_map(&map, "missing"), r(0.0, 0.0));
}

#[test]
fn stats_combined_only_emits_keys_with_more_twin() {
    let stats = stat_map(&[
        ("faster_cast_rate", r(10.0, 10.0)),
        ("faster_cast_rate_more", r(50.0, 50.0)),
        ("life", r(100.0, 100.0)),
    ]);
    let out = stats_combined_map(&stats);
    // (1.10 * 1.50 - 1) * 100 = 65
    assert_eq!(out.get(&k("faster_cast_rate")), Some(&r(65.0, 65.0)));
    assert!(!out.contains_key(&k("life")));
    assert!(!out.contains_key(&k("faster_cast_rate_more")));
    assert_eq!(out.len(), 1);
}

#[test]
fn stats_combined_more_without_base_uses_zero_additive() {
    let stats = stat_map(&[("mana_replenish_more", r(25.0, 30.0))]);
    let out = stats_combined_map(&stats);
    assert_eq!(out.get(&k("mana_replenish")), Some(&r(25.0, 30.0)));
}

#[test]
fn stats_combined_matches_combine_additive_and_more() {
    let stats = stat_map(&[("enhanced_damage", r(12.5, 20.0)), ("enhanced_damage_more", r(33.0, 40.0))]);
    let out = stats_combined_map(&stats);
    assert_eq!(
        out.get(&k("enhanced_damage")),
        Some(&combine_additive_and_more(r(12.5, 20.0), r(33.0, 40.0)))
    );
}

#[test]
fn effective_defense_none_when_base_missing() {
    assert_eq!(compute_item_effective_defense(None, None, None), None);
    assert_eq!(compute_item_effective_defense(Some(p(10.0)), None, None), None);
    assert_eq!(compute_item_effective_defense(None, Some(p(10.0)), None), None);
}

#[test]
fn effective_defense_no_enhancement_floors_to_base() {
    assert_eq!(compute_item_effective_defense(Some(p(10.0)), Some(p(20.0)), None), Some(r(10.0, 20.0)));
}

#[test]
fn effective_defense_applies_enhanced_percent() {
    // base 10..20, +50% min .. +100% max gives 15..40
    assert_eq!(
        compute_item_effective_defense(Some(p(10.0)), Some(p(20.0)), Some(r(50.0, 100.0))),
        Some(r(15.0, 40.0))
    );
    // the fractional product (10 * 1.33 = 13.3) is floored
    assert_eq!(
        compute_item_effective_defense(Some(p(10.0)), Some(p(10.0)), Some(r(33.0, 33.0))),
        Some(r(13.0, 13.0))
    );
}

#[test]
fn combine_additive_only() {
    assert_eq!(combine_additive_and_more(r(50.0, 50.0), r(0.0, 0.0)), r(50.0, 50.0));
}

#[test]
fn combine_more_only() {
    assert_eq!(combine_additive_and_more(r(0.0, 0.0), r(30.0, 30.0)), r(30.0, 30.0));
}

#[test]
fn combine_additive_and_more_compounds() {
    // 50% additive and 30% more: (1.5)(1.3) - 1 = 95%
    let v = combine_additive_and_more(r(50.0, 50.0), r(30.0, 30.0));
    assert_eq!(v, r(95.0, 95.0), "got {v:?}");
}

#[test]
fn combine_ranged_endpoints_independent() {
    // min: (1.5)(1.3) - 1 = 95   max: (2.0)(1.5) - 1 = 200
    let v = combine_additive_and_more(r(50.0, 100.0), r(30.0, 50.0));
    assert_eq!(v.0, p(95.0));
    assert_eq!(v.1, p(200.0));
}

#[test]
fn apply_multiplier_no_flat_is_noop() {
    let mut stats: StatMap = KeyMap::new();
    apply_multiplier(&mut stats, "life", Some("increased_life"), None, true);
    assert_eq!(stats.len(), 0);
}

#[test]
fn apply_multiplier_zero_pct_and_more_skips() {
    let mut stats = stat_map(&[("life", r(100.0, 100.0))]);
    apply_multiplier(&mut stats, "life", Some("increased_life"), Some("increased_life_more"), true);
    assert_eq!(stats.get(&k("life")), Some(&r(100.0, 100.0)));
}

#[test]
fn apply_multiplier_additive_floors() {
    let mut stats = stat_map(&[("life", r(100.0, 100.0)), ("increased_life", r(50.0, 50.0))]);
    apply_multiplier(&mut stats, "life", Some("increased_life"), None, true);
    assert_eq!(stats.get(&k("life")), Some(&r(150.0, 150.0)));
}

#[test]
fn apply_multiplier_additive_plus_more_compounds() {
    let mut stats = stat_map(&[
        ("life", r(100.0, 100.0)),
        ("increased_life", r(50.0, 50.0)),
        ("increased_life_more", r(30.0, 30.0)),
    ]);
    apply_multiplier(&mut stats, "life", Some("increased_life"), Some("increased_life_more"), true);
    // 100 * 1.5 * 1.3 = 195
    assert_eq!(stats.get(&k("life")), Some(&r(195.0, 195.0)));
}

#[test]
fn apply_multiplier_floor_false_preserves_fractional() {
    let mut stats = stat_map(&[("mana_replenish", r(3.0, 3.0)), ("mana_replenish_more", r(15.0, 15.0))]);
    apply_multiplier(&mut stats, "mana_replenish", None, Some("mana_replenish_more"), false);
    // 3 * 1.15 = 3.45, not floored
    let v = *stats.get(&k("mana_replenish")).unwrap();
    assert_eq!(v, r(3.45, 3.45));
}

#[test]
fn multipliers_pass_scales_ailment_durations() {
    let mut stats = stat_map(&[
        ("frostbite_duration", r(6.0, 6.0)),
        ("frostbite_duration_pct", r(8.0, 8.0)),
        ("shadowburn_duration", r(7.0, 7.0)),
        ("shadowburn_duration_pct", r(50.0, 50.0)),
        // no percent for stasis: it must stay as it is
        ("stasis_duration", r(5.0, 5.0)),
    ]);
    apply_multipliers_pass(&mut stats);
    // (5 + 1s) * 1.08 = 6.48: fractional seconds survive (no floor)
    assert_eq!(stats.get(&k("frostbite_duration")), Some(&r(6.48, 6.48)));
    // 7 * 1.5 = 10.5
    assert_eq!(stats.get(&k("shadowburn_duration")), Some(&r(10.5, 10.5)));
    assert_eq!(stats.get(&k("stasis_duration")), Some(&r(5.0, 5.0)));
}

#[test]
fn reapply_multipliers_for_touched_rebuilds_life_when_only_increased_life_touched() {
    let mut sources: SourceMap = KeyMap::new();
    sources.insert(k("life"), vec![contrib(r(100.0, 100.0)), contrib(r(50.0, 50.0))]);
    sources.insert(k("increased_life"), vec![contrib(r(50.0, 50.0)), contrib(r(50.0, 50.0))]);
    sources.insert(k("mana"), vec![contrib(r(40.0, 40.0))]);
    sources.insert(k("increased_mana"), vec![contrib(r(100.0, 100.0))]);

    // The state after the multiplier pass ran with increased_life = 50 (the
    // second +50 source arrived later through a conversion) and the touched
    // key was re-summed.
    let mut stats = stat_map(&[
        ("life", r(225.0, 225.0)),
        ("increased_life", r(100.0, 100.0)),
        ("mana", r(80.0, 80.0)),
        ("increased_mana", r(100.0, 100.0)),
    ]);

    let mut touched: KeySet = KeyMap::new();
    touched.insert(k("increased_life"), ());
    reapply_multipliers_for_touched(&mut stats, &sources, &touched);

    // floor(150 x (1 + 100/100)) = 300
    assert_eq!(stats.get(&k("life")).copied(), Some(r(300.0, 300.0)));
    // Untouched multiplied stats keep their already multiplied value.
    assert_eq!(stats.get(&k("mana")).copied(), Some(r(80.0, 80.0)));
}

#[test]
fn breakdown_multiplier_keys_match_multiplier_specs() {
    let specs = multiplier_specs();
    assert!(!specs.is_empty());
    for spec in specs.iter() {
        assert_eq!(
            multiplier_keys_for(&spec.flat),
            (spec.pct.clone(), spec.more.clone()),
            "breakdown keys drifted for {}",
            spec.flat
        );
    }
    assert_eq!(multiplier_keys_for("enhanced_damage"), (None, None));
}

#[test]
fn apply_tree_disables_zeros_life_replenish() {
    let mut stats = stat_map(&[("life_replenish", r(50.0, 50.0)), ("life_replenish_pct", r(10.0, 10.0))]);
    let disables = vec![DisableTarget::LifeReplenish];
    apply_tree_disables(&disables, &mut stats);
    assert_eq!(stats.get(&k("life_replenish")).copied(), Some(r(0.0, 0.0)));
    assert_eq!(stats.get(&k("life_replenish_pct")).copied(), Some(r(0.0, 0.0)));
}

#[test]
fn tree_disables_leave_other_stats_alone() {
    let mut stats = stat_map(&[("life_replenish", r(12.0, 12.0)), ("mana_replenish", r(4.0, 4.0))]);
    apply_tree_disables(&[DisableTarget::LifeReplenish], &mut stats);
    assert_eq!(stats.get(&k("mana_replenish")), Some(&r(4.0, 4.0)));

    let mut untouched = stat_map(&[("life_replenish", r(12.0, 12.0))]);
    apply_tree_disables(&[], &mut untouched);
    assert_eq!(untouched.get(&k("life_replenish")), Some(&r(12.0, 12.0)));
}

#[test]
fn stat_def_exact_lookup_resolves_known_key() {
    let d = defs();
    let def = stat_def(&d, "all_skills");
    assert!(def.is_some(), "all_skills should be defined");
    assert_eq!(def.unwrap().key, "all_skills");
}

#[test]
fn stat_def_falls_back_to_base_for_more_suffix() {
    let d = defs();
    if let Some(base) = stat_def(&d, "all_skills") {
        let synthesised = stat_def(&d, "all_skills_more");
        assert!(synthesised.is_some());
        assert_eq!(synthesised.unwrap().key, base.key);
    }
}

#[test]
fn stat_def_unknown_key_returns_none() {
    let d = defs();
    assert!(stat_def(&d, "definitely_not_a_stat").is_none());
    assert!(stat_def(&d, "definitely_not_a_stat_more").is_none());
}
