use engine::aggregate::{apply_disables, apply_multiplier};
use engine::breakdown::{compute_stat_breakdown, group_by_source_type};
use engine::finalize::{
    apply_item_granted_conversions, apply_tree_conversions, apply_tree_disables, compute_final_attributes,
    ItemGrantedSkill, RankConversion,
};
use engine::keymap::KeyMap;
use engine::ranged::{combine_additive_and_more, Ranged};
use engine::sources::{sum_contributions, SourceContribution, SourceMap, SourceType};
use engine::stat_defs::{resolved_stat_name, stat_name, StatDef, StatDefs};
use engine::stat_map::{AttrMap, KeySet, StatMap};
use engine::types::{ConvertKind, DisableTarget, ParsedConversion};

fn p(x: f64) -> i64 {
    (x * 1_000_000.0).round() as i64
}

fn r(a: f64, b: f64) -> Ranged {
    (p(a), p(b))
}

fn k(s: &str) -> String {
    s.to_string()
}

fn c(label: &str, t: SourceType, v: Ranged) -> SourceContribution {
    SourceContribution { label: k(label), source_type: t, value: v, forge: None }
}

fn defs() -> StatDefs {
    let mut d: StatDefs = KeyMap::new();
    d.insert(k("life"), StatDef { key: k("life"), name: k("Maximum Life"), format: None, modifies_attribute: None });
    d.insert(k("mana"), StatDef { key: k("mana"), name: k("Maximum Mana"), format: None, modifies_attribute: None });
    d.insert(
        k("faster_cast_rate"),
        StatDef { key: k("faster_cast_rate"), name: k("Faster Cast Rate"), format: Some(k("percent")), modifies_attribute: None },
    );
    d
}

fn stat_map(entries: &[(&str, Ranged)]) -> StatMap {
    let mut m: StatMap = KeyMap::new();
    for (key, v) in entries {
        m.insert(k(key), *v);
    }
    m
}

#[test]
fn grouping_by_source_type_counts_every_source_once() {
    let sources = vec![
        c("a", SourceType::Item, r(10.0, 10.0)),
        c("b", SourceType::Tree, r(40.0, 40.0)),
        c("c", SourceType::Item, r(5.0, 6.0)),
        c("d", SourceType::Socket, r(-15.0, -15.0)),
    ];
    let groups = group_by_source_type(&sources);
    assert_eq!(groups.len(), 3);
    // largest magnitude first: tree 40, then item 15..16, then socket -15 (tie on 15 broken by type)
    assert_eq!(groups[0].source_type, SourceType::Tree);
    assert_eq!(groups[0].sum, r(40.0, 40.0));
    assert_eq!(groups[1].source_type, SourceType::Item);
    assert_eq!(groups[1].sum, r(15.0, 16.0));
    assert_eq!(groups[1].count, 2);
    assert_eq!(groups[2].source_type, SourceType::Socket);
    let total: u32 = groups.iter().map(|g| g.count).sum();
    assert_eq!(total as usize, sources.len());
    assert!(group_by_source_type(&[]).is_empty());
}

#[test]
fn magnitude_ties_are_ordered_by_source_type() {
    let sources = vec![c("s", SourceType::Socket, r(-5.0, -5.0)), c("i", SourceType::Item, r(5.0, 5.0))];
    let groups = group_by_source_type(&sources);
    assert_eq!(groups[0].source_type, SourceType::Item);
    assert_eq!(groups[1].source_type, SourceType::Socket);
}

#[test]
fn breakdown_of_a_multiplied_stat_reconstructs_its_total() {
    let mut sources: SourceMap = KeyMap::new();
    sources.insert(k("life"), vec![c("Helm", SourceType::Item, r(100.0, 100.0))]);
    sources.insert(k("increased_life"), vec![c("Node", SourceType::Tree, r(50.0, 50.0))]);
    sources.insert(k("increased_life_more"), vec![c("Gem", SourceType::Socket, r(20.0, 20.0))]);
    let no_curves: KeySet = KeyMap::new();
    let b = compute_stat_breakdown(&sources, "life", None, &defs(), &no_curves);
    assert_eq!(b.stat_name, "Maximum Life");
    assert!(!b.is_percent);
    assert!(b.has_increased);
    assert!(b.has_more);
    assert_eq!(b.additive_sum, r(100.0, 100.0));
    assert_eq!(b.increased_sum, r(50.0, 50.0));
    assert_eq!(b.more_sum, r(20.0, 20.0));
    // 100 x 1.5 x 1.2 = 180, not floored
    assert_eq!(b.combined, r(180.0, 180.0));
    assert_eq!(b.pre_diminish, None);
    assert_eq!(b.additive_by_type.len(), 1);

    // A supplied final value wins.
    let f = compute_stat_breakdown(&sources, "life", Some(r(181.0, 181.0)), &defs(), &no_curves);
    assert_eq!(f.combined, r(181.0, 181.0));
}

#[test]
fn breakdown_of_a_percent_stat_with_a_curve_shows_the_raw_total() {
    let mut sources: SourceMap = KeyMap::new();
    sources.insert(k("faster_cast_rate"), vec![c("Ring", SourceType::Item, r(300.0, 300.0))]);
    sources.insert(k("faster_cast_rate_more"), vec![c("Node", SourceType::Tree, r(50.0, 50.0))]);
    let mut curves: KeySet = KeyMap::new();
    curves.insert(k("faster_cast_rate"), ());
    let b = compute_stat_breakdown(&sources, "faster_cast_rate", Some(r(405.06, 405.06)), &defs(), &curves);
    assert!(b.is_percent);
    assert_eq!(b.combined, r(405.06, 405.06));
    // (1 + 3)(1 + 0.5) - 1 = 500%
    assert_eq!(b.pre_diminish, Some(r(500.0, 500.0)));
    let flat = compute_stat_breakdown(&sources, "faster_cast_rate", None, &defs(), &curves);
    assert_eq!(flat.combined, r(500.0, 500.0));
    assert_eq!(flat.pre_diminish, None);
}

#[test]
fn breakdown_orders_a_flipped_range() {
    let mut sources: SourceMap = KeyMap::new();
    sources.insert(k("mana"), vec![c("Curse", SourceType::Item, r(-100.0, -50.0))]);
    sources.insert(k("increased_mana"), vec![c("Node", SourceType::Tree, r(-50.0, 50.0))]);
    let no_curves: KeySet = KeyMap::new();
    let b = compute_stat_breakdown(&sources, "mana", None, &defs(), &no_curves);
    // min -100 x 0.5 = -50, max -50 x 1.5 = -75: reordered
    assert_eq!(b.combined, r(-75.0, -50.0));
}

#[test]
fn display_names_of_more_keys_borrow_their_base() {
    let d = defs();
    assert_eq!(stat_name(&d, "life"), "Maximum Life");
    assert_eq!(stat_name(&d, "life_more"), "Total Maximum Life");
    assert_eq!(stat_name(&d, "gold_find"), "gold_find");
    assert_eq!(resolved_stat_name(&d, "mana_more"), "Total Maximum Mana");
    assert_eq!(resolved_stat_name(&d, "mana"), "Maximum Mana");
    assert_eq!(resolved_stat_name(&d, "unknown_more"), "unknown_more");
}

#[test]
fn tree_conversion_sources_are_labelled_with_the_percent() {
    let conv = ParsedConversion {
        from_kind: ConvertKind::Stat,
        from_key: k("mana"),
        to_kind: ConvertKind::Stat,
        to_key: k("life"),
        pct: p(12.5),
    };
    let to_attr = ParsedConversion {
        from_kind: ConvertKind::Attribute,
        from_key: k("energy"),
        to_kind: ConvertKind::Attribute,
        to_key: k("vitality"),
        pct: p(10.0),
    };
    let stats = stat_map(&[("mana", r(200.0, 400.0))]);
    let mut attrs: AttrMap = KeyMap::new();
    attrs.insert(k("energy"), r(50.0, 50.0));
    let mut attr_sources: SourceMap = KeyMap::new();
    attr_sources.insert(k("vitality"), vec![c("Base", SourceType::Item, r(20.0, 20.0))]);
    let mut stat_sources: SourceMap = KeyMap::new();
    let touched = apply_tree_conversions(
        &[(conv, k("Node 7")), (to_attr, k("Node 8"))],
        &mut attrs,
        &stats,
        &mut attr_sources,
        &mut stat_sources,
        &defs(),
    );
    let life = stat_sources.get(&k("life")).unwrap();
    assert_eq!(life.len(), 1);
    assert_eq!(life[0].label, "Node 7: 12.5% of Maximum Mana");
    assert_eq!(life[0].source_type, SourceType::Tree);
    assert_eq!(life[0].value, r(25.0, 50.0));
    assert!(touched.contains_key(&k("life")));
    assert_eq!(touched.len(), 1);
    // an attribute target is re-summed at once: 20 + 10% of 50
    assert_eq!(attrs.get(&k("vitality")), Some(&r(25.0, 25.0)));
    assert_eq!(attr_sources.get(&k("vitality")).unwrap()[1].label, "Node 8: 10% of energy");
}

fn blessing(condition: Option<&str>) -> ItemGrantedSkill {
    ItemGrantedSkill {
        name: k("Radiant Power"),
        key: k("radiant_power"),
        condition: condition.map(k),
        passive_converts: Some(vec![RankConversion {
            from: k("mana"),
            to: k("life"),
            base_pct: p(5.0),
            pct: p(1.0),
        }]),
    }
}

#[test]
fn item_granted_conversions_scale_with_rank() {
    let mut ranks: StatMap = KeyMap::new();
    ranks.insert(k("radiant_power"), r(2.0, 3.0));
    let stats = stat_map(&[("mana", r(1000.0, 1000.0))]);
    let conds: KeyMap<bool> = KeyMap::new();
    let mut sources: SourceMap = KeyMap::new();
    let touched = apply_item_granted_conversions(&[blessing(None)], &ranks, &stats, &conds, &mut sources, &defs());
    let life = sources.get(&k("life")).unwrap();
    // (5 + 1 x 2)% and (5 + 1 x 3)% of 1000
    assert_eq!(life[0].value, r(70.0, 80.0));
    assert_eq!(life[0].label, "Converted from Maximum Mana (Radiant Power, rank 2-3)");
    assert_eq!(life[0].source_type, SourceType::Item);
    assert!(touched.contains_key(&k("life")));

    let mut single: StatMap = KeyMap::new();
    single.insert(k("radiant_power"), r(1.5, 1.5));
    let mut sources: SourceMap = KeyMap::new();
    apply_item_granted_conversions(&[blessing(None)], &single, &stats, &conds, &mut sources, &defs());
    assert_eq!(sources.get(&k("life")).unwrap()[0].label, "Converted from Maximum Mana (Radiant Power, rank 1.5)");
}

#[test]
fn item_granted_conversion_folds_in_the_more_twin_of_a_replenish() {
    let mut ranks: StatMap = KeyMap::new();
    ranks.insert(k("radiant_power"), r(5.0, 5.0));
    let stats = stat_map(&[("mana_replenish", r(20.0, 20.0)), ("mana_replenish_more", r(10.0, 10.0))]);
    let conds: KeyMap<bool> = KeyMap::new();
    let mut skill = blessing(None);
    skill.passive_converts = Some(vec![RankConversion {
        from: k("mana_replenish"),
        to: k("life"),
        base_pct: p(5.0),
        pct: p(1.0),
    }]);
    let mut sources: SourceMap = KeyMap::new();
    apply_item_granted_conversions(&[skill], &ranks, &stats, &conds, &mut sources, &defs());
    // 20 and 10% more fold into 32; (5 + 1 x 5)% of 32
    assert_eq!(sources.get(&k("life")).unwrap()[0].value, r(3.2, 3.2));
}

#[test]
fn item_granted_conversion_gated_by_toggle() {
    let mut ranks: StatMap = KeyMap::new();
    ranks.insert(k("radiant_power"), r(1.0, 1.0));
    let stats = stat_map(&[("mana", r(1000.0, 1000.0))]);
    let mut off: KeyMap<bool> = KeyMap::new();
    off.insert(k("blessing_active"), false);
    let mut sources: SourceMap = KeyMap::new();
    let touched =
        apply_item_granted_conversions(&[blessing(Some("blessing_active"))], &ranks, &stats, &off, &mut sources, &defs());
    assert_eq!(sources.len(), 0);
    assert_eq!(touched.len(), 0);

    let mut on: KeyMap<bool> = KeyMap::new();
    on.insert(k("blessing_active"), true);
    let touched =
        apply_item_granted_conversions(&[blessing(Some("blessing_active"))], &ranks, &stats, &on, &mut sources, &defs());
    assert_eq!(sources.get(&k("life")).unwrap()[0].value, r(60.0, 60.0));
    assert_eq!(touched.len(), 1);
}

#[test]
fn item_granted_conversion_needs_a_granted_rank() {
    let ranks: StatMap = KeyMap::new();
    let stats = stat_map(&[("mana", r(1000.0, 1000.0))]);
    let conds: KeyMap<bool> = KeyMap::new();
    let mut sources: SourceMap = KeyMap::new();
    let touched = apply_item_granted_conversions(&[blessing(None)], &ranks, &stats, &conds, &mut sources, &defs());
    assert_eq!(sources.len(), 0);
    assert_eq!(touched.len(), 0);
}

#[test]
fn final_attributes_sum_sources_and_default_to_zero() {
    let mut sources: SourceMap = KeyMap::new();
    sources.insert(
        k("strength"),
        vec![c("Ring", SourceType::Item, r(5.0, 5.0)), c("Node", SourceType::Tree, r(3.0, 4.0))],
    );
    sources.insert(k("luck"), vec![c("Charm", SourceType::Item, r(1.0, 1.0))]);
    let attrs = compute_final_attributes(&sources, &vec![k("strength"), k("dexterity")]);
    assert_eq!(attrs.get(&k("strength")), Some(&r(8.0, 9.0)));
    assert_eq!(attrs.get(&k("dexterity")), Some(&r(0.0, 0.0)));
    assert!(!attrs.contains_key(&k("luck")));
    assert_eq!(attrs.len(), 2);
}

#[test]
fn combine_is_symmetric_and_neutral_at_zero() {
    let a = r(12.5, 40.0);
    let m = r(-20.0, 33.0);
    assert_eq!(combine_additive_and_more(a, m), combine_additive_and_more(m, a));
    assert_eq!(combine_additive_and_more(a, r(0.0, 0.0)), a);
    assert_eq!(combine_additive_and_more(r(0.0, 0.0), m), m);
}

#[test]
fn neutral_multiplier_keeps_a_whole_flat_value() {
    let mut stats = stat_map(&[("life", r(120.0, 130.0)), ("increased_life", r(0.0, 0.0))]);
    apply_multiplier(&mut stats, "life", Some("increased_life"), None, true);
    assert_eq!(stats.get(&k("life")), Some(&r(120.0, 130.0)));
    let mut fractional = stat_map(&[("mana_replenish", r(2.75, 2.75))]);
    apply_multiplier(&mut fractional, "mana_replenish", None, Some("mana_replenish_more"), false);
    assert_eq!(fractional.get(&k("mana_replenish")), Some(&r(2.75, 2.75)));
}

#[test]
fn disables_applied_twice_equal_once() {
    let mut disables: KeySet = KeyMap::new();
    disables.insert(k("life_replenish"), ());
    let mut once = stat_map(&[("life_replenish", r(9.0, 9.0)), ("life", r(50.0, 50.0))]);
    apply_disables(&mut once, &disables);
    let mut twice = stat_map(&[("life_replenish", r(9.0, 9.0)), ("life", r(50.0, 50.0))]);
    apply_disables(&mut twice, &disables);
    apply_disables(&mut twice, &disables);
    assert_eq!(once.entries, twice.entries);

    let mut a = stat_map(&[("life_replenish", r(9.0, 9.0))]);
    apply_tree_disables(&[DisableTarget::LifeReplenish], &mut a);
    let snapshot = a.entries.clone();
    apply_tree_disables(&[DisableTarget::LifeReplenish], &mut a);
    assert_eq!(a.entries, snapshot);
}

fn granted(name: &str, key: &str, condition: Option<&str>, convs: &[(&str, &str, f64, f64)]) -> ItemGrantedSkill {
    ItemGrantedSkill {
        name: k(name),
        key: k(key),
        condition: condition.map(k),
        passive_converts: Some(
            convs
                .iter()
                .map(|(from, to, base, per)| RankConversion { from: k(from), to: k(to), base_pct: p(*base), pct: p(*per) })
                .collect(),
        ),
    }
}

#[test]
fn radiant_power_converts_mana_with_base_pct() {
    // Tooltip: every 500 max mana gives 3.75% [+0.25% per level] damage at
    // rank 1, i.e. (0.7 + 0.05 x rank)% of mana as magic skill damage.
    let skills = vec![granted(
        "Radiant Power",
        "radiant_power",
        Some("radiant_power_buff"),
        &[("mana", "magic_skill_damage", 0.7, 0.05)],
    )];
    let mut ranks: StatMap = KeyMap::new();
    ranks.insert(k("radiant_power"), r(5.0, 15.0));
    let stats = stat_map(&[("mana", r(10_000.0, 10_000.0))]);

    // Toggle off: the buff converts nothing.
    let mut off: SourceMap = KeyMap::new();
    let no_conditions: KeyMap<bool> = KeyMap::new();
    let touched_off = apply_item_granted_conversions(&skills, &ranks, &stats, &no_conditions, &mut off, &defs());
    assert_eq!(touched_off.len(), 0, "buff must be gated by its toggle");

    // Toggle on: (0.7 + 0.05 x rank)% of mana.
    let mut on_cond: KeyMap<bool> = KeyMap::new();
    on_cond.insert(k("radiant_power_buff"), true);
    let mut on: SourceMap = KeyMap::new();
    let touched = apply_item_granted_conversions(&skills, &ranks, &stats, &on_cond, &mut on, &defs());
    assert!(touched.contains_key(&k("magic_skill_damage")));
    let got = sum_contributions(on.get(&k("magic_skill_damage")).unwrap());
    assert_eq!(got.0, p(95.0), "rank 5: {got:?}");
    assert_eq!(got.1, p(145.0), "rank 15: {got:?}");
}

#[test]
fn trampling_force_converts_movement_speed_into_both_damage_stats() {
    // Tooltip: 50% [+15% per level] of movement speed at rank 1, added as
    // attack damage and as magic skill damage. Passive, no toggle.
    let skills = vec![granted(
        "Trampling Force",
        "trampling_force",
        None,
        &[("movement_speed", "attack_damage", 35.0, 15.0), ("movement_speed", "magic_skill_damage", 35.0, 15.0)],
    )];
    let mut ranks: StatMap = KeyMap::new();
    ranks.insert(k("trampling_force"), r(1.0, 3.0));
    let stats = stat_map(&[("movement_speed", r(200.0, 200.0))]);
    let mut sources: SourceMap = KeyMap::new();
    let conds: KeyMap<bool> = KeyMap::new();
    apply_item_granted_conversions(&skills, &ranks, &stats, &conds, &mut sources, &defs());
    for key in ["attack_damage", "magic_skill_damage"] {
        let got = sum_contributions(sources.get(&k(key)).unwrap_or_else(|| panic!("{key} missing")));
        assert_eq!(got.0, p(100.0), "{key} rank 1: {got:?}");
        assert_eq!(got.1, p(160.0), "{key} rank 3: {got:?}");
    }
}

#[test]
fn breakdown_product_is_rounded_once() {
    let mut sources: SourceMap = KeyMap::new();
    sources.insert(k("life"), vec![c("Tiny", SourceType::Item, (1, 1))]);
    sources.insert(k("increased_life"), vec![c("Node", SourceType::Tree, r(50.0, 50.0))]);
    sources.insert(k("increased_life_more"), vec![c("Gem", SourceType::Socket, r(100.0, 100.0))]);
    let no_curves: KeySet = KeyMap::new();
    let b = compute_stat_breakdown(&sources, "life", None, &defs(), &no_curves);
    // 0.000001 x 1.5 x 2 = 0.000003
    assert_eq!(b.combined, (3, 3));
}

#[test]
fn build_conversion_reads_a_multiplied_replenish_once() {
    let conv = ParsedConversion {
        from_kind: ConvertKind::Stat,
        from_key: k("mana_replenish"),
        to_kind: ConvertKind::Stat,
        to_key: k("life"),
        pct: p(50.0),
    };
    // the multiplier pass has already turned 10 with +100% more into 20
    let stats = stat_map(&[("mana_replenish", r(20.0, 20.0)), ("mana_replenish_more", r(100.0, 100.0))]);
    let mut attrs: AttrMap = KeyMap::new();
    let mut attr_sources: SourceMap = KeyMap::new();
    let mut stat_sources: SourceMap = KeyMap::new();
    apply_tree_conversions(&[(conv, k("Node"))], &mut attrs, &stats, &mut attr_sources, &mut stat_sources, &defs());
    assert_eq!(stat_sources.get(&k("life")).unwrap()[0].value, r(10.0, 10.0));
}

#[test]
fn grouping_ignores_the_order_of_the_sources() {
    let sources = vec![
        c("a", SourceType::Item, r(10.0, 10.0)),
        c("b", SourceType::Tree, r(-40.0, 40.0)),
        c("c", SourceType::Item, r(5.5, 6.0)),
        c("d", SourceType::Socket, r(15.0, 16.0)),
    ];
    let reversed = vec![
        c("d", SourceType::Socket, r(15.0, 16.0)),
        c("c", SourceType::Item, r(5.5, 6.0)),
        c("b", SourceType::Tree, r(-40.0, 40.0)),
        c("a", SourceType::Item, r(10.0, 10.0)),
    ];
    let g1 = group_by_source_type(&sources);
    let g2 = group_by_source_type(&reversed);
    assert_eq!(g1.len(), g2.len());
    for (x, y) in g1.iter().zip(g2.iter()) {
        assert_eq!(x.source_type, y.source_type);
        assert_eq!(x.sum, y.sum);
        assert_eq!(x.count, y.count);
    }
}
