use std::collections::{HashMap, HashSet};

use engine::aggregate::{
    aggregate_tree_mods, apply_attribute_divided_stats, apply_attribute_increased, apply_per_attribute_stats, apply_disables, apply_fan_outs, TreeAggregateResult,
};
use engine::engine::{compute_final_state, EngineInputs, GameConfig};
use engine::finalize::{
    apply_multipliers_pass, apply_tree_conversions, compute_final_stats, reapply_multipliers_for_touched,
};
use engine::keymap::KeyMap;
use engine::ranged::Ranged;
use engine::sources::{SourceContribution, SourceMap, SourceType};
use engine::stat_defs::StatDefs;
use engine::stat_map::{AttrMap, KeySet, StatMap};
use engine::types::{
    ConvertKind, DisableTarget, ParsedConversion, ParsedDisable, ParsedMeta, ParsedMod, TreeLine,
    TreeLineClass, TreeNodeInfo,
};

fn p(x: f64) -> i64 {
    (x * 1_000_000.0).round() as i64
}

fn r(a: f64, b: f64) -> Ranged {
    (p(a), p(b))
}

fn k(s: &str) -> String {
    s.to_string()
}

fn stat_line(text: &str, key: &str, value: f64, condition: Option<&str>) -> TreeLine {
    TreeLine {
        text: k(text),
        class: TreeLineClass::Stat(ParsedMod {
            key: k(key),
            value: p(value),
            self_condition: condition.map(k),
        }),
    }
}

fn conversion(from_kind: ConvertKind, from: &str, to_kind: ConvertKind, to: &str, pct: f64) -> ParsedConversion {
    ParsedConversion { from_kind, from_key: k(from), to_kind, to_key: k(to), pct: p(pct) }
}

fn node(lines: Vec<TreeLine>) -> TreeNodeInfo {
    TreeNodeInfo { title: k("Test Node"), kind: k("normal"), lines }
}

fn conditions(pairs: &[(&str, bool)]) -> KeyMap<bool> {
    let mut m: KeyMap<bool> = KeyMap::new();
    for (c, on) in pairs {
        m.insert(k(c), *on);
    }
    m
}

fn aggregate(lines: Vec<TreeLine>, conds: &[(&str, bool)]) -> TreeAggregateResult {
    let nodes: HashMap<u32, TreeNodeInfo> = HashMap::from([(1u32, node(lines))]);
    aggregate_tree_mods(&[1], &nodes, &conditions(conds), &HashSet::new())
}

#[test]
fn weapon_conditional_line_keeps_its_own_key() {
    let out = aggregate(
        vec![stat_line(
            "+50% Increased Spell Projectile Damage when wielding a Staff or a Cane",
            "two_handed_spell_projectile_damage",
            50.0,
            None,
        )],
        &[],
    );
    assert_eq!(out.stat_contributions.get(&k("two_handed_spell_projectile_damage")), Some(&r(50.0, 50.0)));
    assert!(!out.stat_contributions.contains_key(&k("spell_projectile_damage")));
}

#[test]
fn routes_stats_attributes_conversions_and_disables() {
    let out = aggregate(
        vec![
            stat_line("+15 to Maximum Life", "life", 15.0, None),
            stat_line("+5 to Strength", "to_strength", 5.0, None),
            TreeLine {
                text: k("+15% of Dexterity Added as Ranged Projectile Damage"),
                class: TreeLineClass::Meta(ParsedMeta::Convert(conversion(
                    ConvertKind::Attribute,
                    "dexterity",
                    ConvertKind::Stat,
                    "ranged_projectile_damage",
                    15.0,
                ))),
            },
            TreeLine {
                text: k("You cannot regenerate life from life replenish anymore"),
                class: TreeLineClass::Meta(ParsedMeta::Disable(ParsedDisable {
                    target: DisableTarget::LifeReplenish,
                })),
            },
            TreeLine { text: k("+1 Socketable Slot"), class: TreeLineClass::RecognizedNoStat },
            TreeLine { text: k("Completely Made Up Line"), class: TreeLineClass::Unknown },
        ],
        &[],
    );
    assert_eq!(out.stat_contributions.get(&k("life")), Some(&r(15.0, 15.0)));
    assert_eq!(out.attr_contributions.get(&k("strength")), Some(&r(5.0, 5.0)));
    assert_eq!(out.conversions.len(), 1);
    assert_eq!(out.conversions[0].to_key, "ranged_projectile_damage");
    assert!(out.disables.contains_key(&k("life_replenish")));
    // "+1 Socketable Slot" is recognized but carries no stat, so only the
    // bogus line is reported back.
    assert_eq!(out.unsupported_lines, vec!["#1: Completely Made Up Line".to_string()]);
}

#[test]
fn self_conditional_line_counts_only_while_its_condition_holds() {
    let line = || {
        stat_line(
            "+15% Increased Total Attack Speed when Critical Strike Chance is below 40%",
            "increased_attack_speed_more",
            15.0,
            Some("crit_chance_below_40"),
        )
    };
    assert_eq!(aggregate(vec![line()], &[]).stat_contributions.len(), 0);
    assert_eq!(aggregate(vec![line()], &[("crit_chance_below_40", false)]).stat_contributions.len(), 0);
    let on = aggregate(vec![line()], &[("crit_chance_below_40", true)]);
    assert_eq!(on.stat_contributions.get(&k("increased_attack_speed_more")), Some(&r(15.0, 15.0)));
}

#[test]
fn optimizer_never_drops_a_line_the_engine_parses() {
    let parsed = vec![
        stat_line("+15 to Maximum Life", "life", 15.0, None),
        stat_line("+10% Damage when life is below 40%", "damage", 10.0, Some("life_below_40")),
        stat_line("+2 to All Attributes", "all_attributes", 2.0, None),
        TreeLine {
            text: k("10% of Maximum Mana added as Maximum life"),
            class: TreeLineClass::Meta(ParsedMeta::Convert(conversion(
                ConvertKind::Stat,
                "mana",
                ConvertKind::Stat,
                "life",
                10.0,
            ))),
        },
        TreeLine {
            text: k("You cannot regenerate life from life replenish anymore"),
            class: TreeLineClass::Meta(ParsedMeta::Disable(ParsedDisable { target: DisableTarget::LifeReplenish })),
        },
    ];
    let conds = [("crit_chance_below_40", true), ("life_below_40", true)];
    let out = aggregate(parsed, &conds);
    assert!(out.unsupported_lines.is_empty(), "optimizer dropped: {:?}", out.unsupported_lines);
    assert_eq!(out.attr_contributions.get(&k("all_attributes")), Some(&r(2.0, 2.0)));
    assert_eq!(out.stat_contributions.get(&k("damage")), Some(&r(10.0, 10.0)));
}

#[test]
fn unknown_and_jewelry_nodes_add_nothing() {
    let nodes: HashMap<u32, TreeNodeInfo> = HashMap::from([
        (7u32, node(vec![stat_line("+15 to Maximum Life", "life", 15.0, None)])),
        (8u32, node(vec![stat_line("+20 to Maximum Life", "life", 20.0, None)])),
    ]);
    let jewelry: HashSet<u32> = HashSet::from([8u32]);
    let out = aggregate_tree_mods(&[7, 8, 9, 7], &nodes, &conditions(&[]), &jewelry);
    // node 7 twice: 30; node 8 is a jewelry socket; node 9 is unknown
    assert_eq!(out.stat_contributions.get(&k("life")), Some(&r(30.0, 30.0)));
    assert_eq!(out.stat_contributions.len(), 1);
}

#[test]
fn unsupported_lines_are_labelled_with_their_node() {
    let nodes: HashMap<u32, TreeNodeInfo> =
        HashMap::from([(1234u32, node(vec![TreeLine { text: k("Odd"), class: TreeLineClass::Unknown }]))]);
    let out = aggregate_tree_mods(&[1234], &nodes, &conditions(&[]), &HashSet::new());
    assert_eq!(out.unsupported_lines, vec!["#1234: Odd".to_string()]);
}

fn contributions(pairs: &[(&str, f64)]) -> KeyMap<Vec<Ranged>> {
    let mut m: KeyMap<Vec<Ranged>> = KeyMap::new();
    for (key, v) in pairs {
        m.insert(k(key), vec![r(*v, *v)]);
    }
    m
}

fn empty_config() -> GameConfig {
    GameConfig {
        attribute_keys: Vec::new(),
        default_stats_per_attribute: KeyMap::new(),
        attribute_divided_stats: KeyMap::new(),
    }
}

fn mana_to_life_node() -> TreeNodeInfo {
    node(vec![TreeLine {
        text: k("10% of Maximum Mana added as Maximum life"),
        class: TreeLineClass::Meta(ParsedMeta::Convert(conversion(
            ConvertKind::Stat,
            "mana",
            ConvertKind::Stat,
            "life",
            10.0,
        ))),
    }])
}

/// The build pipeline's stat steps for the same sources and conversions:
/// totals, the multiplier pass, the tree conversions and the rebuild of the
/// touched multiplied stats.
fn build_pipeline(sources: &[(&str, f64)], convs: &[ParsedConversion]) -> StatMap {
    let mut stat_sources: SourceMap = KeyMap::new();
    for (key, v) in sources {
        stat_sources.insert(
            k(key),
            vec![SourceContribution { label: k("Custom"), source_type: SourceType::Item, value: r(*v, *v), forge: None }],
        );
    }
    let mut stats = compute_final_stats(&stat_sources);
    apply_multipliers_pass(&mut stats);
    let labelled: Vec<(ParsedConversion, String)> = convs
        .iter()
        .map(|c| {
            (
                ParsedConversion {
                    from_kind: c.from_kind,
                    from_key: c.from_key.clone(),
                    to_kind: c.to_kind,
                    to_key: c.to_key.clone(),
                    pct: c.pct,
                },
                k("Node 1912"),
            )
        })
        .collect();
    let mut attrs: AttrMap = KeyMap::new();
    let mut attr_sources: SourceMap = KeyMap::new();
    let defs: StatDefs = KeyMap::new();
    let touched: KeySet =
        apply_tree_conversions(&labelled, &mut attrs, &stats, &mut attr_sources, &mut stat_sources, &defs);
    reapply_multipliers_for_touched(&mut stats, &stat_sources, &touched);
    stats
}

#[test]
fn tree_conversion_into_life_matches_calc_engine() {
    const NODE: u32 = 1912;
    let custom = [("life", 100.0), ("increased_life", 50.0), ("mana", 1000.0), ("increased_mana", 100.0)];
    let conv = conversion(ConvertKind::Stat, "mana", ConvertKind::Stat, "life", 10.0);
    let without = build_pipeline(&custom, &[]);
    let with = build_pipeline(&custom, &[conv]);
    let expected_life = *with.get(&k("life")).unwrap();
    let expected_mana = *with.get(&k("mana")).unwrap();
    assert_ne!(Some(&expected_life), without.get(&k("life")), "node {NODE} must move life");
    // 100 x 1.5 = 150 without; with: 10% of 2000 mana = 200 flat, (100 + 200) x 1.5 = 450
    assert_eq!(expected_life, r(450.0, 450.0));
    assert_eq!(expected_mana, r(2000.0, 2000.0));

    let stat_contributions = contributions(&custom);
    let attr_contributions: KeyMap<Vec<Ranged>> = KeyMap::new();
    let tree_node_info: HashMap<u32, TreeNodeInfo> = HashMap::from([(NODE, mana_to_life_node())]);
    let conds: KeyMap<bool> = KeyMap::new();
    let config = empty_config();
    let state = compute_final_state(&EngineInputs {
        attr_contributions: &attr_contributions,
        stat_contributions: &stat_contributions,
        allocated_tree_nodes: &[NODE],
        tree_node_info: &tree_node_info,
        player_conditions: &conds,
        jewelry_ids: &HashSet::new(),
        game_config: &config,
    });
    assert!(state.unsupported_lines.is_empty(), "{:?}", state.unsupported_lines);
    assert_eq!(state.stats.get(&k("mana")).copied(), Some(expected_mana));
    assert_eq!(state.stats.get(&k("life")).copied(), Some(expected_life));
}

#[test]
fn final_state_scales_attributes_and_applies_all_attributes() {
    let attr_contributions = contributions(&[("strength", 10.0)]);
    let stat_contributions = contributions(&[("increased_all_attributes", 10.0), ("life_replenish", 5.0)]);
    let tree_node_info: HashMap<u32, TreeNodeInfo> = HashMap::from([(
        3u32,
        node(vec![
            stat_line("+2 to All Attributes", "all_attributes", 2.0, None),
            TreeLine {
                text: k("You cannot regenerate life from life replenish anymore"),
                class: TreeLineClass::Meta(ParsedMeta::Disable(ParsedDisable {
                    target: DisableTarget::LifeReplenish,
                })),
            },
        ]),
    )]);
    let conds: KeyMap<bool> = KeyMap::new();
    let config = empty_config();
    let state = compute_final_state(&EngineInputs {
        attr_contributions: &attr_contributions,
        stat_contributions: &stat_contributions,
        allocated_tree_nodes: &[3],
        tree_node_info: &tree_node_info,
        player_conditions: &conds,
        jewelry_ids: &HashSet::new(),
        game_config: &config,
    });
    // strength 10 + 2 = 12, + floor(12 x 10%) = 13; dexterity 0 + 2 = 2, + floor(0.2) = 2
    assert_eq!(state.attrs.get(&k("strength")).copied(), Some(r(13.0, 13.0)));
    assert_eq!(state.attrs.get(&k("dexterity")).copied(), Some(r(2.0, 2.0)));
    assert_eq!(state.attrs.len(), 6);
    assert_eq!(state.stats.get(&k("life_replenish")).copied(), Some(r(0.0, 0.0)));
    assert_eq!(state.stats.get(&k("life_replenish_pct")).copied(), Some(r(0.0, 0.0)));
}

#[test]
fn fan_outs_and_disables_on_a_stat_map() {
    let mut stats: StatMap = KeyMap::new();
    stats.insert(k("all_resistances"), r(10.0, 10.0));
    stats.insert(k("fire_resistance"), r(5.0, 5.0));
    apply_fan_outs(&mut stats);
    assert_eq!(stats.get(&k("fire_resistance")), Some(&r(15.0, 15.0)));
    assert_eq!(stats.get(&k("cold_resistance")), Some(&r(10.0, 10.0)));

    let mut disables: KeySet = KeyMap::new();
    disables.insert(k("life_replenish"), ());
    stats.insert(k("life_replenish"), r(3.0, 3.0));
    apply_disables(&mut stats, &disables);
    assert_eq!(stats.get(&k("life_replenish")), Some(&r(0.0, 0.0)));
    assert_eq!(stats.get(&k("life_replenish_pct")), Some(&r(0.0, 0.0)));
}

#[test]
fn increased_attribute_percent_floors_each_attribute() {
    let mut attrs: AttrMap = KeyMap::new();
    attrs.insert(k("strength"), r(10.0, 20.0));
    let mut stats: StatMap = KeyMap::new();
    stats.insert(k("increased_strength"), r(25.0, 25.0));
    apply_attribute_increased(&mut attrs, &stats, &[k("strength")]);
    // 10 x 1.25 = 12.5 -> 12; 20 x 1.25 = 25
    assert_eq!(attrs.get(&k("strength")), Some(&r(12.0, 25.0)));
}

#[test]
fn attribute_divided_stats_floor_per_divisor() {
    let mut attrs: AttrMap = KeyMap::new();
    attrs.insert(k("vitality"), r(50.0, 50.0));
    let mut per_vitality: KeyMap<i64> = KeyMap::new();
    per_vitality.insert(k("life_replenish"), p(8.0));
    per_vitality.insert(k("ignored"), 0);
    let mut divided: KeyMap<KeyMap<i64>> = KeyMap::new();
    divided.insert(k("vitality"), per_vitality);
    let mut stats: StatMap = KeyMap::new();
    apply_attribute_divided_stats(&mut stats, &attrs, &divided);
    // 50 / 8 = 6.25, floored to 6
    assert_eq!(stats.get(&k("life_replenish")), Some(&r(6.0, 6.0)));
    assert!(!stats.contains_key(&k("ignored")));
}

#[test]
fn per_attribute_stats_add_rate_times_points() {
    let mut attrs: AttrMap = KeyMap::new();
    attrs.insert(k("strength"), r(40.0, 50.0));
    let mut per_strength: KeyMap<i64> = KeyMap::new();
    per_strength.insert(k("enhanced_damage"), p(0.5));
    let mut per: KeyMap<KeyMap<i64>> = KeyMap::new();
    per.insert(k("strength"), per_strength);
    per.insert(k("dexterity"), KeyMap::new());
    let mut stats: StatMap = KeyMap::new();
    stats.insert(k("enhanced_damage"), r(10.0, 10.0));
    apply_per_attribute_stats(&mut stats, &attrs, &per);
    assert_eq!(stats.get(&k("enhanced_damage")), Some(&r(30.0, 35.0)));
}

#[test]
fn conversion_reads_a_multiplied_replenish_once() {
    let stat_contributions = contributions(&[("mana_replenish", 10.0), ("mana_replenish_more", 100.0)]);
    let attr_contributions: KeyMap<Vec<Ranged>> = KeyMap::new();
    let tree_node_info: HashMap<u32, TreeNodeInfo> = HashMap::from([(
        5u32,
        node(vec![TreeLine {
            text: k("50% of Mana Replenish added as Maximum Life"),
            class: TreeLineClass::Meta(ParsedMeta::Convert(conversion(
                ConvertKind::Stat,
                "mana_replenish",
                ConvertKind::Stat,
                "life",
                50.0,
            ))),
        }]),
    )]);
    let conds: KeyMap<bool> = KeyMap::new();
    let config = empty_config();
    let state = compute_final_state(&EngineInputs {
        attr_contributions: &attr_contributions,
        stat_contributions: &stat_contributions,
        allocated_tree_nodes: &[5],
        tree_node_info: &tree_node_info,
        player_conditions: &conds,
        jewelry_ids: &HashSet::new(),
        game_config: &config,
    });
    // 10 x (1 + 100%) = 20, half of it as flat life
    assert_eq!(state.stats.get(&k("mana_replenish")).copied(), Some(r(20.0, 20.0)));
    assert_eq!(state.stats.get(&k("life")).copied(), Some(r(10.0, 10.0)));
}

#[test]
fn attribute_product_is_floored_once() {
    let mut attrs: AttrMap = KeyMap::new();
    attrs.insert(k("strength"), r(3.0, 3.0));
    let mut stats: StatMap = KeyMap::new();
    // -0.000013%: 3 x 0.99999987 = 2.99999961, floored to 2
    stats.insert(k("increased_strength"), (-13, -13));
    apply_attribute_increased(&mut attrs, &stats, &[k("strength")]);
    assert_eq!(attrs.get(&k("strength")), Some(&r(2.0, 2.0)));
}
