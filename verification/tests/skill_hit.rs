use engine::damage::{AffixEffect, AffixTagRule, DamageFormula, Skill};
use engine::keymap::KeyMap;
use engine::ranged::Ranged;
use engine::skill_damage::{compute_skill_damage, CritFactors, ExtraDamage, ExtraSource, SkillDamageBreakdown, SkillInput};
use engine::stat_map::{AttrMap, StatMap};

fn p(x: f64) -> i64 {
    (x * 1_000_000.0).round() as i64
}

fn r(a: f64, b: f64) -> Ranged {
    (p(a), p(b))
}

fn tags(t: &[&str]) -> Vec<String> {
    t.iter().map(|s| s.to_string()).collect()
}

fn stats(pairs: &[(&str, f64)]) -> StatMap {
    let mut m: StatMap = KeyMap::new();
    for (k, v) in pairs {
        m.insert(k.to_string(), r(*v, *v));
    }
    m
}

fn cond(active: &[&str]) -> KeyMap<bool> {
    let mut m: KeyMap<bool> = KeyMap::new();
    for c in active {
        m.insert(c.to_string(), true);
    }
    m
}

fn rules() -> Vec<AffixTagRule> {
    vec![AffixTagRule { stat_key: "guardian_damage".to_string(), tags: tags(&["Guardian"]), effect: AffixEffect::FlatDamage }]
}

fn elements() -> Vec<String> {
    tags(&["fire", "cold", "lightning", "poison"])
}

fn entity_tags() -> Vec<String> {
    tags(&["Sentry", "Summon", "Guardian"])
}

fn no_crit() -> CritFactors {
    CritFactors { chance: 0, damage_pct: p(50.0), on_crit_mult: p(1.5), avg_mult: p(1.0) }
}

fn plain_skill() -> Skill {
    Skill {
        name: "Test Bolt".into(),
        tags: tags(&["Spell"]),
        damage_type: Some("lightning".into()),
        damage_formula: Some(DamageFormula { base: p(100.0), per_level: 0 }),
        damage_per_rank: None,
        attack_kind: None,
        bonus_sources: Vec::new(),
    }
}

struct Case {
    damage_type: &'static str,
    tags: Vec<String>,
    stats: StatMap,
    scoped: StatMap,
    conditions: KeyMap<bool>,
    conversion_flat: f64,
    conversion_skill_damage_pct: f64,
    of_total_damage: f64,
    projectile_count: u32,
}

impl Default for Case {
    fn default() -> Self {
        Case {
            damage_type: "lightning",
            tags: tags(&["Spell"]),
            stats: KeyMap::new(),
            scoped: KeyMap::new(),
            conditions: KeyMap::new(),
            conversion_flat: 0.0,
            conversion_skill_damage_pct: 0.0,
            of_total_damage: 0.0,
            projectile_count: 1,
        }
    }
}

fn breakdown(case: &Case) -> SkillDamageBreakdown {
    let mut skill = plain_skill();
    skill.damage_type = Some(case.damage_type.to_string());
    skill.tags = case.tags.clone();
    let attrs: AttrMap = KeyMap::new();
    let ranks: KeyMap<i64> = KeyMap::new();
    let bonuses: KeyMap<Ranged> = KeyMap::new();
    let resists: KeyMap<i64> = KeyMap::new();
    let by_name: KeyMap<Skill> = KeyMap::new();
    let input = SkillInput {
        skill: &skill,
        allocated_rank: p(1.0),
        attributes: &attrs,
        stats: &case.stats,
        skill_ranks_by_name: &ranks,
        item_skill_bonuses: &bonuses,
        enemy_conditions: &case.conditions,
        enemy_resistances: &resists,
        skills_by_name: &by_name,
        projectile_count: case.projectile_count,
        of_total_damage: p(case.of_total_damage),
        scoped: &case.scoped,
        conversion_flat: p(case.conversion_flat),
        conversion_skill_damage_pct: p(case.conversion_skill_damage_pct),
    };
    let extra = ExtraDamage { mult: p(1.0), sources: Vec::new() };
    compute_skill_damage(&input, &rules(), no_crit(), &extra, &elements(), &entity_tags()).expect("breakdown")
}

fn hit_max_with(of_total_damage: f64) -> i64 {
    breakdown(&Case { of_total_damage, ..Default::default() }).hit_max
}

#[test]
fn flat_elemental_skill_damage_skips_physical_skills() {
    let physical = breakdown(&Case {
        damage_type: "physical",
        stats: stats(&[("flat_elemental_skill_damage", 50.0)]),
        ..Default::default()
    });
    assert_eq!(physical.hit_max, 100, "physical hit must ignore elemental flat");
    let lightning = breakdown(&Case { stats: stats(&[("flat_elemental_skill_damage", 50.0)]), ..Default::default() });
    assert_eq!(lightning.hit_max, 150);
    let generic = breakdown(&Case {
        damage_type: "physical",
        stats: stats(&[("flat_skill_damage", 50.0)]),
        ..Default::default()
    });
    assert_eq!(generic.hit_max, 150);
}

#[test]
fn element_break_needs_the_matching_enemy_toggle() {
    let off = breakdown(&Case { damage_type: "fire", stats: stats(&[("fire_break", 100.0)]), ..Default::default() });
    assert_eq!(off.hit_max, 100);
    let on = breakdown(&Case {
        damage_type: "fire",
        stats: stats(&[("fire_break", 100.0)]),
        conditions: cond(&["fire_break"]),
        ..Default::default()
    });
    assert_eq!(on.hit_max, 200);
}

#[test]
fn element_break_only_applies_to_its_own_element() {
    let cold = breakdown(&Case {
        damage_type: "cold",
        stats: stats(&[("fire_break", 100.0)]),
        conditions: cond(&["fire_break"]),
        ..Default::default()
    });
    assert_eq!(cold.hit_max, 100);
}

#[test]
fn lightning_break_from_the_subtree_reaches_the_hit() {
    let scoped_only = breakdown(&Case {
        scoped: stats(&[("lightning_break", 150.0)]),
        conditions: cond(&["lightning_break"]),
        ..Default::default()
    });
    assert_eq!(scoped_only.hit_max, 250);
}

#[test]
fn enemy_damage_taken_increased_multiplies_the_hit() {
    let out = breakdown(&Case { scoped: stats(&[("enemy_damage_taken_increased", 25.0)]), ..Default::default() });
    assert_eq!(out.hit_max, 125);
}

#[test]
fn subtree_multicast_applies_to_a_non_spell_skill() {
    let shared = breakdown(&Case {
        tags: tags(&["Active"]),
        stats: stats(&[("multicast_chance", 50.0)]),
        ..Default::default()
    });
    assert_eq!(shared.multicast_chance_pct, 0, "shared stays Spell-gated");
    let scoped = breakdown(&Case {
        tags: tags(&["Active"]),
        scoped: stats(&[("multicast_chance", 50.0)]),
        ..Default::default()
    });
    assert_eq!(scoped.multicast_chance_pct, p(50.0));
    assert_eq!(scoped.avg_max, 150);
}

#[test]
fn conversions_land_in_the_flat_and_skill_damage_slots() {
    let flat = breakdown(&Case { conversion_flat: 100.0, ..Default::default() });
    assert_eq!(flat.flat_max, p(100.0));
    assert_eq!(flat.hit_max, 200);
    let pct = breakdown(&Case { conversion_skill_damage_pct: 50.0, ..Default::default() });
    assert_eq!(pct.skill_damage_max_pct, p(50.0));
    assert_eq!(pct.hit_max, 150);
}

#[test]
fn of_total_damage_multiplies_the_hit() {
    let base = hit_max_with(0.0);
    assert_eq!(base, 100);
    // 150% of total damage gives 2.5 times the hit.
    assert_eq!(hit_max_with(150.0), 250);
}

#[test]
fn guardian_flat_damage_lands_in_the_flat_slot_for_guardian_skills() {
    let b = breakdown(&Case {
        tags: tags(&["Spell", "Guardian"]),
        stats: stats(&[("guardian_damage", 50.0)]),
        ..Default::default()
    });
    assert_eq!(b.flat_max, p(50.0));
    assert_eq!(b.hit_max, 150);
    let plain = breakdown(&Case { stats: stats(&[("guardian_damage", 50.0)]), ..Default::default() });
    assert_eq!(plain.hit_max, 100, "flat must not leak to non-Guardian skills");
}

#[test]
fn verify_element_break_and_elemental_break_multiply_without_reuse() {
    let both = breakdown(&Case {
        damage_type: "fire",
        stats: stats(&[("elemental_break", 50.0), ("fire_break", 50.0)]),
        conditions: cond(&["fire_break"]),
        ..Default::default()
    });
    assert_eq!(both.elemental_break_pct, p(50.0));
    assert_eq!(both.hit_max, 225);
    let elemental_only = breakdown(&Case {
        damage_type: "fire",
        stats: stats(&[("elemental_break", 50.0)]),
        conditions: cond(&["fire_break"]),
        ..Default::default()
    });
    assert_eq!(elemental_only.hit_max, 150);
}

#[test]
fn entities_never_multicast_and_projectiles_count_at_least_once() {
    let sentry = breakdown(&Case {
        tags: tags(&["Spell", "Sentry"]),
        stats: stats(&[("multicast_chance", 50.0)]),
        projectile_count: 0,
        ..Default::default()
    });
    assert_eq!(sentry.multicast_chance_pct, 0);
    assert_eq!(sentry.projectile_count, 1);
    assert_eq!(sentry.avg_max, 100);
    let volley = breakdown(&Case { projectile_count: 3, ..Default::default() });
    assert_eq!(volley.avg_max, 300);
}

#[test]
fn resistance_ignore_is_held_to_a_hundred_percent() {
    let mut skill = plain_skill();
    skill.damage_type = Some("fire".to_string());
    let attrs: AttrMap = KeyMap::new();
    let ranks: KeyMap<i64> = KeyMap::new();
    let bonuses: KeyMap<Ranged> = KeyMap::new();
    let mut resists: KeyMap<i64> = KeyMap::new();
    resists.insert("fire".to_string(), p(40.0));
    let by_name: KeyMap<Skill> = KeyMap::new();
    let empty: StatMap = KeyMap::new();
    let conds: KeyMap<bool> = KeyMap::new();
    let run = |s: &StatMap| {
        let input = SkillInput {
            skill: &skill,
            allocated_rank: p(1.0),
            attributes: &attrs,
            stats: s,
            skill_ranks_by_name: &ranks,
            item_skill_bonuses: &bonuses,
            enemy_conditions: &conds,
            enemy_resistances: &resists,
            skills_by_name: &by_name,
            projectile_count: 1,
            of_total_damage: 0,
            scoped: &empty,
            conversion_flat: 0,
            conversion_skill_damage_pct: 0,
        };
        let extra = ExtraDamage {
            mult: p(1.2),
            sources: vec![ExtraSource { label: "Shock".to_string(), pct: p(20.0) }],
        };
        compute_skill_damage(&input, &rules(), no_crit(), &extra, &elements(), &entity_tags()).unwrap()
    };
    // 40% resistance, half ignored: 20% effective; 100 x 1.2 x 0.8 = 96
    let half = run(&stats(&[("ignore_fire_res", 50.0)]));
    assert_eq!(half.effective_resistance_pct, p(20.0));
    assert_eq!(half.hit_max, 96);
    assert_eq!(half.crit_max, 144);
    assert_eq!(half.extra_damage_pct, p(20.0));
    assert_eq!(half.extra_damage_sources.len(), 1);
    // ignoring more than everything ignores everything
    let all = run(&stats(&[("ignore_fire_res", 250.0)]));
    assert_eq!(all.resistance_ignored_pct, p(100.0));
    assert_eq!(all.hit_max, 120);
}

#[test]
fn no_damage_without_rank() {
    let skill = plain_skill();
    let attrs: AttrMap = KeyMap::new();
    let ranks: KeyMap<i64> = KeyMap::new();
    let bonuses: KeyMap<Ranged> = KeyMap::new();
    let resists: KeyMap<i64> = KeyMap::new();
    let by_name: KeyMap<Skill> = KeyMap::new();
    let empty: StatMap = KeyMap::new();
    let conds: KeyMap<bool> = KeyMap::new();
    let input = SkillInput {
        skill: &skill,
        allocated_rank: 0,
        attributes: &attrs,
        stats: &empty,
        skill_ranks_by_name: &ranks,
        item_skill_bonuses: &bonuses,
        enemy_conditions: &conds,
        enemy_resistances: &resists,
        skills_by_name: &by_name,
        projectile_count: 1,
        of_total_damage: 0,
        scoped: &empty,
        conversion_flat: 0,
        conversion_skill_damage_pct: 0,
    };
    let extra = ExtraDamage { mult: p(1.0), sources: Vec::new() };
    assert!(compute_skill_damage(&input, &rules(), no_crit(), &extra, &elements(), &entity_tags()).is_none());
}
