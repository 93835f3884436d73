use engine::damage::{
    archetype_skill_damage, bonus_source_synergy_pct, effective_skill_rank, element_keys, more_for,
    skill_base_damage, skill_damage_percents, skill_rank_and_base_damage, sum_for, tag_skills_bonus,
    AffixEffect, AffixTagRule, AttackKind, BonusSource, BonusSourceKind, DamageFormula, RankDamage, Skill,
};
use engine::keymap::KeyMap;
use engine::ranged::Ranged;
use engine::stat_map::{AttrMap, StatMap};

fn p(x: f64) -> i64 {
    (x * 1_000_000.0).round() as i64
}

fn r(a: f64, b: f64) -> Ranged {
    (p(a), p(b))
}

fn tags(t: &[&str]) -> Vec<String> {
    t.iter().map(|s| s.to_string()).collect()
}

fn stats(pairs: &[(&str, f64)]) -> StatMap {
    let mut m: StatMap = KeyMap::new();
    for (k, v) in pairs {
        m.insert(k.to_string(), r(*v, *v));
    }
    m
}

fn rule(stat_key: &str, t: &[&str], effect: AffixEffect) -> AffixTagRule {
    AffixTagRule { stat_key: stat_key.to_string(), tags: tags(t), effect }
}

/// The tag-gated stats of the game data that these cases exercise.
fn rules() -> Vec<AffixTagRule> {
    vec![
        rule("orbital_skill_damage", &["Orbital"], AffixEffect::Damage),
        rule("orbital_skill_damage_more", &["Orbital"], AffixEffect::DamageMore),
        rule("sentry_damage", &["Sentry"], AffixEffect::Damage),
        rule("sentry_damage_more", &["Sentry"], AffixEffect::DamageMore),
        rule("summon_damage", &["Summon"], AffixEffect::Damage),
        rule("explosion_damage", &["Explosion"], AffixEffect::Damage),
        rule("spell_aoe_damage", &["Spell", "Area of Effect"], AffixEffect::Damage),
        rule("guardian_damage", &["Guardian"], AffixEffect::FlatDamage),
        rule("projectile_skills", &["Projectile"], AffixEffect::SkillLevels),
        rule("sentry_skills", &["Sentry"], AffixEffect::SkillLevels),
    ]
}

fn skill(name: &str, t: &[&str]) -> Skill {
    Skill {
        name: name.to_string(),
        tags: tags(t),
        damage_type: Some("physical".to_string()),
        damage_formula: None,
        damage_per_rank: None,
        attack_kind: None,
        bonus_sources: Vec::new(),
    }
}

#[test]
fn archetype_orbital_applies_additive_and_more() {
    let s = stats(&[("orbital_skill_damage", 30.0), ("orbital_skill_damage_more", 50.0)]);
    let (add, more) = archetype_skill_damage(&s, &tags(&["Orbital"]), &rules());
    assert_eq!(add, r(30.0, 30.0));
    assert_eq!(more, r(1.5, 1.5));
}

#[test]
fn archetype_ignored_when_tag_absent() {
    let s = stats(&[("orbital_skill_damage", 30.0), ("explosion_damage", 40.0)]);
    let (add, more) = archetype_skill_damage(&s, &tags(&["Spell"]), &rules());
    assert_eq!(add, r(0.0, 0.0));
    assert_eq!(more, r(1.0, 1.0));
}

#[test]
fn archetype_spell_aoe_requires_both_tags() {
    let s = stats(&[("spell_aoe_damage", 20.0)]);
    assert_eq!(
        archetype_skill_damage(&s, &tags(&["Spell"]), &rules()).0,
        r(0.0, 0.0),
        "AoE damage must not apply to a non-AoE spell",
    );
    assert_eq!(archetype_skill_damage(&s, &tags(&["Spell", "Area of Effect"]), &rules()).0, r(20.0, 20.0));
}

#[test]
fn archetype_sentry_applies_additive_and_more() {
    let s = stats(&[("sentry_damage", 30.0), ("sentry_damage_more", 50.0)]);
    let (add, more) = archetype_skill_damage(&s, &tags(&["Sentry"]), &rules());
    assert_eq!(add, r(30.0, 30.0));
    assert_eq!(more, r(1.5, 1.5));
}

#[test]
fn archetype_summon_is_additive_only() {
    let s = stats(&[("summon_damage", 25.0)]);
    let (add, more) = archetype_skill_damage(&s, &tags(&["Summon"]), &rules());
    assert_eq!(add, r(25.0, 25.0));
    assert_eq!(more, r(1.0, 1.0));
}

#[test]
fn archetype_explosion_is_additive_only() {
    let s = stats(&[("explosion_damage", 40.0)]);
    let (add, more) = archetype_skill_damage(&s, &tags(&["Explosion"]), &rules());
    assert_eq!(add, r(40.0, 40.0));
    assert_eq!(more, r(1.0, 1.0));
}

#[test]
fn tag_skills_bonus_requires_the_matching_tag() {
    let s = stats(&[("projectile_skills", 4.0), ("sentry_skills", 3.0)]);
    let mut sk = skill("Test Throw", &["Active", "Projectile"]);
    assert_eq!(tag_skills_bonus(&s, &sk, &rules()), r(4.0, 4.0));
    sk.tags = tags(&["Active", "Projectile", "Sentry"]);
    assert_eq!(tag_skills_bonus(&s, &sk, &rules()), r(7.0, 7.0), "tag keys stack");
    sk.tags = tags(&["Active", "Spell"]);
    assert_eq!(tag_skills_bonus(&s, &sk, &rules()), r(0.0, 0.0));
}

#[test]
fn guardian_flat_damage_only_for_guardian_skills() {
    let s = stats(&[("guardian_damage", 50.0)]);
    assert_eq!(sum_for(&rules(), AffixEffect::FlatDamage, &tags(&["Spell", "Guardian"]), &s), r(50.0, 50.0));
    assert_eq!(sum_for(&rules(), AffixEffect::FlatDamage, &tags(&["Spell"]), &s), r(0.0, 0.0));
}

#[test]
fn more_multipliers_compound_across_rules() {
    let rs = vec![
        rule("orbital_skill_damage_more", &["Orbital"], AffixEffect::DamageMore),
        rule("spell_damage_more", &["Spell"], AffixEffect::DamageMore),
    ];
    let s = stats(&[("orbital_skill_damage_more", 50.0), ("spell_damage_more", 20.0)]);
    // 1.5 x 1.2 = 1.8
    assert_eq!(more_for(&rs, AffixEffect::DamageMore, &tags(&["Orbital", "Spell"]), &s), r(1.8, 1.8));
}

#[test]
fn element_keys_name_the_element_stats() {
    let fire = element_keys("fire").unwrap();
    assert_eq!(fire.skills, "fire_skills");
    assert_eq!(fire.skill_damage, "fire_skill_damage");
    assert_eq!(fire.skill_damage_more, "fire_skill_damage_more");
    assert_eq!(fire.flat_skill_damage, "flat_fire_skill_damage");
    assert_eq!(fire.ignore_res, "ignore_fire_res");
    assert!(element_keys("holy").is_none());
}

#[test]
fn synergy_adds_per_attribute_point_and_per_effective_rank() {
    let mut attributes: AttrMap = KeyMap::new();
    attributes.insert("intelligence".to_string(), r(50.0, 50.0));
    let s = stats(&[("all_skills", 2.0), ("fire_skills", 1.0)]);
    let mut ranks: KeyMap<i64> = KeyMap::new();
    ranks.insert("Fire Bolt".to_string(), p(5.0));
    let mut skills: KeyMap<Skill> = KeyMap::new();
    let mut bolt = skill("Fire Bolt", &["Spell"]);
    bolt.damage_type = Some("fire".to_string());
    skills.insert("Fire Bolt".to_string(), bolt);
    let mut items: KeyMap<Ranged> = KeyMap::new();
    items.insert("Fire Bolt".to_string(), r(1.0, 2.0));

    let mut nova = skill("Nova", &["Spell"]);
    nova.bonus_sources = vec![
        BonusSource {
            kind: BonusSourceKind::AttributePoint,
            source: "intelligence".to_string(),
            stat: "skill_damage".to_string(),
            value: p(0.5),
        },
        BonusSource {
            kind: BonusSourceKind::SkillLevel,
            source: "Fire Bolt".to_string(),
            stat: "skill_damage".to_string(),
            value: p(10.0),
        },
        BonusSource {
            kind: BonusSourceKind::SkillLevel,
            source: "Fire Bolt".to_string(),
            stat: "attack_rating".to_string(),
            value: p(100.0),
        },
    ];
    // 50 intelligence x 0.5% = 25%; Fire Bolt at rank 5 + 2 all + 1 fire
    // + 1..2 item = 9..10, x 10% = 90..100%; attack rating is never a
    // spell synergy.
    let v = bonus_source_synergy_pct(&nova, &attributes, &s, &ranks, &skills, &items, &rules(), false);
    assert_eq!(v, r(115.0, 125.0));

    // The attack path takes only attack damage synergies.
    let a = bonus_source_synergy_pct(&nova, &attributes, &s, &ranks, &skills, &items, &rules(), true);
    assert_eq!(a, r(0.0, 0.0));
}

#[test]
fn attack_damage_synergy_skips_the_spell_path_of_attacks() {
    let attributes: AttrMap = KeyMap::new();
    let s = stats(&[]);
    let mut ranks: KeyMap<i64> = KeyMap::new();
    ranks.insert("Cleave".to_string(), p(3.0));
    let skills: KeyMap<Skill> = KeyMap::new();
    let items: KeyMap<Ranged> = KeyMap::new();
    let mut strike = skill("Strike", &["Attack"]);
    strike.attack_kind = Some(AttackKind::Attack);
    strike.bonus_sources = vec![BonusSource {
        kind: BonusSourceKind::SkillLevel,
        source: "Cleave".to_string(),
        stat: "attack_damage".to_string(),
        value: p(4.0),
    }];
    // Unknown source skill: the bare rank counts, 3 x 4% = 12%.
    assert_eq!(
        bonus_source_synergy_pct(&strike, &attributes, &s, &ranks, &skills, &items, &rules(), true),
        r(12.0, 12.0)
    );
    assert_eq!(
        bonus_source_synergy_pct(&strike, &attributes, &s, &ranks, &skills, &items, &rules(), false),
        r(0.0, 0.0)
    );
}

fn bolt() -> Skill {
    let mut s = skill("Test Bolt", &["Spell"]);
    s.damage_type = Some("lightning".to_string());
    s.damage_formula = Some(DamageFormula { base: p(100.0), per_level: p(0.0) });
    s
}

fn table(rows: &[(f64, f64)]) -> Vec<RankDamage> {
    rows.iter().map(|(lo, hi)| RankDamage { min: p(*lo), max: p(*hi) }).collect()
}

#[test]
fn formula_base_damage_grows_per_level_and_never_goes_negative() {
    let mut s = bolt();
    s.damage_formula = Some(DamageFormula { base: p(100.0), per_level: p(10.0) });
    assert_eq!(skill_base_damage(&s, r(3.0, 4.5)), r(130.0, 145.0));
    s.damage_formula = Some(DamageFormula { base: p(-50.0), per_level: p(10.0) });
    assert_eq!(skill_base_damage(&s, r(1.0, 8.0)), r(0.0, 30.0));
}

#[test]
fn table_base_damage_reads_the_whole_rank_and_extrapolates_past_the_end() {
    let mut s = bolt();
    s.damage_formula = None;
    s.damage_per_rank = Some(table(&[(10.0, 20.0), (15.0, 25.0), (22.0, 30.0)]));
    // rank 2 and rank 2.7 both read the second row
    assert_eq!(skill_base_damage(&s, r(2.0, 2.7)), r(15.0, 25.0));
    // below rank one reads the first row
    assert_eq!(skill_base_damage(&s, r(0.5, -3.0)), r(10.0, 20.0));
    // rank 5: the last row plus two steps of the final slope (7 and 5)
    assert_eq!(skill_base_damage(&s, r(5.0, 5.0)), r(36.0, 40.0));
    // a one-row table has no slope
    s.damage_per_rank = Some(table(&[(8.0, 9.0)]));
    assert_eq!(skill_base_damage(&s, r(4.0, 4.0)), r(8.0, 9.0));
    // a falling slope stops at zero
    s.damage_per_rank = Some(table(&[(20.0, 20.0), (10.0, 10.0)]));
    assert_eq!(skill_base_damage(&s, r(3.0, 9.0)), r(0.0, 0.0));
}

#[test]
fn skill_without_rank_or_damage_source_has_no_base_damage() {
    let s = stats(&[("all_skills", 2.0)]);
    let items: KeyMap<Ranged> = KeyMap::new();
    assert!(skill_rank_and_base_damage(&bolt(), 0, &s, &items, &rules()).is_none());
    let mut no_damage = bolt();
    no_damage.damage_formula = None;
    assert!(skill_rank_and_base_damage(&no_damage, p(1.0), &s, &items, &rules()).is_none());
    no_damage.damage_per_rank = Some(Vec::new());
    assert!(skill_rank_and_base_damage(&no_damage, p(1.0), &s, &items, &rules()).is_none());
}

#[test]
fn effective_rank_adds_all_element_tag_and_item_levels() {
    let s = stats(&[("all_skills", 2.0), ("lightning_skills", 1.0), ("fire_skills", 9.0), ("sentry_skills", 3.0)]);
    let mut items: KeyMap<Ranged> = KeyMap::new();
    items.insert("Test Bolt".to_string(), r(1.0, 2.0));
    let mut sk = bolt();
    sk.tags = tags(&["Spell", "Sentry"]);
    assert_eq!(effective_skill_rank(p(1.0), &s, &sk, &items, &rules()), r(8.0, 9.0));
    sk.damage_formula = Some(DamageFormula { base: p(100.0), per_level: p(10.0) });
    assert_eq!(
        skill_rank_and_base_damage(&sk, p(1.0), &s, &items, &rules()),
        Some((r(8.0, 9.0), r(180.0, 190.0)))
    );
}

#[test]
fn skill_damage_percents_add_and_multiply_by_element() {
    let s = stats(&[
        ("magic_skill_damage", 10.0),
        ("lightning_skill_damage", 20.0),
        ("fire_skill_damage", 99.0),
        ("magic_skill_damage_more", 50.0),
        ("lightning_skill_damage_more", 20.0),
    ]);
    let (add, more) = skill_damage_percents(&s, &bolt(), &rules(), p(50.0));
    assert_eq!(add, r(80.0, 80.0));
    // 1.5 x 1.2 = 1.8
    assert_eq!(more, r(1.8, 1.8));
    let mut physical = bolt();
    physical.damage_type = Some("physical".to_string());
    let (add, more) = skill_damage_percents(&s, &physical, &rules(), 0);
    assert_eq!(add, r(10.0, 10.0));
    assert_eq!(more, r(1.5, 1.5));
}
