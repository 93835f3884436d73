//! The damage of one skill hit: effective rank and base damage, flat
//! damage, synergy and skill percents, extra damage, breaks, resistance,
//! crits, multicast and projectiles.
//!
//! Multipliers are in millionths (one is `1_000_000`); percents in
//! millionths of a percentage point.  The hit is built factor by factor,
//! each product to the nearest millionth, and rounded down to whole points
//! at the end.
use vstd::prelude::*;
use vstd::string::*;
use crate::damage::{
    bonus_source_synergy_pct, contains_tag, element_keys, element_names, skill_damage_percents,
    skill_rank_and_base_damage, base_damage_spec, deals_damage, effective_rank_spec, skill_damage_pct_spec,
    skill_more_spec, sum_for, synergy_spec, tag_sum, AffixEffect, AffixTagRule, AttackKind, Skill,
};
use crate::keymap::KeyMap;
use crate::ranged::{clamp, clamp_wide, product_end, product_endpoint, scale_end, scale_endpoint, Ranged};
use crate::stat_map::{key, key_views, value_of, value_or_zero, AttrMap, StatMap};

verus! {

/// Crit figures of the build (computed from its stats elsewhere): chance
/// and damage in percent millionths, the multiplier of a crit and the
/// average multiplier over hits, both in millionths.
#[derive(Clone, Copy)]
pub struct CritFactors {
    pub chance: i64,
    pub damage_pct: i64,
    pub on_crit_mult: i64,
    pub avg_mult: i64,
}

/// One source of extra damage, with its percent.
pub struct ExtraSource {
    pub label: String,
    pub pct: i64,
}

/// Extra damage that applies to the hit: its combined multiplier (in
/// millionths) and its sources.
pub struct ExtraDamage {
    pub mult: i64,
    pub sources: Vec<ExtraSource>,
}

/// Everything one skill's damage reads.
pub struct SkillInput<'a> {
    pub skill: &'a Skill,
    /// In millionths of a rank.
    pub allocated_rank: i64,
    pub attributes: &'a AttrMap,
    pub stats: &'a StatMap,
    pub skill_ranks_by_name: &'a KeyMap<i64>,
    pub item_skill_bonuses: &'a KeyMap<Ranged>,
    pub enemy_conditions: &'a KeyMap<bool>,
    /// Damage type to enemy resistance percent.
    pub enemy_resistances: &'a KeyMap<i64>,
    pub skills_by_name: &'a KeyMap<Skill>,
    pub projectile_count: u32,
    /// The skill's own subtree "of total damage" percent, weighted by proc
    /// chance.
    pub of_total_damage: i64,
    /// The skill's own subtree values, which never enter the shared stats.
    pub scoped: &'a StatMap,
    /// Flat damage converted from a build stat.
    pub conversion_flat: i64,
    /// Additive skill damage percent converted from a build stat.
    pub conversion_skill_damage_pct: i64,
}

/// The damage of one skill hit and the figures it was built from.  Hits,
/// crits and averages are whole points.
pub struct SkillDamageBreakdown {
    pub effective_rank_min: i64,
    pub effective_rank_max: i64,
    pub base_min: i64,
    pub base_max: i64,
    pub flat_min: i64,
    pub flat_max: i64,
    pub synergy_min_pct: i64,
    pub synergy_max_pct: i64,
    pub skill_damage_min_pct: i64,
    pub skill_damage_max_pct: i64,
    pub extra_damage_pct: i64,
    pub extra_damage_sources: Vec<ExtraSource>,
    pub crit_chance: i64,
    pub crit_damage_pct: i64,
    pub crit_multiplier_avg: i64,
    pub multicast_chance_pct: i64,
    pub multicast_multiplier: i64,
    pub projectile_count: u32,
    pub elemental_break_pct: i64,
    pub elemental_break_multiplier: i64,
    pub enemy_resistance_pct: i64,
    pub resistance_ignored_pct: i64,
    pub effective_resistance_pct: i64,
    pub resistance_multiplier: i64,
    pub hit_min: i64,
    pub hit_max: i64,
    pub crit_min: i64,
    pub crit_max: i64,
    pub final_min: i64,
    pub final_max: i64,
    pub avg_min: i64,
    pub avg_max: i64,
}

// ---------- spec of the parts ----------

/// The skill's damage type, when it is one of `elements`.
pub open spec fn is_elemental(skill: Skill, elements: Seq<Seq<char>>) -> bool {
    skill.damage_type matches Some(dt) && elements.contains(dt@)
}

/// The stat `<prefix><element><suffix>` of the skill's element, when the
/// element has keys of its own; zero otherwise.
pub open spec fn element_key_value(
    skill: Skill,
    stats: Map<Seq<char>, Ranged>,
    prefix: Seq<char>,
    suffix: Seq<char>,
) -> Ranged {
    match skill.damage_type {
        Some(dt) => if element_names().contains(dt@) {
            value_of(stats, prefix + dt@ + suffix)
        } else {
            (0i64, 0i64)
        },
        None => (0i64, 0i64),
    }
}

/// The maximum endpoint of a range.
pub open spec fn top(v: Ranged) -> int {
    v.1 as int
}

pub open spec fn at_least_zero(x: int) -> int {
    if x < 0 {
        0
    } else {
        x
    }
}

/// Flat damage: flat skill damage, elemental flat damage for an elemental
/// skill, the element's own flat damage, tag-gated flat damage and the
/// converted flat damage.
pub open spec fn flat_spec(
    skill: Skill,
    stats: Map<Seq<char>, Ranged>,
    rules: Seq<AffixTagRule>,
    elements: Seq<Seq<char>>,
    conversion_flat: i64,
) -> Ranged {
    let f = value_of(stats, "flat_skill_damage"@);
    let e = if is_elemental(skill, elements) {
        value_of(stats, "flat_elemental_skill_damage"@)
    } else {
        (0i64, 0i64)
    };
    let k = element_key_value(skill, stats, "flat_"@, "_skill_damage"@);
    let t = tag_sum(rules, AffixEffect::FlatDamage, key_views(skill.tags@), stats);
    (
        clamp(f.0 + e.0 + k.0 + t.0 + conversion_flat) as i64,
        clamp(f.1 + e.1 + k.1 + t.1 + conversion_flat) as i64,
    )
}

/// The extra-damage multiplier with the subtree's "of total damage" folded
/// in when it is positive.
pub open spec fn extra_mult_spec(extra_mult: i64, of_total: i64) -> int {
    if of_total > 0 {
        scale_end(extra_mult as int, of_total as int)
    } else {
        extra_mult as int
    }
}

/// The resistance ignored for the skill's element, held to 0..100%.
pub open spec fn ignore_spec(skill: Skill, stats: Map<Seq<char>, Ranged>) -> int {
    let raw = top(element_key_value(skill, stats, "ignore_"@, "_res"@));
    if raw < 0 {
        0
    } else if raw > 100_000_000 {
        100_000_000
    } else {
        raw
    }
}

/// The enemy's resistance to the skill's damage type (zero when unknown).
pub open spec fn enemy_res_spec(skill: Skill, resistances: Map<Seq<char>, i64>) -> int {
    match skill.damage_type {
        Some(dt) => if resistances.contains_key(dt@) {
            resistances[dt@] as int
        } else {
            0
        },
        None => 0,
    }
}

/// Elemental break for an elemental skill: the shared value plus the spell
/// or strike value, never below zero.
pub open spec fn elemental_break_spec(
    skill: Skill,
    stats: Map<Seq<char>, Ranged>,
    elements: Seq<Seq<char>>,
    is_spell: bool,
) -> int {
    if is_elemental(skill, elements) {
        let on = if is_spell {
            value_of(stats, "elemental_break_on_spell"@)
        } else {
            value_of(stats, "elemental_break_on_strike"@)
        };
        at_least_zero(clamp(top(value_of(stats, "elemental_break"@)) + top(on)))
    } else {
        0
    }
}

/// The break of the skill's own element, only while the enemy's
/// `<element>_break` toggle is on: shared plus scoped, never below zero.
pub open spec fn element_break_spec(
    skill: Skill,
    stats: Map<Seq<char>, Ranged>,
    scoped: Map<Seq<char>, Ranged>,
    conditions: Map<Seq<char>, bool>,
    elements: Seq<Seq<char>>,
) -> int {
    match skill.damage_type {
        Some(dt) => {
            let k = dt@ + "_break"@;
            if elements.contains(dt@) && conditions.contains_key(k) && conditions[k] {
                at_least_zero(clamp(top(value_of(stats, k)) + top(value_of(scoped, k))))
            } else {
                0
            }
        },
        None => 0,
    }
}

/// One endpoint of the hit before rounding, in millionths: flat plus base,
/// times each factor in turn.
pub open spec fn hit_chain(
    base_flat: int,
    synergy: int,
    skill_pct: int,
    skill_more: int,
    extra: int,
    taken: int,
    elemental_break: int,
    element_break: int,
    eff_res: int,
) -> int {
    let x1 = scale_end(base_flat, synergy);
    let x2 = scale_end(x1, skill_pct);
    let x3 = product_end(x2, skill_more);
    let x4 = product_end(x3, extra);
    let x5 = scale_end(x4, taken);
    let x6 = scale_end(x5, elemental_break);
    let x7 = scale_end(x6, element_break);
    scale_end(x7, clamp(-eff_res))
}

/// The skill carries one of the entity tags (it spawns an entity).
pub open spec fn is_entity(tags: Seq<Seq<char>>, entity_tags: Seq<Seq<char>>) -> bool {
    exists|i: int| 0 <= i < entity_tags.len() && tags.contains(#[trigger] entity_tags[i])
}

/// Multicast chance: the shared value for spells plus the scoped value,
/// never below zero; zero for a skill that spawns an entity.
pub open spec fn multicast_spec(
    stats: Map<Seq<char>, Ranged>,
    scoped: Map<Seq<char>, Ranged>,
    tags: Seq<Seq<char>>,
    entity_tags: Seq<Seq<char>>,
) -> int {
    let is_spell = tags.contains("Spell"@);
    let shared = if is_spell {
        top(value_of(stats, "multicast_chance"@))
    } else {
        0
    };
    if is_entity(tags, entity_tags) {
        0
    } else {
        at_least_zero(clamp(shared + top(value_of(scoped, "multicast_chance"@))))
    }
}

/// An extra source as plain values.
pub open spec fn extra_view(e: ExtraSource) -> (Seq<char>, i64) {
    (e.label@, e.pct)
}

// ---------- exec parts ----------

fn is_spell_skill(skill: &Skill) -> (b: bool)
    ensures
        b == key_views(skill.tags@).contains("Spell"@),
{
    contains_tag(skill.tags.as_slice(), &key("Spell"))
}

fn list_has(v: &[String], x: &String) -> (b: bool)
    ensures
        b == key_views(v@).contains(x@),
{
    contains_tag(v, x)
}

fn element_value_of(skill: &Skill, stats: &StatMap, flat: bool) -> (r: Ranged)
    requires
        stats.wf(),
    ensures
        flat ==> r == element_key_value(*skill, stats@, "flat_"@, "_skill_damage"@),
        !flat ==> r == element_key_value(*skill, stats@, "ignore_"@, "_res"@),
{
    match &skill.damage_type {
        Some(dt) => match element_keys(dt.as_str()) {
            Some(k) => {
                proof {
                    assert(("flat_"@ + dt@) + "_skill_damage"@ =~= "flat_"@ + dt@ + "_skill_damage"@);
                }
                if flat {
                    value_or_zero(stats, &k.flat_skill_damage)
                } else {
                    value_or_zero(stats, &k.ignore_res)
                }
            },
            None => (0, 0),
        },
        None => (0, 0),
    }
}

fn elemental_of(skill: &Skill, elements: &[String]) -> (b: bool)
    ensures
        b == is_elemental(*skill, key_views(elements@)),
{
    match &skill.damage_type {
        Some(dt) => list_has(elements, dt),
        None => false,
    }
}

fn flat_of(
    skill: &Skill,
    stats: &StatMap,
    rules: &[AffixTagRule],
    elements: &[String],
    conversion_flat: i64,
) -> (r: Ranged)
    requires
        stats.wf(),
    ensures
        r == flat_spec(*skill, stats@, rules@, key_views(elements@), conversion_flat),
{
    let f = value_or_zero(stats, &key("flat_skill_damage"));
    let e: Ranged = if elemental_of(skill, elements) {
        value_or_zero(stats, &key("flat_elemental_skill_damage"))
    } else {
        (0, 0)
    };
    let k = element_value_of(skill, stats, true);
    let t = sum_for(rules, AffixEffect::FlatDamage, skill.tags.as_slice(), stats);
    (
        clamp_wide(f.0 as i128 + e.0 as i128 + k.0 as i128 + t.0 as i128 + conversion_flat as i128),
        clamp_wide(f.1 as i128 + e.1 as i128 + k.1 as i128 + t.1 as i128 + conversion_flat as i128),
    )
}

fn non_negative_of(x: i64) -> (r: i64)
    ensures
        r == at_least_zero(x as int),
{
    if x < 0 {
        0
    } else {
        x
    }
}

fn ignore_of(skill: &Skill, stats: &StatMap) -> (r: i64)
    requires
        stats.wf(),
    ensures
        r == ignore_spec(*skill, stats@),
{
    let raw = element_value_of(skill, stats, false).1;
    if raw < 0 {
        0
    } else if raw > 100_000_000 {
        100_000_000
    } else {
        raw
    }
}

fn enemy_res_of(skill: &Skill, resistances: &KeyMap<i64>) -> (r: i64)
    requires
        resistances.wf(),
    ensures
        r == enemy_res_spec(*skill, resistances@),
{
    match &skill.damage_type {
        Some(dt) => match resistances.get(dt) {
            Some(v) => *v,
            None => 0,
        },
        None => 0,
    }
}

fn elemental_break_of(skill: &Skill, stats: &StatMap, elements: &[String], is_spell: bool) -> (r: i64)
    requires
        stats.wf(),
    ensures
        r == elemental_break_spec(*skill, stats@, key_views(elements@), is_spell),
{
    if elemental_of(skill, elements) {
        let on = if is_spell {
            value_or_zero(stats, &key("elemental_break_on_spell"))
        } else {
            value_or_zero(stats, &key("elemental_break_on_strike"))
        };
        let shared = value_or_zero(stats, &key("elemental_break"));
        non_negative_of(clamp_wide(shared.1 as i128 + on.1 as i128))
    } else {
        0
    }
}

fn element_break_of(
    skill: &Skill,
    stats: &StatMap,
    scoped: &StatMap,
    conditions: &KeyMap<bool>,
    elements: &[String],
) -> (r: i64)
    requires
        stats.wf(),
        scoped.wf(),
        conditions.wf(),
    ensures
        r == element_break_spec(*skill, stats@, scoped@, conditions@, key_views(elements@)),
{
    match &skill.damage_type {
        Some(dt) => {
            let mut k = dt.clone();
            k.append("_break");
            let on = match conditions.get(&k) {
                Some(b) => *b,
                None => false,
            };
            if list_has(elements, dt) && on {
                let a = value_or_zero(stats, &k);
                let b = value_or_zero(scoped, &k);
                non_negative_of(clamp_wide(a.1 as i128 + b.1 as i128))
            } else {
                0
            }
        },
        None => 0,
    }
}

fn hit_endpoint(
    base_flat: i64,
    synergy: i64,
    skill_pct: i64,
    skill_more: i64,
    extra: i64,
    taken: i64,
    elemental_break: i64,
    element_break: i64,
    eff_res: i64,
) -> (r: i64)
    ensures
        r == hit_chain(
            base_flat as int,
            synergy as int,
            skill_pct as int,
            skill_more as int,
            extra as int,
            taken as int,
            elemental_break as int,
            element_break as int,
            eff_res as int,
        ),
{
    let x1 = scale_endpoint(base_flat, synergy);
    let x2 = scale_endpoint(x1, skill_pct);
    let x3 = product_endpoint(x2, skill_more);
    let x4 = product_endpoint(x3, extra);
    let x5 = scale_endpoint(x4, taken);
    let x6 = scale_endpoint(x5, elemental_break);
    let x7 = scale_endpoint(x6, element_break);
    scale_endpoint(x7, clamp_wide(-(eff_res as i128)))
}

fn multicast_of(stats: &StatMap, scoped: &StatMap, skill: &Skill, entity_tags: &[String]) -> (r: i64)
    requires
        stats.wf(),
        scoped.wf(),
    ensures
        r == multicast_spec(stats@, scoped@, key_views(skill.tags@), key_views(entity_tags@)),
{
    let is_spell = is_spell_skill(skill);
    let shared: i64 = if is_spell {
        value_or_zero(stats, &key("multicast_chance")).1
    } else {
        0
    };
    let n = entity_tags.len();
    let mut i: usize = 0;
    let mut entity = false;
    while i < n
        invariant
            n == entity_tags@.len(),
            i <= n,
            entity == exists|j: int|
                0 <= j < i && key_views(skill.tags@).contains(#[trigger] key_views(entity_tags@)[j]),
        decreases n - i,
    {
        if contains_tag(skill.tags.as_slice(), &entity_tags[i]) {
            entity = true;
        }
        proof {
            assert(key_views(entity_tags@)[i as int] == entity_tags@[i as int]@);
        }
        i = i + 1;
    }
    if entity {
        0
    } else {
        let scoped_mc = value_or_zero(scoped, &key("multicast_chance")).1;
        non_negative_of(clamp_wide(shared as i128 + scoped_mc as i128))
    }
}

fn copy_extra_sources(v: &Vec<ExtraSource>) -> (r: Vec<ExtraSource>)
    ensures
        r@.map_values(|e: ExtraSource| extra_view(e)) == v@.map_values(|e: ExtraSource| extra_view(e)),
{
    let mut r: Vec<ExtraSource> = Vec::new();
    let n = v.len();
    let mut i: usize = 0;
    while i < n
        invariant
            n == v@.len(),
            i <= n,
            r@.len() == i,
            forall|j: int| 0 <= j < i ==> extra_view(#[trigger] r@[j]) == extra_view(v@[j]),
        decreases n - i,
    {
        let label = v[i].label.clone();
        r.push(ExtraSource { label, pct: v[i].pct });
        i = i + 1;
    }
    proof {
        assert(r@.map_values(|e: ExtraSource| extra_view(e)) =~= v@.map_values(|e: ExtraSource| extra_view(e)));
    }
    r
}

// ---------- the whole hit ----------

pub open spec fn input_rank<'a>(input: SkillInput<'a>, rules: Seq<AffixTagRule>) -> Ranged {
    effective_rank_spec(input.allocated_rank, input.stats@, *input.skill, input.item_skill_bonuses@, rules)
}

pub open spec fn input_synergy<'a>(input: SkillInput<'a>, rules: Seq<AffixTagRule>) -> Ranged {
    synergy_spec(
        input.skill.bonus_sources@,
        input.skill.attack_kind == Some(AttackKind::Attack),
        false,
        input.attributes@,
        input.stats@,
        input.skill_ranks_by_name@,
        input.skills_by_name@,
        input.item_skill_bonuses@,
        rules,
    )
}

/// The enemy resistance left after the ignored part:
/// `resistance x (1 - ignored%)`.
pub open spec fn effective_res_spec<'a>(input: SkillInput<'a>) -> int {
    scale_end(
        enemy_res_spec(*input.skill, input.enemy_resistances@),
        -ignore_spec(*input.skill, input.stats@),
    )
}

/// One endpoint of the hit before rounding, in millionths.
pub open spec fn hit_raw<'a>(
    input: SkillInput<'a>,
    rules: Seq<AffixTagRule>,
    extra: i64,
    elements: Seq<Seq<char>>,
    is_max: bool,
) -> int {
    let skill = *input.skill;
    let stats = input.stats@;
    let base = base_damage_spec(skill, input_rank(input, rules));
    let flat = flat_spec(skill, stats, rules, elements, input.conversion_flat);
    let syn = input_synergy(input, rules);
    let pct = skill_damage_pct_spec(stats, skill, rules, input.conversion_skill_damage_pct);
    let more = skill_more_spec(stats, skill, rules);
    let is_spell = key_views(skill.tags@).contains("Spell"@);
    let taken = at_least_zero(top(value_of(input.scoped@, "enemy_damage_taken_increased"@)));
    let eb = elemental_break_spec(skill, stats, elements, is_spell);
    let elb = element_break_spec(skill, stats, input.scoped@, input.enemy_conditions@, elements);
    let x = extra_mult_spec(extra, input.of_total_damage);
    let er = effective_res_spec(input);
    if is_max {
        hit_chain(clamp(base.1 + flat.1), syn.1 as int, pct.1 as int, more.1 as int, x, taken, eb, elb, er)
    } else {
        hit_chain(clamp(base.0 + flat.0), syn.0 as int, pct.0 as int, more.0 as int, x, taken, eb, elb, er)
    }
}

/// The average of one endpoint before rounding: the hit times the average
/// crit multiplier, the multicast chance and the projectile count (at
/// least one).
pub open spec fn avg_raw(hit: int, avg_mult: i64, multicast: int, projectiles: u32) -> int {
    let n: int = if projectiles < 1 {
        1
    } else {
        projectiles as int
    };
    clamp(scale_end(product_end(hit, avg_mult as int), multicast) * n)
}

/// No damage without an allocated rank or without a damage formula or
/// table.
pub open spec fn has_damage<'a>(input: SkillInput<'a>) -> bool {
    input.allocated_rank != 0 && deals_damage(*input.skill)
}

fn scaled_one(pct: i64) -> (r: i64)
    ensures
        r == scale_end(1_000_000, pct as int),
{
    scale_endpoint(1_000_000, pct)
}

/// The damage of one hit of `input.skill`, none without an allocated rank
/// or a damage formula or table.  The hit is `(base + flat) x (1 +
/// synergy%) x (1 + skill damage%) x skill more x extra x (1 + damage
/// taken%) x (1 + elemental break%) x (1 + element break%) x (1 -
/// effective resistance%)`, rounded down to whole points.  Elemental
/// break needs an elemental skill (one of `elements`), the element's own
/// break its `<element>_break` enemy toggle; the ignored resistance is held
/// to 0..100%; a skill carrying one of `entity_tags` never multicasts, and
/// the shared multicast chance is for spells only; there is at least one
/// projectile.  `crit` and `extra` are the build's crit figures and extra
/// damage; the subtree's "of total damage" joins the extra damage.
pub fn compute_skill_damage(
    input: &SkillInput,
    rules: &[AffixTagRule],
    crit: CritFactors,
    extra: &ExtraDamage,
    elements: &[String],
    entity_tags: &[String],
) -> (r: Option<SkillDamageBreakdown>)
    requires
        input.attributes.wf(),
        input.stats.wf(),
        input.skill_ranks_by_name.wf(),
        input.item_skill_bonuses.wf(),
        input.enemy_conditions.wf(),
        input.enemy_resistances.wf(),
        input.skills_by_name.wf(),
        input.scoped.wf(),
    ensures
        !has_damage(*input) ==> r is None,
        has_damage(*input) ==> (r matches Some(b) && {
            let skill = *input.skill;
            let stats = input.stats@;
            let rk = input_rank(*input, rules@);
            let base = base_damage_spec(skill, rk);
            let flat = flat_spec(skill, stats, rules@, key_views(elements@), input.conversion_flat);
            let syn = input_synergy(*input, rules@);
            let pct = skill_damage_pct_spec(stats, skill, rules@, input.conversion_skill_damage_pct);
            let x = extra_mult_spec(extra.mult, input.of_total_damage);
            let is_spell = key_views(skill.tags@).contains("Spell"@);
            let eb = elemental_break_spec(skill, stats, key_views(elements@), is_spell);
            let mc = multicast_spec(stats, input.scoped@, key_views(skill.tags@), key_views(entity_tags@));
            let er = effective_res_spec(*input);
            let lo = hit_raw(*input, rules@, extra.mult, key_views(elements@), false);
            let hi = hit_raw(*input, rules@, extra.mult, key_views(elements@), true);
            &&& (b.effective_rank_min, b.effective_rank_max) == rk
            &&& (b.base_min, b.base_max) == base
            &&& (b.flat_min, b.flat_max) == flat
            &&& (b.synergy_min_pct, b.synergy_max_pct) == syn
            &&& (b.skill_damage_min_pct, b.skill_damage_max_pct) == pct
            &&& b.extra_damage_pct == clamp((x - 1_000_000) * 100)
            &&& b.extra_damage_sources@.map_values(|e: ExtraSource| extra_view(e)) == if input.of_total_damage > 0 {
                extra.sources@.map_values(|e: ExtraSource| extra_view(e)).push(("Subtree"@, input.of_total_damage))
            } else {
                extra.sources@.map_values(|e: ExtraSource| extra_view(e))
            }
            &&& b.crit_chance == crit.chance
            &&& b.crit_damage_pct == crit.damage_pct
            &&& b.crit_multiplier_avg == crit.avg_mult
            &&& b.multicast_chance_pct == mc
            &&& b.multicast_multiplier == scale_end(1_000_000, mc)
            &&& b.projectile_count == if input.projectile_count < 1 {
                1
            } else {
                input.projectile_count
            }
            &&& b.elemental_break_pct == eb
            &&& b.elemental_break_multiplier == scale_end(1_000_000, eb)
            &&& b.enemy_resistance_pct == enemy_res_spec(skill, input.enemy_resistances@)
            &&& b.resistance_ignored_pct == ignore_spec(skill, stats)
            &&& b.effective_resistance_pct == er
            &&& b.resistance_multiplier == scale_end(1_000_000, clamp(-er))
            &&& b.hit_min == lo / 1_000_000 && b.hit_max == hi / 1_000_000
            &&& b.final_min == b.hit_min && b.final_max == b.hit_max
            &&& b.crit_min == product_end(lo, crit.on_crit_mult as int) / 1_000_000
            &&& b.crit_max == product_end(hi, crit.on_crit_mult as int) / 1_000_000
            &&& b.avg_min == avg_raw(lo, crit.avg_mult, mc, input.projectile_count) / 1_000_000
            &&& b.avg_max == avg_raw(hi, crit.avg_mult, mc, input.projectile_count) / 1_000_000
        }),
{
    let s = input.skill;
    let (rk, base) = match skill_rank_and_base_damage(
        s,
        input.allocated_rank,
        input.stats,
        input.item_skill_bonuses,
        rules,
    ) {
        Some(v) => v,
        None => {
            return None;
        },
    };
    let stats = input.stats;
    let flat = flat_of(s, stats, rules, elements, input.conversion_flat);
    let syn = bonus_source_synergy_pct(
        s,
        input.attributes,
        stats,
        input.skill_ranks_by_name,
        input.skills_by_name,
        input.item_skill_bonuses,
        rules,
        false,
    );
    let (pct, more) = skill_damage_percents(stats, s, rules, input.conversion_skill_damage_pct);

    let mut extra_sources = copy_extra_sources(&extra.sources);
    let x: i64 = if input.of_total_damage > 0 {
        extra_sources.push(ExtraSource { label: key("Subtree"), pct: input.of_total_damage });
        scale_endpoint(extra.mult, input.of_total_damage)
    } else {
        extra.mult
    };
    proof {
        if input.of_total_damage > 0 {
            assert(extra_sources@.map_values(|e: ExtraSource| extra_view(e)) =~= extra.sources@.map_values(
                |e: ExtraSource| extra_view(e),
            ).push(("Subtree"@, input.of_total_damage)));
        }
    }
    let extra_pct = clamp_wide((x as i128 - 1_000_000) * 100);

    let is_spell = is_spell_skill(s);
    let enemy_res = enemy_res_of(s, input.enemy_resistances);
    let ignore = ignore_of(s, stats);
    let eff_res = scale_endpoint(enemy_res, -ignore);
    let res_pct = clamp_wide(-(eff_res as i128));
    let eb = elemental_break_of(s, stats, elements, is_spell);
    let elb = element_break_of(s, stats, input.scoped, input.enemy_conditions, elements);
    let taken = non_negative_of(value_or_zero(input.scoped, &key("enemy_damage_taken_increased")).1);

    let lo = hit_endpoint(
        clamp_wide(base.0 as i128 + flat.0 as i128),
        syn.0,
        pct.0,
        more.0,
        x,
        taken,
        eb,
        elb,
        eff_res,
    );
    let hi = hit_endpoint(
        clamp_wide(base.1 as i128 + flat.1 as i128),
        syn.1,
        pct.1,
        more.1,
        x,
        taken,
        eb,
        elb,
        eff_res,
    );
    let mc = multicast_of(stats, input.scoped, s, entity_tags);
    let projectiles: u32 = if input.projectile_count < 1 {
        1
    } else {
        input.projectile_count
    };
    let avg_lo = times_count(scale_endpoint(product_endpoint(lo, crit.avg_mult), mc), projectiles);
    let avg_hi = times_count(scale_endpoint(product_endpoint(hi, crit.avg_mult), mc), projectiles);
    let crit_lo = product_endpoint(lo, crit.on_crit_mult);
    let crit_hi = product_endpoint(hi, crit.on_crit_mult);
    Some(
        SkillDamageBreakdown {
            effective_rank_min: rk.0,
            effective_rank_max: rk.1,
            base_min: base.0,
            base_max: base.1,
            flat_min: flat.0,
            flat_max: flat.1,
            synergy_min_pct: syn.0,
            synergy_max_pct: syn.1,
            skill_damage_min_pct: pct.0,
            skill_damage_max_pct: pct.1,
            extra_damage_pct: extra_pct,
            extra_damage_sources: extra_sources,
            crit_chance: crit.chance,
            crit_damage_pct: crit.damage_pct,
            crit_multiplier_avg: crit.avg_mult,
            multicast_chance_pct: mc,
            multicast_multiplier: scaled_one(mc),
            projectile_count: projectiles,
            elemental_break_pct: eb,
            elemental_break_multiplier: scaled_one(eb),
            enemy_resistance_pct: enemy_res,
            resistance_ignored_pct: ignore,
            effective_resistance_pct: eff_res,
            resistance_multiplier: scaled_one(res_pct),
            hit_min: whole_points(lo),
            hit_max: whole_points(hi),
            crit_min: whole_points(crit_lo),
            crit_max: whole_points(crit_hi),
            final_min: whole_points(lo),
            final_max: whole_points(hi),
            avg_min: whole_points(avg_lo),
            avg_max: whole_points(avg_hi),
        },
    )
}

/// `v` times a count, saturating.
fn times_count(v: i64, n: u32) -> (r: i64)
    ensures
        r == clamp(v * n),
{
    proof {
        assert(-0x8000_0000_0000_0000 * 0x1_0000_0000 <= v * n <= 0x8000_0000_0000_0000 * 0x1_0000_0000)
            by (nonlinear_arith)
            requires
                -0x8000_0000_0000_0000 <= v < 0x8000_0000_0000_0000,
                0 <= n < 0x1_0000_0000,
        ;
    }
    clamp_wide(v as i128 * n as i128)
}

/// A value in millionths rounded down to whole points.
fn whole_points(v: i64) -> (r: i64)
    ensures
        r == v as int / 1_000_000,
{
    if v >= 0 {
        v / 1_000_000
    } else {
        let p: i128 = -(v as i128);
        let c: i128 = (p + 999_999) / 1_000_000;
        proof {
            assert(-c == v as int / 1_000_000) by (nonlinear_arith)
                requires
                    p == -v,
                    p > 0,
                    c as int == (p + 999_999) as int / 1_000_000,
            {
                vstd::arithmetic::div_mod::lemma_fundamental_div_mod(v as int, 1_000_000);
                vstd::arithmetic::div_mod::lemma_fundamental_div_mod((p + 999_999) as int, 1_000_000);
            }
        }
        (-c) as i64
    }
}

} // verus!
