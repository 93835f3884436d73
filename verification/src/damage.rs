//! Skill-damage inputs that depend on the skill's element and tags: the
//! per-element stat keys, the tag-gated ("archetype") damage bonuses and the
//! synergy percent from bonus sources.
use vstd::prelude::*;
use vstd::string::*;
use crate::keymap::KeyMap;
use crate::ranged::{
    clamp, clamp_wide, product_end, product_endpoint, range_add, ranged_add, scale_end, scale_endpoint,
    zero, Ranged,
};
use crate::stat_map::{key, key_views, prefixed, value_of, value_or_zero, StatMap, AttrMap};

verus! {

// ---------- element keys ----------

/// The stat keys that scale one damage element.
pub struct ElementKeys {
    pub skills: String,
    pub skill_damage: String,
    pub skill_damage_more: String,
    pub flat_skill_damage: String,
    pub ignore_res: String,
}

/// The damage elements that have their own stat keys.
pub open spec fn element_names() -> Seq<Seq<char>> {
    seq!["fire"@, "cold"@, "lightning"@, "poison"@, "arcane"@, "physical"@, "magic"@, "explosion"@]
}

/// The keys of element `e`: `<e>_skills`, `<e>_skill_damage`,
/// `<e>_skill_damage_more`, `flat_<e>_skill_damage`, `ignore_<e>_res`.
pub open spec fn element_keys_view(k: ElementKeys, e: Seq<char>) -> bool {
    &&& k.skills@ == e + "_skills"@
    &&& k.skill_damage@ == e + "_skill_damage"@
    &&& k.skill_damage_more@ == e + "_skill_damage_more"@
    &&& k.flat_skill_damage@ == "flat_"@ + e + "_skill_damage"@
    &&& k.ignore_res@ == "ignore_"@ + e + "_res"@
}

fn element_name_list() -> (v: Vec<String>)
    ensures
        key_views(v@) == element_names(),
{
    let mut v: Vec<String> = Vec::new();
    v.push(key("fire"));
    v.push(key("cold"));
    v.push(key("lightning"));
    v.push(key("poison"));
    v.push(key("arcane"));
    v.push(key("physical"));
    v.push(key("magic"));
    v.push(key("explosion"));
    proof {
        assert(key_views(v@) =~= element_names());
    }
    v
}

fn suffixed(base: &String, suffix: &str) -> (r: String)
    ensures
        r@ == base@ + suffix@,
{
    let mut s = base.clone();
    s.append(suffix);
    s
}

/// The stat keys of the element `damage_type`, when it is one of the
/// elements with keys of its own.
pub fn element_keys(damage_type: &str) -> (r: Option<ElementKeys>)
    ensures
        r matches Some(k) ==> element_names().contains(damage_type@) && element_keys_view(k, damage_type@),
        r is None ==> !element_names().contains(damage_type@),
{
    let names = element_name_list();
    let e = key(damage_type);
    let n = names.len();
    let mut i: usize = 0;
    while i < n
        invariant
            n == names@.len(),
            i <= n,
            key_views(names@) == element_names(),
            e@ == damage_type@,
            forall|j: int| 0 <= j < i ==> names@[j]@ != e@,
        decreases n - i,
    {
        if names[i] == e {
            proof {
                assert(element_names()[i as int] == e@);
            }
            let keys = ElementKeys {
                skills: suffixed(&e, "_skills"),
                skill_damage: suffixed(&e, "_skill_damage"),
                skill_damage_more: suffixed(&e, "_skill_damage_more"),
                flat_skill_damage: suffixed(&prefixed("flat_", &e), "_skill_damage"),
                ignore_res: suffixed(&prefixed("ignore_", &e), "_res"),
            };
            return Some(keys);
        }
        i = i + 1;
    }
    proof {
        if element_names().contains(damage_type@) {
            let j = choose|j: int| 0 <= j < element_names().len() && #[trigger] element_names()[j] == damage_type@;
            assert(names@[j]@ == element_names()[j]);
        }
    }
    None
}

// ---------- tag-gated bonuses ----------

/// What a tag-gated stat does.
#[derive(Clone, Copy, Debug, PartialEq, Eq, Structural)]
pub enum AffixEffect {
    /// Additive skill damage percent.
    Damage,
    /// Multiplicative ("more") skill damage percent.
    DamageMore,
    /// Flat damage added to the hit.
    FlatDamage,
    /// Extra skill levels.
    SkillLevels,
}

/// A stat that applies to skills carrying every one of `tags`.
pub struct AffixTagRule {
    pub stat_key: String,
    pub tags: Vec<String>,
    pub effect: AffixEffect,
}

/// Every tag the rule needs is among the skill's tags.
pub open spec fn rule_applies(rule: AffixTagRule, tags: Seq<Seq<char>>) -> bool {
    forall|i: int| 0 <= i < rule.tags@.len() ==> tags.contains(#[trigger] rule.tags@[i]@)
}

/// The sum of the stats of the applying rules with effect `effect`.
pub open spec fn tag_sum(rules: Seq<AffixTagRule>, effect: AffixEffect, tags: Seq<Seq<char>>, stats: Map<Seq<char>, Ranged>) -> Ranged
    decreases rules.len(),
{
    if rules.len() == 0 {
        zero()
    } else {
        let prev = tag_sum(rules.drop_last(), effect, tags, stats);
        let r = rules.last();
        if r.effect == effect && rule_applies(r, tags) {
            range_add(prev, value_of(stats, r.stat_key@))
        } else {
            prev
        }
    }
}

/// The multiplier `prod(1 + stat%)` over the applying rules with effect
/// `effect`, in millionths (one is `1_000_000`).
pub open spec fn tag_multiplier(rules: Seq<AffixTagRule>, effect: AffixEffect, tags: Seq<Seq<char>>, stats: Map<Seq<char>, Ranged>) -> Ranged
    decreases rules.len(),
{
    if rules.len() == 0 {
        (1_000_000i64, 1_000_000i64)
    } else {
        let prev = tag_multiplier(rules.drop_last(), effect, tags, stats);
        let r = rules.last();
        if r.effect == effect && rule_applies(r, tags) {
            let v = value_of(stats, r.stat_key@);
            (scale_end(prev.0 as int, v.0 as int) as i64, scale_end(prev.1 as int, v.1 as int) as i64)
        } else {
            prev
        }
    }
}

pub(crate) fn contains_tag(tags: &[String], t: &String) -> (b: bool)
    ensures
        b == key_views(tags@).contains(t@),
{
    let n = tags.len();
    let mut i: usize = 0;
    while i < n
        invariant
            n == tags@.len(),
            i <= n,
            forall|j: int| 0 <= j < i ==> tags@[j]@ != t@,
        decreases n - i,
    {
        if tags[i] == *t {
            proof {
                assert(key_views(tags@)[i as int] == t@);
            }
            return true;
        }
        i = i + 1;
    }
    proof {
        if key_views(tags@).contains(t@) {
            let j = choose|j: int| 0 <= j < key_views(tags@).len() && #[trigger] key_views(tags@)[j] == t@;
            assert(tags@[j]@ == t@);
        }
    }
    false
}

fn applies(rule: &AffixTagRule, tags: &[String]) -> (b: bool)
    ensures
        b == rule_applies(*rule, key_views(tags@)),
{
    let n = rule.tags.len();
    let mut i: usize = 0;
    while i < n
        invariant
            n == rule.tags@.len(),
            i <= n,
            forall|j: int| 0 <= j < i ==> key_views(tags@).contains(#[trigger] rule.tags@[j]@),
        decreases n - i,
    {
        if !contains_tag(tags, &rule.tags[i]) {
            return false;
        }
        i = i + 1;
    }
    true
}

/// The sum of the stats of the rules with effect `effect` that apply to a
/// skill with `tags`.
pub fn sum_for(rules: &[AffixTagRule], effect: AffixEffect, tags: &[String], stats: &StatMap) -> (r: Ranged)
    requires
        stats.wf(),
    ensures
        r == tag_sum(rules@, effect, key_views(tags@), stats@),
{
    let mut sum: Ranged = (0, 0);
    let n = rules.len();
    let mut i: usize = 0;
    while i < n
        invariant
            n == rules@.len(),
            i <= n,
            stats.wf(),
            sum == tag_sum(rules@.take(i as int), effect, key_views(tags@), stats@),
        decreases n - i,
    {
        proof {
            assert(rules@.take(i + 1).drop_last() =~= rules@.take(i as int));
        }
        let rule = &rules[i];
        if rule.effect == effect && applies(rule, tags) {
            sum = ranged_add(sum, value_or_zero(stats, &rule.stat_key));
        }
        i = i + 1;
    }
    proof {
        assert(rules@.take(n as int) =~= rules@);
    }
    sum
}

/// The product of `(1 + stat%)` over the rules with effect `effect` that
/// apply to a skill with `tags`, in millionths.
pub fn more_for(rules: &[AffixTagRule], effect: AffixEffect, tags: &[String], stats: &StatMap) -> (r: Ranged)
    requires
        stats.wf(),
    ensures
        r == tag_multiplier(rules@, effect, key_views(tags@), stats@),
{
    let mut mult: Ranged = (1_000_000, 1_000_000);
    let n = rules.len();
    let mut i: usize = 0;
    while i < n
        invariant
            n == rules@.len(),
            i <= n,
            stats.wf(),
            mult == tag_multiplier(rules@.take(i as int), effect, key_views(tags@), stats@),
        decreases n - i,
    {
        proof {
            assert(rules@.take(i + 1).drop_last() =~= rules@.take(i as int));
        }
        let rule = &rules[i];
        if rule.effect == effect && applies(rule, tags) {
            let v = value_or_zero(stats, &rule.stat_key);
            mult = (scale_endpoint(mult.0, v.0), scale_endpoint(mult.1, v.1));
        }
        i = i + 1;
    }
    proof {
        assert(rules@.take(n as int) =~= rules@);
    }
    mult
}

/// Tag-gated skill damage for a skill with `tags`: the additive percent
/// (sum of the applying damage stats) and the more multiplier (product of
/// `1 + stat%` over the applying "more" stats, in millionths).
pub fn archetype_skill_damage(stats: &StatMap, tags: &[String], rules: &[AffixTagRule]) -> (r: (Ranged, Ranged))
    requires
        stats.wf(),
    ensures
        r.0 == tag_sum(rules@, AffixEffect::Damage, key_views(tags@), stats@),
        r.1 == tag_multiplier(rules@, AffixEffect::DamageMore, key_views(tags@), stats@),
{
    (sum_for(rules, AffixEffect::Damage, tags, stats), more_for(rules, AffixEffect::DamageMore, tags, stats))
}

// ---------- synergies ----------

/// How a bonus source scales.
#[derive(Clone, Copy, Debug, PartialEq, Eq, Structural)]
pub enum BonusSourceKind {
    /// `value`% per point of the attribute `source`.
    AttributePoint,
    /// `value`% per effective rank of the skill `source`.
    SkillLevel,
}

/// A synergy: the stat it raises and how much per source unit (in
/// millionths of a percentage point).
pub struct BonusSource {
    pub kind: BonusSourceKind,
    pub source: String,
    pub stat: String,
    pub value: i64,
}

#[derive(Clone, Copy, Debug, PartialEq, Eq, Structural)]
pub enum AttackKind {
    Attack,
}

/// Linear base damage: `base + per_level x rank` (millionths).
pub struct DamageFormula {
    pub base: i64,
    pub per_level: i64,
}

/// The base damage range at one rank (millionths).
pub struct RankDamage {
    pub min: i64,
    pub max: i64,
}

/// The parts of a skill that its damage and synergies read.
pub struct Skill {
    pub name: String,
    pub tags: Vec<String>,
    pub damage_type: Option<String>,
    pub damage_formula: Option<DamageFormula>,
    /// Base damage per rank, rank one first.
    pub damage_per_rank: Option<Vec<RankDamage>>,
    pub attack_kind: Option<AttackKind>,
    pub bonus_sources: Vec<BonusSource>,
}

/// The attack path takes only `attack_damage` synergies; the spell path
/// takes every other synergy except `attack_rating`, and `attack_damage`
/// only for skills that are not attacks.
pub open spec fn synergy_wanted(bs: BonusSource, for_attack: bool, is_attack_kind: bool) -> bool {
    if for_attack {
        bs.stat@ == "attack_damage"@
    } else {
        bs.stat@ != "attack_rating"@ && !(bs.stat@ == "attack_damage"@ && is_attack_kind)
    }
}

/// The element-specific skill levels a skill gets: `<element>_skills` for
/// a damage element with its own keys, zero otherwise.
pub open spec fn element_levels(s2: Skill, stats: Map<Seq<char>, Ranged>) -> Ranged {
    match s2.damage_type {
        Some(dt) => if element_names().contains(dt@) {
            value_of(stats, dt@ + "_skills"@)
        } else {
            zero()
        },
        None => zero(),
    }
}

/// One endpoint of an effective rank: allocated rank plus all-skills,
/// element, tag and item levels.
pub open spec fn rank_end(br: int, all: int, el: int, tg: int, it: int) -> int {
    clamp(br + all + el + tg + it)
}

/// One bonus source added to the synergy percent.
pub open spec fn synergy_step(
    acc: Ranged,
    bs: BonusSource,
    is_attack_kind: bool,
    for_attack: bool,
    attributes: Map<Seq<char>, Ranged>,
    stats: Map<Seq<char>, Ranged>,
    ranks: Map<Seq<char>, i64>,
    skills: Map<Seq<char>, Skill>,
    item_bonuses: Map<Seq<char>, Ranged>,
    rules: Seq<AffixTagRule>,
) -> Ranged {
    if !synergy_wanted(bs, for_attack, is_attack_kind) {
        acc
    } else {
        match bs.kind {
            BonusSourceKind::AttributePoint => {
                let v = value_of(attributes, bs.source@);
                range_add(acc, (product_end(v.0 as int, bs.value as int) as i64, product_end(v.1 as int, bs.value as int) as i64))
            },
            BonusSourceKind::SkillLevel => {
                let br: i64 = if ranks.contains_key(bs.source@) { ranks[bs.source@] } else { 0 };
                if br <= 0 {
                    acc
                } else if skills.contains_key(bs.source@) {
                    let s2 = skills[bs.source@];
                    let all = value_of(stats, "all_skills"@);
                    let el = element_levels(s2, stats);
                    let it = value_of(item_bonuses, bs.source@);
                    let tg = tag_sum(rules, AffixEffect::SkillLevels, key_views(s2.tags@), stats);
                    let lo = rank_end(br as int, all.0 as int, el.0 as int, tg.0 as int, it.0 as int);
                    let hi = rank_end(br as int, all.1 as int, el.1 as int, tg.1 as int, it.1 as int);
                    range_add(acc, (product_end(lo, bs.value as int) as i64, product_end(hi, bs.value as int) as i64))
                } else {
                    let v = product_end(br as int, bs.value as int) as i64;
                    range_add(acc, (v, v))
                }
            },
        }
    }
}

pub open spec fn synergy_spec(
    sources: Seq<BonusSource>,
    is_attack_kind: bool,
    for_attack: bool,
    attributes: Map<Seq<char>, Ranged>,
    stats: Map<Seq<char>, Ranged>,
    ranks: Map<Seq<char>, i64>,
    skills: Map<Seq<char>, Skill>,
    item_bonuses: Map<Seq<char>, Ranged>,
    rules: Seq<AffixTagRule>,
) -> Ranged
    decreases sources.len(),
{
    if sources.len() == 0 {
        zero()
    } else {
        synergy_step(
            synergy_spec(sources.drop_last(), is_attack_kind, for_attack, attributes, stats, ranks, skills, item_bonuses, rules),
            sources.last(),
            is_attack_kind,
            for_attack,
            attributes,
            stats,
            ranks,
            skills,
            item_bonuses,
            rules,
        )
    }
}

/// The skill levels a skill gets from its tags.
pub fn tag_skills_bonus(stats: &StatMap, skill: &Skill, rules: &[AffixTagRule]) -> (r: Ranged)
    requires
        stats.wf(),
    ensures
        r == tag_sum(rules@, AffixEffect::SkillLevels, key_views(skill.tags@), stats@),
{
    sum_for(rules, AffixEffect::SkillLevels, skill.tags.as_slice(), stats)
}

fn element_levels_of(s2: &Skill, stats: &StatMap) -> (r: Ranged)
    requires
        stats.wf(),
    ensures
        r == element_levels(*s2, stats@),
{
    match &s2.damage_type {
        Some(dt) => match element_keys(dt.as_str()) {
            Some(k) => value_or_zero(stats, &k.skills),
            None => (0, 0),
        },
        None => (0, 0),
    }
}

fn rank_endpoint(br: i64, all: i64, el: i64, tg: i64, it: i64) -> (r: i64)
    ensures
        r == rank_end(br as int, all as int, el as int, tg as int, it as int),
{
    clamp_wide(br as i128 + all as i128 + el as i128 + tg as i128 + it as i128)
}

fn synergy_of(
    acc: Ranged,
    bs: &BonusSource,
    is_attack_kind: bool,
    for_attack: bool,
    attributes: &AttrMap,
    stats: &StatMap,
    skill_ranks_by_name: &KeyMap<i64>,
    skills_by_name: &KeyMap<Skill>,
    item_skill_bonuses: &KeyMap<Ranged>,
    rules: &[AffixTagRule],
) -> (r: Ranged)
    requires
        attributes.wf(),
        stats.wf(),
        skill_ranks_by_name.wf(),
        skills_by_name.wf(),
        item_skill_bonuses.wf(),
    ensures
        r == synergy_step(
            acc,
            *bs,
            is_attack_kind,
            for_attack,
            attributes@,
            stats@,
            skill_ranks_by_name@,
            skills_by_name@,
            item_skill_bonuses@,
            rules@,
        ),
{
    let wanted = if for_attack {
        bs.stat == key("attack_damage")
    } else {
        !(bs.stat == key("attack_rating")) && !(bs.stat == key("attack_damage") && is_attack_kind)
    };
    if !wanted {
        return acc;
    }
    match bs.kind {
        BonusSourceKind::AttributePoint => {
            let v = value_or_zero(attributes, &bs.source);
            ranged_add(acc, (product_endpoint(v.0, bs.value), product_endpoint(v.1, bs.value)))
        },
        BonusSourceKind::SkillLevel => {
            let br: i64 = match skill_ranks_by_name.get(&bs.source) {
                Some(r) => *r,
                None => 0,
            };
            if br <= 0 {
                return acc;
            }
            match skills_by_name.get(&bs.source) {
                Some(s2) => {
                    let all = value_or_zero(stats, &key("all_skills"));
                    let el = element_levels_of(s2, stats);
                    let it = value_or_zero(item_skill_bonuses, &bs.source);
                    let tg = tag_skills_bonus(stats, s2, rules);
                    let lo = rank_endpoint(br, all.0, el.0, tg.0, it.0);
                    let hi = rank_endpoint(br, all.1, el.1, tg.1, it.1);
                    ranged_add(acc, (product_endpoint(lo, bs.value), product_endpoint(hi, bs.value)))
                },
                None => {
                    let v = product_endpoint(br, bs.value);
                    ranged_add(acc, (v, v))
                },
            }
        },
    }
}

/// The synergy percent of skill `s`: every wanted bonus source adds its
/// value per attribute point, or per effective rank of its source skill
/// (allocated rank plus all-skills, element, tag and item levels; the bare
/// rank when the source skill is unknown; nothing below rank one).  The
/// attack path takes only `attack_damage` synergies, the spell path the
/// others (no `attack_rating`; `attack_damage` only for non-attacks).
pub fn bonus_source_synergy_pct(
    s: &Skill,
    attributes: &AttrMap,
    stats: &StatMap,
    skill_ranks_by_name: &KeyMap<i64>,
    skills_by_name: &KeyMap<Skill>,
    item_skill_bonuses: &KeyMap<Ranged>,
    rules: &[AffixTagRule],
    for_attack: bool,
) -> (r: Ranged)
    requires
        attributes.wf(),
        stats.wf(),
        skill_ranks_by_name.wf(),
        skills_by_name.wf(),
        item_skill_bonuses.wf(),
    ensures
        r == synergy_spec(
            s.bonus_sources@,
            s.attack_kind == Some(AttackKind::Attack),
            for_attack,
            attributes@,
            stats@,
            skill_ranks_by_name@,
            skills_by_name@,
            item_skill_bonuses@,
            rules@,
        ),
{
    let is_attack_kind = match s.attack_kind {
        Some(AttackKind::Attack) => {
            assert(s.attack_kind == Some(AttackKind::Attack));
            true
        },
        None => false,
    };
    let mut acc: Ranged = (0, 0);
    let n = s.bonus_sources.len();
    let mut i: usize = 0;
    while i < n
        invariant
            n == s.bonus_sources@.len(),
            i <= n,
            attributes.wf(),
            stats.wf(),
            skill_ranks_by_name.wf(),
            skills_by_name.wf(),
            item_skill_bonuses.wf(),
            is_attack_kind == (s.attack_kind == Some(AttackKind::Attack)),
            acc == synergy_spec(
                s.bonus_sources@.take(i as int),
                is_attack_kind,
                for_attack,
                attributes@,
                stats@,
                skill_ranks_by_name@,
                skills_by_name@,
                item_skill_bonuses@,
                rules@,
            ),
        decreases n - i,
    {
        proof {
            assert(s.bonus_sources@.take(i + 1).drop_last() =~= s.bonus_sources@.take(i as int));
        }
        acc = synergy_of(
            acc,
            &s.bonus_sources[i],
            is_attack_kind,
            for_attack,
            attributes,
            stats,
            skill_ranks_by_name,
            skills_by_name,
            item_skill_bonuses,
            rules,
        );
        i = i + 1;
    }
    proof {
        assert(s.bonus_sources@.take(n as int) =~= s.bonus_sources@);
    }
    acc
}

// ---------- effective rank and base damage ----------

/// The effective rank of a skill: its allocated rank plus all-skills,
/// element, tag and item levels, endpoint by endpoint.
pub open spec fn effective_rank_spec(
    allocated_rank: i64,
    stats: Map<Seq<char>, Ranged>,
    skill: Skill,
    item_bonuses: Map<Seq<char>, Ranged>,
    rules: Seq<AffixTagRule>,
) -> Ranged {
    let all = value_of(stats, "all_skills"@);
    let el = element_levels(skill, stats);
    let tg = tag_sum(rules, AffixEffect::SkillLevels, key_views(skill.tags@), stats);
    let it = value_of(item_bonuses, skill.name@);
    (
        rank_end(allocated_rank as int, all.0 as int, el.0 as int, tg.0 as int, it.0 as int) as i64,
        rank_end(allocated_rank as int, all.1 as int, el.1 as int, tg.1 as int, it.1 as int) as i64,
    )
}

/// `x`, or zero when it is negative.
pub open spec fn non_negative(x: int) -> int {
    if x < 0 {
        0
    } else {
        x
    }
}

/// The formula's damage at rank `eff` (millionths), never below zero.
pub open spec fn formula_damage(f: DamageFormula, eff: int) -> int {
    non_negative(clamp(f.base + product_end(f.per_level as int, eff)))
}

/// The whole rank that indexes the damage table: `eff` truncated to whole
/// ranks, at least one.
pub open spec fn table_rank(eff: int) -> int {
    if eff / 1_000_000 < 1 {
        1
    } else {
        eff / 1_000_000
    }
}

/// The minimum or maximum damage of table row `i`.
pub open spec fn row_field(t: Seq<RankDamage>, i: int, is_max: bool) -> int {
    if is_max {
        t[i].max as int
    } else {
        t[i].min as int
    }
}

/// Table damage at rank `eff`, never below zero: the row of its whole rank,
/// or past the table's end the last row extrapolated at the table's final
/// per-rank slope.
pub open spec fn table_damage(t: Seq<RankDamage>, eff: int, is_max: bool) -> int {
    let n = t.len() as int;
    let r = table_rank(eff);
    if n == 0 {
        0
    } else if r <= n {
        non_negative(row_field(t, r - 1, is_max))
    } else {
        let last = row_field(t, n - 1, is_max);
        let prev = if n >= 2 {
            row_field(t, n - 2, is_max)
        } else {
            last
        };
        non_negative(clamp(last + (last - prev) * (r - n)))
    }
}

/// The skill has a damage formula or a non-empty damage table.
pub open spec fn deals_damage(skill: Skill) -> bool {
    skill.damage_formula is Some || (skill.damage_per_rank matches Some(t) && t@.len() > 0)
}

/// Base damage at effective rank `eff`: from the formula when there is one,
/// from the table otherwise (the minimum row field at the minimum rank, the
/// maximum field at the maximum rank).
pub open spec fn base_damage_spec(skill: Skill, eff: Ranged) -> Ranged {
    match skill.damage_formula {
        Some(f) => (formula_damage(f, eff.0 as int) as i64, formula_damage(f, eff.1 as int) as i64),
        None => match skill.damage_per_rank {
            Some(t) => (table_damage(t@, eff.0 as int, false) as i64, table_damage(t@, eff.1 as int, true) as i64),
            None => (0i64, 0i64),
        },
    }
}

/// The effective rank of `skill` at `allocated_rank` (millionths): plus
/// all-skills, the skill's element levels, its tag levels and the levels
/// items grant to it.
pub fn effective_skill_rank(
    allocated_rank: i64,
    stats: &StatMap,
    skill: &Skill,
    item_skill_bonuses: &KeyMap<Ranged>,
    rules: &[AffixTagRule],
) -> (r: Ranged)
    requires
        stats.wf(),
        item_skill_bonuses.wf(),
    ensures
        r == effective_rank_spec(allocated_rank, stats@, *skill, item_skill_bonuses@, rules@),
{
    let all = value_or_zero(stats, &key("all_skills"));
    let el = element_levels_of(skill, stats);
    let tg = tag_skills_bonus(stats, skill, rules);
    let it = value_or_zero(item_skill_bonuses, &skill.name);
    (rank_endpoint(allocated_rank, all.0, el.0, tg.0, it.0), rank_endpoint(allocated_rank, all.1, el.1, tg.1, it.1))
}

fn formula_endpoint(f: &DamageFormula, eff: i64) -> (r: i64)
    ensures
        r == formula_damage(*f, eff as int),
{
    let v = clamp_wide(f.base as i128 + product_endpoint(f.per_level, eff) as i128);
    if v < 0 {
        0
    } else {
        v
    }
}

fn field_of(t: &Vec<RankDamage>, i: usize, is_max: bool) -> (r: i64)
    requires
        i < t@.len(),
    ensures
        r == row_field(t@, i as int, is_max),
{
    if is_max {
        t[i].max
    } else {
        t[i].min
    }
}

fn table_endpoint(t: &Vec<RankDamage>, eff: i64, is_max: bool) -> (r: i64)
    ensures
        r == table_damage(t@, eff as int, is_max),
{
    let n = t.len();
    if n == 0 {
        return 0;
    }
    let whole: i64 = if eff >= 0 {
        eff / 1_000_000
    } else {
        -((-(eff as i128) + 999_999) / 1_000_000) as i64
    };
    proof {
        if eff < 0 {
            assert(whole as int == (eff as int) / 1_000_000) by (nonlinear_arith)
                requires
                    eff < 0,
                    whole as int == -((-(eff as int) + 999_999) / 1_000_000),
            {
                vstd::arithmetic::div_mod::lemma_fundamental_div_mod(eff as int, 1_000_000);
                vstd::arithmetic::div_mod::lemma_fundamental_div_mod(-(eff as int) + 999_999, 1_000_000);
            }
        }
    }
    let r: i64 = if whole < 1 {
        1
    } else {
        whole
    };
    if (r as u64) <= (n as u64) {
        let v = field_of(t, (r - 1) as usize, is_max);
        if v < 0 {
            0
        } else {
            v
        }
    } else {
        let last = field_of(t, n - 1, is_max);
        let prev = if n >= 2 {
            field_of(t, n - 2, is_max)
        } else {
            last
        };
        let steps: i128 = r as i128 - n as i128;
        let slope: i128 = last as i128 - prev as i128;
        proof {
            assert(steps <= 0x1_0000_0000_0000);
            let a: int = if slope >= 0 { slope as int } else { -(slope as int) };
            assert(a * steps <= 0x1_0000_0000_0000_0000 * 0x1_0000_0000_0000) by (nonlinear_arith)
                requires
                    0 <= a <= 0x1_0000_0000_0000_0000,
                    0 < steps <= 0x1_0000_0000_0000,
            ;
            assert(slope * steps == a * steps || slope * steps == -(a * steps)) by (nonlinear_arith)
                requires
                    a == slope || a == -slope,
            ;
        }
        let v = clamp_wide(last as i128 + slope * steps);
        if v < 0 {
            0
        } else {
            v
        }
    }
}

/// Base damage at the effective rank `eff`: the formula `base + per_level
/// x rank` when the skill has one, otherwise its per-rank table (the row of
/// the whole rank, at least rank one; past the end the last row continued
/// at the table's final per-rank slope).  Never below zero.
pub fn skill_base_damage(skill: &Skill, eff: Ranged) -> (r: Ranged)
    ensures
        r == base_damage_spec(*skill, eff),
{
    match &skill.damage_formula {
        Some(f) => (formula_endpoint(f, eff.0), formula_endpoint(f, eff.1)),
        None => match &skill.damage_per_rank {
            Some(t) => (table_endpoint(t, eff.0, false), table_endpoint(t, eff.1, true)),
            None => (0, 0),
        },
    }
}

/// The effective rank and base damage of a skill, the first stage of its
/// damage: none when the skill has no allocated rank or no damage formula
/// or table.
pub fn skill_rank_and_base_damage(
    skill: &Skill,
    allocated_rank: i64,
    stats: &StatMap,
    item_skill_bonuses: &KeyMap<Ranged>,
    rules: &[AffixTagRule],
) -> (r: Option<(Ranged, Ranged)>)
    requires
        stats.wf(),
        item_skill_bonuses.wf(),
    ensures
        allocated_rank == 0 || !deals_damage(*skill) ==> r is None,
        allocated_rank != 0 && deals_damage(*skill) ==> r == Some(
            (
                effective_rank_spec(allocated_rank, stats@, *skill, item_skill_bonuses@, rules@),
                base_damage_spec(
                    *skill,
                    effective_rank_spec(allocated_rank, stats@, *skill, item_skill_bonuses@, rules@),
                ),
            ),
        ),
{
    if allocated_rank == 0 {
        return None;
    }
    let has_table = match &skill.damage_per_rank {
        Some(t) => t.len() > 0,
        None => false,
    };
    if skill.damage_formula.is_none() && !has_table {
        return None;
    }
    let eff = effective_skill_rank(allocated_rank, stats, skill, item_skill_bonuses, rules);
    Some((eff, skill_base_damage(skill, eff)))
}

// ---------- skill damage percents ----------

/// The stat `<element><suffix>` of the skill's damage element, when that
/// element has keys of its own; zero otherwise.
pub open spec fn element_stat(skill: Skill, stats: Map<Seq<char>, Ranged>, suffix: Seq<char>) -> Ranged {
    match skill.damage_type {
        Some(dt) => if element_names().contains(dt@) {
            value_of(stats, dt@ + suffix)
        } else {
            zero()
        },
        None => zero(),
    }
}

/// The additive skill damage percent: magic skill damage, the element's
/// skill damage, the tag-gated damage and the converted percent.
pub open spec fn skill_damage_pct_spec(
    stats: Map<Seq<char>, Ranged>,
    skill: Skill,
    rules: Seq<AffixTagRule>,
    conversion_pct: i64,
) -> Ranged {
    let magic = value_of(stats, "magic_skill_damage"@);
    let elem = element_stat(skill, stats, "_skill_damage"@);
    let arch = tag_sum(rules, AffixEffect::Damage, key_views(skill.tags@), stats);
    (
        clamp(magic.0 + elem.0 + arch.0 + conversion_pct) as i64,
        clamp(magic.1 + elem.1 + arch.1 + conversion_pct) as i64,
    )
}

/// The skill damage multiplier (millionths, one is `1_000_000`): the
/// tag-gated "more" multiplier times `(1 + magic more%)` times
/// `(1 + element more%)`.
pub open spec fn skill_more_spec(stats: Map<Seq<char>, Ranged>, skill: Skill, rules: Seq<AffixTagRule>) -> Ranged {
    let magic = value_of(stats, "magic_skill_damage_more"@);
    let elem = element_stat(skill, stats, "_skill_damage_more"@);
    let arch = tag_multiplier(rules, AffixEffect::DamageMore, key_views(skill.tags@), stats);
    (
        scale_end(scale_end(arch.0 as int, magic.0 as int), elem.0 as int) as i64,
        scale_end(scale_end(arch.1 as int, magic.1 as int), elem.1 as int) as i64,
    )
}

/// The suffix of the element's skill damage key, or of its "more" twin.
pub open spec fn damage_suffix(more: bool) -> Seq<char> {
    if more {
        "_skill_damage_more"@
    } else {
        "_skill_damage"@
    }
}

fn element_stat_of(skill: &Skill, stats: &StatMap, more: bool) -> (r: Ranged)
    requires
        stats.wf(),
    ensures
        r == element_stat(*skill, stats@, damage_suffix(more)),
{
    match &skill.damage_type {
        Some(dt) => match element_keys(dt.as_str()) {
            Some(k) => if more {
                value_or_zero(stats, &k.skill_damage_more)
            } else {
                value_or_zero(stats, &k.skill_damage)
            },
            None => (0, 0),
        },
        None => (0, 0),
    }
}

/// The skill damage percents of `skill`: the additive percent (magic and
/// element skill damage, tag-gated damage, plus `conversion_pct` converted
/// from a build stat) and the multiplier (tag-gated "more" times the magic
/// and element "more" percents), endpoint by endpoint.
pub fn skill_damage_percents(
    stats: &StatMap,
    skill: &Skill,
    rules: &[AffixTagRule],
    conversion_pct: i64,
) -> (r: (Ranged, Ranged))
    requires
        stats.wf(),
    ensures
        r.0 == skill_damage_pct_spec(stats@, *skill, rules@, conversion_pct),
        r.1 == skill_more_spec(stats@, *skill, rules@),
{
    let magic = value_or_zero(stats, &key("magic_skill_damage"));
    let elem = element_stat_of(skill, stats, false);
    let (arch_add, arch_more) = archetype_skill_damage(stats, skill.tags.as_slice(), rules);
    let add: Ranged = (
        clamp_wide(magic.0 as i128 + elem.0 as i128 + arch_add.0 as i128 + conversion_pct as i128),
        clamp_wide(magic.1 as i128 + elem.1 as i128 + arch_add.1 as i128 + conversion_pct as i128),
    );
    let magic_more = value_or_zero(stats, &key("magic_skill_damage_more"));
    let elem_more = element_stat_of(skill, stats, true);
    let more: Ranged = (
        scale_endpoint(scale_endpoint(arch_more.0, magic_more.0), elem_more.0),
        scale_endpoint(scale_endpoint(arch_more.1, magic_more.1), elem_more.1),
    );
    (add, more)
}

} // verus!
