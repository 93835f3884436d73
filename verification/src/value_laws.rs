//! What single steps compute, stated over the stat keys they read and
//! write: which elemental-break stat a skill reads, which augment level an
//! item gets, what "all resistances" fans out to, how the breakdown
//! rebuilds a replenish, and which percents scale an attribute.
use vstd::prelude::*;
use vstd::string::*;
use crate::aggregate::{
    attribute_increased_spec, attribute_increased_step, attribute_stat_keys, fan_out_spec, fan_outs_spec,
    resistance_keys,
};
use crate::breakdown::combined_raw_spec;
use crate::finalize::multiplier_table;
use crate::inventory::{augment_level, augment_pendings, fixed_pendings, Augment, EquippedItem};
use crate::ranged::{clamp, range_add, round_div, zero, Ranged};
use crate::skill_damage::{elemental_break_spec, is_elemental};
use crate::damage::Skill;
use crate::sources::SourceType;
use crate::stat_map::{add_to_each, more_keys, value_of};
use crate::text::decimal;

verus! {

// ---------- elemental break ----------

/// `x` held to `0 ..= i64::MAX`.
pub open spec fn non_negative_i64(x: int) -> int {
    if x <= 0 {
        0
    } else if x > i64::MAX {
        i64::MAX as int
    } else {
        x
    }
}

/// Elemental break reads the shared `elemental_break` stat and, for a
/// skill tagged as a spell, `elemental_break_on_spell`, for any other
/// skill `elemental_break_on_strike`: the sum of their top endpoints,
/// never below zero.  The other kind's stat does not matter, and a skill
/// that is not elemental has none.
pub proof fn law_elemental_break_follows_skill_kind(
    skill: Skill,
    stats: Map<Seq<char>, Ranged>,
    other: Map<Seq<char>, Ranged>,
    elements: Seq<Seq<char>>,
    is_spell: bool,
)
    ensures
        !is_elemental(skill, elements) ==> elemental_break_spec(skill, stats, elements, is_spell) == 0,
        is_elemental(skill, elements) && is_spell ==> elemental_break_spec(skill, stats, elements, is_spell)
            == non_negative_i64(
            value_of(stats, "elemental_break"@).1 + value_of(stats, "elemental_break_on_spell"@).1,
        ),
        is_elemental(skill, elements) && !is_spell ==> elemental_break_spec(skill, stats, elements, is_spell)
            == non_negative_i64(
            value_of(stats, "elemental_break"@).1 + value_of(stats, "elemental_break_on_strike"@).1,
        ),
        is_spell && value_of(other, "elemental_break"@) == value_of(stats, "elemental_break"@) && value_of(
            other,
            "elemental_break_on_spell"@,
        ) == value_of(stats, "elemental_break_on_spell"@) ==> elemental_break_spec(skill, other, elements, is_spell)
            == elemental_break_spec(skill, stats, elements, is_spell),
        !is_spell && value_of(other, "elemental_break"@) == value_of(stats, "elemental_break"@) && value_of(
            other,
            "elemental_break_on_strike"@,
        ) == value_of(stats, "elemental_break_on_strike"@) ==> elemental_break_spec(skill, other, elements, is_spell)
            == elemental_break_spec(skill, stats, elements, is_spell),
{
}

// ---------- augment level ----------

/// An augment at a level within its levels gives exactly that level's
/// stats, labelled with that level: level `l` reads `levels[l - 1]`.  A
/// level below one reads the first level.
pub proof fn law_augment_reads_its_own_level(item: EquippedItem, augments: Map<Seq<char>, Augment>, name: Seq<char>)
    requires
        item.augment is Some,
        augments.contains_key(item.augment.unwrap().id@),
    ensures
        ({
            let l = item.augment.unwrap().level;
            let a = augments[item.augment.unwrap().id@];
            &&& 1 <= l <= a.levels@.len() ==> augment_level(l, a.levels@.len()) == l
            &&& 1 <= l <= a.levels@.len() ==> augment_pendings(item, augments, name) == fixed_pendings(
                a.levels@[l - 1].entries@,
                "Augment: "@ + a.name@ + " Lv "@ + decimal(l as nat) + " ("@ + name + ")"@,
                SourceType::Item,
                false,
            )
            &&& l == 0 && a.levels@.len() > 0 ==> augment_pendings(item, augments, name) == fixed_pendings(
                a.levels@[0].entries@,
                "Augment: "@ + a.name@ + " Lv "@ + decimal(1) + " ("@ + name + ")"@,
                SourceType::Item,
                false,
            )
        }),
{
}

// ---------- fan-outs ----------

/// The five resistances, by name.
pub open spec fn five_resistances() -> Seq<Seq<char>> {
    seq![
        "fire_resistance"@,
        "cold_resistance"@,
        "lightning_resistance"@,
        "poison_resistance"@,
        "arcane_resistance"@,
    ]
}

/// `a + b`, endpoint by endpoint, saturating at the `i64` bounds.
pub open spec fn plus(a: Ranged, b: Ranged) -> Ranged {
    (clamp(a.0 + b.0) as i64, clamp(a.1 + b.1) as i64)
}

proof fn lemma_add_to_each_value(m: Map<Seq<char>, Ranged>, keys: Seq<Seq<char>>, v: Ranged, k: Seq<char>)
    requires
        keys.no_duplicates(),
    ensures
        value_of(add_to_each(m, keys, v), k) == if keys.contains(k) {
            range_add(value_of(m, k), v)
        } else {
            value_of(m, k)
        },
    decreases keys.len(),
{
    if keys.len() > 0 {
        let d = keys.drop_last();
        assert(d.no_duplicates());
        lemma_add_to_each_value(m, d, v, k);
        if k == keys.last() {
            assert(keys.contains(k)) by {
                assert(keys[keys.len() - 1] == k);
            }
            assert(!d.contains(k)) by {
                if d.contains(k) {
                    let j = choose|j: int| 0 <= j < d.len() && d[j] == k;
                    assert(keys[j] == keys[keys.len() - 1]);
                }
            }
        } else {
            assert(keys.contains(k) == d.contains(k)) by {
                if keys.contains(k) {
                    let j = choose|j: int| 0 <= j < keys.len() && keys[j] == k;
                    assert(d[j] == k);
                }
                if d.contains(k) {
                    let j = choose|j: int| 0 <= j < d.len() && d[j] == k;
                    assert(keys[j] == k);
                }
            }
        }
    }
}

proof fn lemma_fan_out_value(m: Map<Seq<char>, Ranged>, src: Seq<char>, targets: Seq<Seq<char>>, k: Seq<char>)
    requires
        targets.no_duplicates(),
    ensures
        value_of(fan_out_spec(m, src, targets), k) == if targets.contains(k) {
            plus(value_of(m, k), value_of(m, src))
        } else {
            value_of(m, k)
        },
        value_of(fan_out_spec(m, src, targets), src) == value_of(m, src) || targets.contains(src),
{
    lemma_add_to_each_value(m, targets, value_of(m, src), k);
    lemma_add_to_each_value(m, targets, value_of(m, src), src);
    let x = value_of(m, k);
    assert(clamp(x.0 + 0) == x.0 && clamp(x.1 + 0) == x.1);
}

/// Keys told apart by their first character.
pub open spec fn first_chars_differ(keys: Seq<Seq<char>>, k: Seq<char>) -> bool {
    forall|i: int| 0 <= i < keys.len() ==> (#[trigger] keys[i]).len() > 0 && k.len() > 0 && keys[i][0] != k[0]
}

proof fn lemma_not_contained(keys: Seq<Seq<char>>, k: Seq<char>)
    requires
        first_chars_differ(keys, k),
    ensures
        !keys.contains(k),
{
    if keys.contains(k) {
        let j = choose|j: int| 0 <= j < keys.len() && keys[j] == k;
        assert(keys[j][0] != k[0]);
    }
}

proof fn lemma_more_first_char(k: Seq<char>)
    requires
        k.len() > 0,
    ensures
        (k + "_more"@).len() > 0,
        (k + "_more"@)[0] == k[0],
{
}

/// "All resistances" adds its value to each of the five resistances, and
/// its `_more` twin adds to each resistance's `_more` twin; nothing else
/// the fan-outs do touches them.
pub proof fn law_all_resistances_reach_all_five(m: Map<Seq<char>, Ranged>, i: int)
    requires
        0 <= i < 5,
    ensures
        value_of(fan_outs_spec(m), five_resistances()[i]) == plus(
            value_of(m, five_resistances()[i]),
            value_of(m, "all_resistances"@),
        ),
        value_of(fan_outs_spec(m), five_resistances()[i] + "_more"@) == plus(
            value_of(m, five_resistances()[i] + "_more"@),
            value_of(m, "all_resistances_more"@),
        ),
{
    reveal_strlit("fire_resistance");
    reveal_strlit("cold_resistance");
    reveal_strlit("lightning_resistance");
    reveal_strlit("poison_resistance");
    reveal_strlit("arcane_resistance");
    reveal_strlit("all_resistances");
    reveal_strlit("all_attributes");
    reveal_strlit("_more");
    reveal_strlit("to_strength");
    reveal_strlit("to_dexterity");
    reveal_strlit("to_intelligence");
    reveal_strlit("to_energy");
    reveal_strlit("to_vitality");
    reveal_strlit("to_armor");
    reveal_strlit("all_resistances_more");
    let rk = resistance_keys();
    let ak = attribute_stat_keys();
    let rm = more_keys(rk);
    let am = more_keys(ak);
    assert(rk =~= five_resistances());
    let firsts = seq!['f', 'c', 'l', 'p', 'a'];
    assert forall|j: int| 0 <= j < 5 implies (#[trigger] rk[j]).len() > 0 && rk[j][0] == firsts[j] by {}
    assert forall|j: int| 0 <= j < 5 implies (#[trigger] rm[j]).len() > 0 && rm[j][0] == firsts[j] by {
        lemma_more_first_char(rk[j]);
    }
    assert forall|j: int| 0 <= j < 6 implies (#[trigger] ak[j]).len() > 0 && ak[j][0] == 't' by {}
    assert forall|j: int| 0 <= j < 6 implies (#[trigger] am[j]).len() > 0 && am[j][0] == 't' by {
        lemma_more_first_char(ak[j]);
    }
    assert(rk.no_duplicates());
    assert(rm.no_duplicates());
    assert(ak.no_duplicates()) by {
        assert forall|x: int, y: int| 0 <= x < y < 6 implies ak[x] != ak[y] by {
            assert(ak[x].len() != ak[y].len() || ak[x][3] != ak[y][3]);
        }
    }
    assert(am.no_duplicates()) by {
        assert forall|x: int, y: int| 0 <= x < y < 6 implies am[x] != am[y] by {
            assert(am[x].len() != am[y].len() || am[x][3] != am[y][3]);
        }
    }
    let r = rk[i];
    let r_more = r + "_more"@;
    lemma_more_first_char(r);
    assert(rm[i] == r_more);
    assert(rk.contains(r));
    assert(rm.contains(r_more));
    // r is no `_more` key of a resistance, and r_more is no resistance: lengths.
    assert(!rm.contains(r)) by {
        if rm.contains(r) {
            let j = choose|j: int| 0 <= j < 5 && rm[j] == r;
            assert(rm[j][0] == firsts[j]);
            assert(j == i);
            assert(rm[j].len() == r.len() + 5);
        }
    }
    assert(!rk.contains(r_more)) by {
        if rk.contains(r_more) {
            let j = choose|j: int| 0 <= j < 5 && rk[j] == r_more;
            assert(j == i);
        }
    }
    assert(first_chars_differ(ak, r));
    assert(first_chars_differ(am, r));
    assert(first_chars_differ(ak, r_more));
    assert(first_chars_differ(am, r_more));
    lemma_not_contained(ak, r);
    lemma_not_contained(am, r);
    lemma_not_contained(ak, r_more);
    lemma_not_contained(am, r_more);
    // the `_more` source is no resistance
    let src_more = "all_resistances"@ + "_more"@;
    assert(src_more =~= "all_resistances_more"@);
    assert(!rk.contains(src_more)) by {
        if rk.contains(src_more) {
            let j = choose|j: int| 0 <= j < 5 && rk[j] == src_more;
            assert(rk[j][0] == firsts[j]);
            assert(j == 4);
        }
    }
    let m1 = fan_out_spec(m, "all_resistances"@, rk);
    let m2 = fan_out_spec(m1, src_more, rm);
    let m3 = fan_out_spec(m2, "all_attributes"@, ak);
    lemma_fan_out_value(m, "all_resistances"@, rk, r);
    lemma_fan_out_value(m, "all_resistances"@, rk, r_more);
    lemma_fan_out_value(m, "all_resistances"@, rk, src_more);
    lemma_fan_out_value(m1, src_more, rm, r);
    lemma_fan_out_value(m1, src_more, rm, r_more);
    lemma_fan_out_value(m2, "all_attributes"@, ak, r);
    lemma_fan_out_value(m2, "all_attributes"@, ak, r_more);
    lemma_fan_out_value(m3, "all_attributes"@ + "_more"@, am, r);
    lemma_fan_out_value(m3, "all_attributes"@ + "_more"@, am, r_more);
}

// ---------- breakdown of a multiplied stat ----------

/// `flat x (1 + pct%) x (1 + more%)` for one endpoint in millionths, to
/// the nearest millionth.
pub open spec fn times_both_percents(flat: int, pct: int, more: int) -> int {
    clamp(round_div(flat * (100_000_000 + pct) * (100_000_000 + more), 10_000_000_000_000_000))
}

/// Without a final value, the breakdown rebuilds the replenishes and every
/// flat key of the multiplier table as the additive sum times `(1 +
/// increased%)` times `(1 + more%)`.
pub proof fn law_breakdown_multiplies_flat_stats(
    k: Seq<char>,
    additive: Ranged,
    increased: Ranged,
    more: Ranged,
    has_more: bool,
)
    requires
        k == "mana_replenish"@ || k == "life_replenish"@ || exists|j: int|
            0 <= j < multiplier_table().len() && (#[trigger] multiplier_table()[j]).0 == k && multiplier_table()[j].1 is Some,
    ensures
        combined_raw_spec(k, None, additive, increased, more, has_more) == (
            times_both_percents(additive.0 as int, increased.0 as int, more.0 as int) as i64,
            times_both_percents(additive.1 as int, increased.1 as int, more.1 as int) as i64,
        ),
{
    if !(k == "mana_replenish"@ || k == "life_replenish"@) {
        let j = choose|j: int|
            0 <= j < multiplier_table().len() && (#[trigger] multiplier_table()[j]).0 == k && multiplier_table()[j].1 is Some;
        crate::laws::law_breakdown_keys_match_multiplier_table(j, k);
    }
}

// ---------- attribute scaling ----------

/// One attribute endpoint: `flat + floor(flat x all%)` to whole points,
/// then times `(1 + increased%)` and `(1 + more%)`, rounded down to a whole
/// point.
pub open spec fn scaled_attribute_end(flat: int, all: int, pct: int, more: int) -> int {
    let after_all = clamp(flat + (flat * all / 100_000_000_000_000) * 1_000_000);
    clamp((after_all * (100_000_000 + pct) * (100_000_000 + more) / 10_000_000_000_000_000_000_000) * 1_000_000)
}

/// Scaling the attribute `k` reads `increased_all_attributes`, then
/// `increased_<k>` and `increased_<k>_more`; it leaves every other
/// attribute alone, and leaves `k` alone when both it and the
/// all-attributes percent are zero.
pub proof fn law_attribute_scaling_reads_its_percents(
    attrs: Map<Seq<char>, Ranged>,
    stats: Map<Seq<char>, Ranged>,
    k: Seq<char>,
    j: Seq<char>,
)
    ensures
        ({
            let out = attribute_increased_step(attrs, stats, k);
            let flat = value_of(attrs, k);
            let all = value_of(stats, "increased_all_attributes"@);
            let pct = value_of(stats, "increased_"@ + k);
            let more = value_of(stats, "increased_"@ + k + "_more"@);
            &&& j != k ==> value_of(out, j) == value_of(attrs, j)
            &&& flat == zero() && all == zero() ==> out == attrs
            &&& !(flat == zero() && all == zero()) ==> value_of(out, k) == (
                scaled_attribute_end(flat.0 as int, all.0 as int, pct.0 as int, more.0 as int) as i64,
                scaled_attribute_end(flat.1 as int, all.1 as int, pct.1 as int, more.1 as int) as i64,
            )
        }),
{
    assert(("increased_"@ + k) + "_more"@ =~= "increased_"@ + k + "_more"@);
}

/// Scaling a list of distinct attributes scales each of them from its own
/// starting value as `law_attribute_scaling_reads_its_percents` says, and
/// leaves every attribute outside the list alone.
pub proof fn law_attribute_scaling_covers_each_key(
    attrs: Map<Seq<char>, Ranged>,
    stats: Map<Seq<char>, Ranged>,
    keys: Seq<Seq<char>>,
    j: Seq<char>,
)
    requires
        keys.no_duplicates(),
    ensures
        ({
            let out = attribute_increased_spec(attrs, stats, keys);
            let flat = value_of(attrs, j);
            let all = value_of(stats, "increased_all_attributes"@);
            let pct = value_of(stats, "increased_"@ + j);
            let more = value_of(stats, "increased_"@ + j + "_more"@);
            &&& !keys.contains(j) ==> value_of(out, j) == flat
            &&& keys.contains(j) && flat == zero() && all == zero() ==> value_of(out, j) == flat
            &&& keys.contains(j) && !(flat == zero() && all == zero()) ==> value_of(out, j) == (
                scaled_attribute_end(flat.0 as int, all.0 as int, pct.0 as int, more.0 as int) as i64,
                scaled_attribute_end(flat.1 as int, all.1 as int, pct.1 as int, more.1 as int) as i64,
            )
        }),
    decreases keys.len(),
{
    if keys.len() > 0 {
        let d = keys.drop_last();
        let last = keys.last();
        assert(d.no_duplicates());
        law_attribute_scaling_covers_each_key(attrs, stats, d, j);
        law_attribute_scaling_covers_each_key(attrs, stats, d, last);
        let prev = attribute_increased_spec(attrs, stats, d);
        law_attribute_scaling_reads_its_percents(prev, stats, last, j);
        assert(!d.contains(last)) by {
            if d.contains(last) {
                let x = choose|x: int| 0 <= x < d.len() && d[x] == last;
                assert(keys[x] == keys[keys.len() - 1]);
            }
        }
        if j == last {
            assert(keys.contains(j)) by {
                assert(keys[keys.len() - 1] == j);
            }
        } else {
            assert(keys.contains(j) == d.contains(j)) by {
                if keys.contains(j) {
                    let x = choose|x: int| 0 <= x < keys.len() && keys[x] == j;
                    assert(d[x] == j);
                }
                if d.contains(j) {
                    let x = choose|x: int| 0 <= x < d.len() && d[x] == j;
                    assert(keys[x] == j);
                }
            }
        }
    }
}

/// The six attribute stats, by name.
pub open spec fn six_attribute_stats() -> Seq<Seq<char>> {
    seq!["to_strength"@, "to_dexterity"@, "to_intelligence"@, "to_energy"@, "to_vitality"@, "to_armor"@]
}

/// "All attributes" adds its value to each of the six attribute stats, and
/// its `_more` twin adds to each one's `_more` twin; nothing else the
/// fan-outs do touches them.
pub proof fn law_all_attributes_reach_all_six(m: Map<Seq<char>, Ranged>, i: int)
    requires
        0 <= i < 6,
    ensures
        value_of(fan_outs_spec(m), six_attribute_stats()[i]) == plus(
            value_of(m, six_attribute_stats()[i]),
            value_of(m, "all_attributes"@),
        ),
        value_of(fan_outs_spec(m), six_attribute_stats()[i] + "_more"@) == plus(
            value_of(m, six_attribute_stats()[i] + "_more"@),
            value_of(m, "all_attributes_more"@),
        ),
{
    reveal_strlit("fire_resistance");
    reveal_strlit("cold_resistance");
    reveal_strlit("lightning_resistance");
    reveal_strlit("poison_resistance");
    reveal_strlit("arcane_resistance");
    reveal_strlit("all_resistances");
    reveal_strlit("all_attributes");
    reveal_strlit("_more");
    reveal_strlit("to_strength");
    reveal_strlit("to_dexterity");
    reveal_strlit("to_intelligence");
    reveal_strlit("to_energy");
    reveal_strlit("to_vitality");
    reveal_strlit("to_armor");
    reveal_strlit("all_attributes_more");
    let rk = resistance_keys();
    let ak = attribute_stat_keys();
    let rm = more_keys(rk);
    let am = more_keys(ak);
    assert(ak =~= six_attribute_stats());
    let lens = seq![11int, 12, 15, 9, 11, 8];
    let thirds = seq!['s', 'd', 'i', 'e', 'v', 'a'];
    assert forall|j: int| 0 <= j < 6 implies (#[trigger] ak[j]).len() == lens[j] && ak[j][0] == 't' && ak[j][3]
        == thirds[j] by {}
    assert forall|j: int| 0 <= j < 6 implies (#[trigger] am[j]).len() == lens[j] + 5 && am[j][0] == 't' && am[j][3]
        == thirds[j] by {
        assert(am[j] == ak[j] + "_more"@);
    }
    assert forall|j: int| 0 <= j < 5 implies (#[trigger] rk[j]).len() > 0 && rk[j][0] != 't' by {}
    assert forall|j: int| 0 <= j < 5 implies (#[trigger] rm[j]).len() > 0 && rm[j][0] != 't' by {
        lemma_more_first_char(rk[j]);
    }
    assert(rk.no_duplicates());
    assert(rm.no_duplicates()) by {
        assert forall|x: int, y: int| 0 <= x < y < 5 implies rm[x] != rm[y] by {
            lemma_more_first_char(rk[x]);
            lemma_more_first_char(rk[y]);
        }
    }
    assert(ak.no_duplicates());
    assert(am.no_duplicates());
    let a = ak[i];
    let a_more = a + "_more"@;
    assert(am[i] == a_more);
    assert(ak.contains(a));
    assert(am.contains(a_more));
    assert(!am.contains(a)) by {
        if am.contains(a) {
            let j = choose|j: int| 0 <= j < 6 && am[j] == a;
            assert(j == i);
        }
    }
    assert(!ak.contains(a_more)) by {
        if ak.contains(a_more) {
            let j = choose|j: int| 0 <= j < 6 && ak[j] == a_more;
            assert(j == i);
        }
    }
    assert(a.len() > 0 && a[0] == 't');
    assert(a_more.len() > 0 && a_more[0] == 't');
    assert(!rk.contains(a)) by {
        if rk.contains(a) {
            let j = choose|j: int| 0 <= j < 5 && rk[j] == a;
        }
    }
    assert(!rm.contains(a)) by {
        if rm.contains(a) {
            let j = choose|j: int| 0 <= j < 5 && rm[j] == a;
        }
    }
    assert(!rk.contains(a_more)) by {
        if rk.contains(a_more) {
            let j = choose|j: int| 0 <= j < 5 && rk[j] == a_more;
        }
    }
    assert(!rm.contains(a_more)) by {
        if rm.contains(a_more) {
            let j = choose|j: int| 0 <= j < 5 && rm[j] == a_more;
        }
    }
    // the two attribute sources are no resistance key and no `_more` twin of one
    let src = "all_attributes"@;
    let src_more = "all_attributes"@ + "_more"@;
    assert(src_more =~= "all_attributes_more"@);
    assert(!rk.contains(src)) by {
        if rk.contains(src) {
            let j = choose|j: int| 0 <= j < 5 && rk[j] == src;
            assert(j == 4);
        }
    }
    assert(!rm.contains(src)) by {
        if rm.contains(src) {
            let j = choose|j: int| 0 <= j < 5 && rm[j] == src;
            assert(rm[j] == rk[j] + "_more"@);
            assert(rm[j].len() == rk[j].len() + 5);
            assert(j == 4);
        }
    }
    assert(!rk.contains(src_more)) by {
        if rk.contains(src_more) {
            let j = choose|j: int| 0 <= j < 5 && rk[j] == src_more;
            assert(j == 4);
        }
    }
    assert(!rm.contains(src_more)) by {
        if rm.contains(src_more) {
            let j = choose|j: int| 0 <= j < 5 && rm[j] == src_more;
            assert(rm[j] == rk[j] + "_more"@);
            assert(rm[j].len() == rk[j].len() + 5);
            assert(j == 4);
        }
    }
    assert(!ak.contains(src_more)) by {
        if ak.contains(src_more) {
            let j = choose|j: int| 0 <= j < 6 && ak[j] == src_more;
        }
    }
    let m1 = fan_out_spec(m, "all_resistances"@, rk);
    let m2 = fan_out_spec(m1, "all_resistances"@ + "_more"@, rm);
    let m3 = fan_out_spec(m2, src, ak);
    lemma_fan_out_value(m, "all_resistances"@, rk, a);
    lemma_fan_out_value(m, "all_resistances"@, rk, a_more);
    lemma_fan_out_value(m, "all_resistances"@, rk, src);
    lemma_fan_out_value(m, "all_resistances"@, rk, src_more);
    lemma_fan_out_value(m1, "all_resistances"@ + "_more"@, rm, a);
    lemma_fan_out_value(m1, "all_resistances"@ + "_more"@, rm, a_more);
    lemma_fan_out_value(m1, "all_resistances"@ + "_more"@, rm, src);
    lemma_fan_out_value(m1, "all_resistances"@ + "_more"@, rm, src_more);
    lemma_fan_out_value(m2, src, ak, a);
    lemma_fan_out_value(m2, src, ak, a_more);
    lemma_fan_out_value(m2, src, ak, src_more);
    lemma_fan_out_value(m3, src_more, am, a);
    lemma_fan_out_value(m3, src_more, am, a_more);
}

/// `a + m + a x m / 100%` for one endpoint, to the nearest millionth.
pub open spec fn folded_percent(a: int, m: int) -> int {
    clamp(a + m + round_div(a * m, 100_000_000))
}

/// A final value, when given, is the breakdown's combined value.  Without
/// one, a stat that is neither a replenish nor a multiplied flat stat
/// folds its additive and more percents together when it has more sources,
/// and is its additive sum otherwise.
pub proof fn law_breakdown_other_stats(
    k: Seq<char>,
    final_value: Option<Ranged>,
    additive: Ranged,
    increased: Ranged,
    more: Ranged,
    has_more: bool,
)
    ensures
        final_value matches Some(fv) ==> combined_raw_spec(k, final_value, additive, increased, more, has_more) == fv,
        final_value is None && k != "mana_replenish"@ && k != "life_replenish"@ && (forall|j: int|
            0 <= j < multiplier_table().len() ==> (#[trigger] multiplier_table()[j]).0 != k) ==> combined_raw_spec(
            k,
            final_value,
            additive,
            increased,
            more,
            has_more,
        ) == if has_more {
            (
                folded_percent(additive.0 as int, more.0 as int) as i64,
                folded_percent(additive.1 as int, more.1 as int) as i64,
            )
        } else {
            additive
        },
{
    crate::laws::law_breakdown_keys_match_multiplier_table(0, k);
}

} // verus!
