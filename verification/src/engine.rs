//! The optimizer's final state: contributions summed, tree lines folded in,
//! attributes scaled, multipliers and conversions applied.
use std::collections::{HashMap, HashSet};
use vstd::prelude::*;
use crate::aggregate::{
    aggregate_spec, aggregate_tree_mods, apply_attribute_divided_stats, apply_attribute_increased,
    apply_disables, apply_fan_outs, apply_multiplier, apply_per_attribute_stats,
    apply_tree_conversions, attribute_base_keys, attribute_divided_spec, attribute_increased_spec,
    conversions_spec, disables_spec, fan_outs_spec, multiplier_spec, per_attribute_spec,
    TreeAggregateResult,
};
use crate::keymap::KeyMap;
use crate::ranged::{range_add, ranged_add, zero, Ranged};
use crate::stat_map::{
    add_into, add_into_spec, add_to_each, add_to_each_key, key, key_views, value_of, value_or_zero, AttrMap,
    StatMap,
};
use crate::types::TreeNodeInfo;

verus! {

/// The game-config tables the optimizer reads.
pub struct GameConfig {
    /// The attribute keys; empty means the six default attributes.
    pub attribute_keys: Vec<String>,
    /// Attribute key to (stat key to rate per attribute point, in millionths).
    pub default_stats_per_attribute: KeyMap<KeyMap<i64>>,
    /// Attribute key to (stat key to divisor, in millionths).
    pub attribute_divided_stats: KeyMap<KeyMap<i64>>,
}

/// Attribute and stat totals, and the tree lines no rule understood.
pub struct FinalState {
    pub attrs: AttrMap,
    pub stats: StatMap,
    pub unsupported_lines: Vec<String>,
}

/// Everything the optimizer needs to compute a final state.
pub struct EngineInputs<'a> {
    pub attr_contributions: &'a KeyMap<Vec<Ranged>>,
    pub stat_contributions: &'a KeyMap<Vec<Ranged>>,
    pub allocated_tree_nodes: &'a [u32],
    pub tree_node_info: &'a HashMap<u32, TreeNodeInfo>,
    pub player_conditions: &'a KeyMap<bool>,
    pub jewelry_ids: &'a HashSet<u32>,
    pub game_config: &'a GameConfig,
}

// ---------- sums and merges ----------

/// The endpoint-wise sum of a list of ranges, first to last.
pub open spec fn sum_ranges(s: Seq<Ranged>) -> Ranged
    decreases s.len(),
{
    if s.len() == 0 {
        zero()
    } else {
        range_add(sum_ranges(s.drop_last()), s.last())
    }
}

/// Each key's list of ranges summed.
pub open spec fn summed(m: Map<Seq<char>, Vec<Ranged>>) -> Map<Seq<char>, Ranged> {
    Map::new(|k: Seq<char>| m.contains_key(k), |k: Seq<char>| sum_ranges(m[k]@))
}

/// `base` with every range of `add` added under its key.
pub open spec fn merge_add(base: Map<Seq<char>, Ranged>, add: Map<Seq<char>, Ranged>) -> Map<Seq<char>, Ranged> {
    Map::new(
        |k: Seq<char>| base.contains_key(k) || add.contains_key(k),
        |k: Seq<char>|
            if add.contains_key(k) {
                range_add(value_of(base, k), add[k])
            } else {
                base[k]
            },
    )
}

/// `m` with every key of `keys` present (a missing key at zero).
pub open spec fn with_keys(m: Map<Seq<char>, Ranged>, keys: Seq<Seq<char>>) -> Map<Seq<char>, Ranged> {
    Map::new(|k: Seq<char>| m.contains_key(k) || keys.contains(k), |k: Seq<char>| value_of(m, k))
}

fn sum_list(vs: &Vec<Ranged>) -> (r: Ranged)
    ensures
        r == sum_ranges(vs@),
{
    let mut sum: Ranged = (0, 0);
    let n = vs.len();
    let mut i: usize = 0;
    while i < n
        invariant
            n == vs@.len(),
            i <= n,
            sum == sum_ranges(vs@.take(i as int)),
        decreases n - i,
    {
        proof {
            assert(vs@.take(i + 1).drop_last() =~= vs@.take(i as int));
        }
        sum = ranged_add(sum, vs[i]);
        i = i + 1;
    }
    proof {
        assert(vs@.take(n as int) =~= vs@);
    }
    sum
}

/// Each key's contributions summed endpoint by endpoint.
fn sum_contributions(contributions: &KeyMap<Vec<Ranged>>) -> (out: StatMap)
    requires
        contributions.wf(),
    ensures
        out.wf(),
        out@ == summed(contributions@),
{
    let mut out: StatMap = KeyMap::new();
    let n = contributions.entries.len();
    let mut i: usize = 0;
    while i < n
        invariant
            n == contributions.entries@.len(),
            i <= n,
            contributions.wf(),
            out.wf(),
            out@ == Map::new(
                |k: Seq<char>| contributions.keys().take(i as int).contains(k),
                |k: Seq<char>| sum_ranges(contributions@[k]@),
            ),
        decreases n - i,
    {
        let ghost ki = contributions.keys()[i as int];
        proof {
            contributions.lemma_entry(i as int);
            assert(!contributions.keys().take(i as int).contains(ki)) by {
                if contributions.keys().take(i as int).contains(ki) {
                    let j = choose|j: int| 0 <= j < i && #[trigger] contributions.keys().take(i as int)[j] == ki;
                    assert(contributions.keys()[j] == contributions.keys()[i as int]);
                }
            }
        }
        let s = sum_list(&contributions.entries[i].1);
        out.insert(contributions.entries[i].0.clone(), s);
        proof {
            assert(out@ =~= Map::new(
                |k: Seq<char>| contributions.keys().take(i + 1).contains(k),
                |k: Seq<char>| sum_ranges(contributions@[k]@),
            )) by {
                assert forall|k: Seq<char>| contributions.keys().take(i + 1).contains(k) <==> (
                    contributions.keys().take(i as int).contains(k) || k == ki) by {
                    if contributions.keys().take(i + 1).contains(k) {
                        let j = choose|j: int| 0 <= j < i + 1 && #[trigger] contributions.keys().take(i + 1)[j] == k;
                        if j < i {
                            assert(contributions.keys().take(i as int)[j] == k);
                        }
                    }
                    if contributions.keys().take(i as int).contains(k) {
                        let j = choose|j: int| 0 <= j < i && #[trigger] contributions.keys().take(i as int)[j] == k;
                        assert(contributions.keys().take(i + 1)[j] == k);
                    }
                    if k == ki {
                        assert(contributions.keys().take(i + 1)[i as int] == k);
                    }
                }
            }
        }
        i = i + 1;
    }
    proof {
        assert(contributions.keys().take(n as int) =~= contributions.keys());
        assert(out@ =~= summed(contributions@));
    }
    out
}

/// Adds every range of `add`, except the one under `skip`, to `m`.
fn merge_into(m: &mut StatMap, add: &StatMap, skip: Option<&String>)
    requires
        old(m).wf(),
        add.wf(),
    ensures
        final(m).wf(),
        final(m)@ == merge_add(
            old(m)@,
            match skip {
                Some(s) => add@.remove(s@),
                None => add@,
            },
        ),
{
    let ghost full = match skip {
        Some(s) => add@.remove(s@),
        None => add@,
    };
    let ghost skipped = |k: Seq<char>| match skip {
        Some(s) => k == s@,
        None => false,
    };
    let n = add.entries.len();
    let mut i: usize = 0;
    while i < n
        invariant
            n == add.entries@.len(),
            i <= n,
            add.wf(),
            m.wf(),
            full == match skip {
                Some(s) => add@.remove(s@),
                None => add@,
            },
            forall|k: Seq<char>| #[trigger] skipped(k) == match skip {
                Some(s) => k == s@,
                None => false,
            },
            m@ == merge_add(
                old(m)@,
                Map::new(
                    |k: Seq<char>| add.keys().take(i as int).contains(k) && !skipped(k),
                    |k: Seq<char>| add@[k],
                ),
            ),
        decreases n - i,
    {
        let ghost ki = add.keys()[i as int];
        let ghost prefix = Map::new(
            |k: Seq<char>| add.keys().take(i as int).contains(k) && !skipped(k),
            |k: Seq<char>| add@[k],
        );
        let ghost next = Map::new(
            |k: Seq<char>| add.keys().take(i + 1).contains(k) && !skipped(k),
            |k: Seq<char>| add@[k],
        );
        proof {
            add.lemma_entry(i as int);
            assert(!add.keys().take(i as int).contains(ki)) by {
                if add.keys().take(i as int).contains(ki) {
                    let j = choose|j: int| 0 <= j < i && #[trigger] add.keys().take(i as int)[j] == ki;
                    assert(add.keys()[j] == add.keys()[i as int]);
                }
            }
            assert forall|k: Seq<char>| add.keys().take(i + 1).contains(k) <==> (
                add.keys().take(i as int).contains(k) || k == ki) by {
                if add.keys().take(i + 1).contains(k) {
                    let j = choose|j: int| 0 <= j < i + 1 && #[trigger] add.keys().take(i + 1)[j] == k;
                    if j < i {
                        assert(add.keys().take(i as int)[j] == k);
                    }
                }
                if add.keys().take(i as int).contains(k) {
                    let j = choose|j: int| 0 <= j < i && #[trigger] add.keys().take(i as int)[j] == k;
                    assert(add.keys().take(i + 1)[j] == k);
                }
                if k == ki {
                    assert(add.keys().take(i + 1)[i as int] == k);
                }
            }
        }
        let is_skipped = match skip {
            Some(s) => add.entries[i].0 == *s,
            None => false,
        };
        if is_skipped {
            proof {
                assert(skipped(ki));
                assert(next =~= prefix);
            }
        } else {
            let v = add.entries[i].1;
            add_into(m, &add.entries[i].0, v);
            proof {
                assert(!skipped(ki));
                assert(next =~= prefix.insert(ki, v));
                assert(merge_add(old(m)@, next) =~= add_into_spec(merge_add(old(m)@, prefix), ki, v));
            }
        }
        i = i + 1;
    }
    proof {
        assert(add.keys().take(n as int) =~= add.keys());
        let last = Map::new(
            |k: Seq<char>| add.keys().take(n as int).contains(k) && !skipped(k),
            |k: Seq<char>| add@[k],
        );
        assert(last =~= full);
    }
}

/// Puts every key of `keys` into `m`, at zero where it is missing.
fn ensure_keys(m: &mut StatMap, keys: &Vec<String>)
    requires
        old(m).wf(),
    ensures
        final(m).wf(),
        final(m)@ == with_keys(old(m)@, key_views(keys@)),
{
    let n = keys.len();
    let mut i: usize = 0;
    while i < n
        invariant
            n == keys@.len(),
            i <= n,
            m.wf(),
            m@ == with_keys(old(m)@, key_views(keys@).take(i as int)),
        decreases n - i,
    {
        proof {
            assert(key_views(keys@)[i as int] == keys@[i as int]@);
        }
        if !m.contains_key(&keys[i]) {
            m.insert(keys[i].clone(), (0, 0));
        }
        proof {
            assert(m@ =~= with_keys(old(m)@, key_views(keys@).take(i + 1))) by {
                assert forall|k: Seq<char>| key_views(keys@).take(i + 1).contains(k) <==> (
                    key_views(keys@).take(i as int).contains(k) || k == keys@[i as int]@) by {
                    if key_views(keys@).take(i + 1).contains(k) {
                        let j = choose|j: int| 0 <= j < i + 1 && #[trigger] key_views(keys@).take(i + 1)[j] == k;
                        if j < i {
                            assert(key_views(keys@).take(i as int)[j] == k);
                        }
                    }
                    if key_views(keys@).take(i as int).contains(k) {
                        let j = choose|j: int| 0 <= j < i && #[trigger] key_views(keys@).take(i as int)[j] == k;
                        assert(key_views(keys@).take(i + 1)[j] == k);
                    }
                    if k == keys@[i as int]@ {
                        assert(key_views(keys@).take(i + 1)[i as int] == k);
                    }
                }
            }
        }
        i = i + 1;
    }
    proof {
        assert(key_views(keys@).take(n as int) =~= key_views(keys@));
    }
}

} // verus!

verus! {

// ---------- multiplied stats ----------

/// Life and mana: flat x (1 + increased) x (1 + more), rounded down; the
/// replenishes: flat x (1 + more), kept fractional.
pub open spec fn multiplied_stats_spec(m: Map<Seq<char>, Ranged>) -> Map<Seq<char>, Ranged> {
    let m1 = multiplier_spec(m, "life"@, Some("increased_life"@), Some("increased_life_more"@), true);
    let m2 = multiplier_spec(m1, "mana"@, Some("increased_mana"@), Some("increased_mana_more"@), true);
    let m3 = multiplier_spec(m2, "mana_replenish"@, None, Some("mana_replenish_more"@), false);
    multiplier_spec(m3, "life_replenish"@, None, Some("life_replenish_more"@), false)
}

/// The flat keys of the multiplied stats.
pub open spec fn multiplied_flat_keys() -> Set<Seq<char>> {
    set!["life"@, "mana"@, "mana_replenish"@, "life_replenish"@]
}

fn apply_multiplied_stats(stats: &mut StatMap)
    requires
        old(stats).wf(),
    ensures
        final(stats).wf(),
        final(stats)@ == multiplied_stats_spec(old(stats)@),
{
    apply_multiplier(stats, "life", Some("increased_life"), Some("increased_life_more"), true);
    apply_multiplier(stats, "mana", Some("increased_mana"), Some("increased_mana_more"), true);
    apply_multiplier(stats, "mana_replenish", None, Some("mana_replenish_more"), false);
    apply_multiplier(stats, "life_replenish", None, Some("life_replenish_more"), false);
}

fn record_flat(totals: &mut StatMap, stats: &StatMap, flat: &str)
    requires
        old(totals).wf(),
        stats.wf(),
    ensures
        final(totals).wf(),
        final(totals)@ == if stats@.contains_key(flat@) {
            old(totals)@.insert(flat@, stats@[flat@])
        } else {
            old(totals)@
        },
{
    let k = key(flat);
    if let Some(v) = stats.get(&k) {
        totals.insert(k, *v);
    }
}

/// The flat values of the multiplied stats present in `stats`.
fn flat_totals_of(stats: &StatMap) -> (totals: StatMap)
    requires
        stats.wf(),
    ensures
        totals.wf(),
        totals@ == stats@.restrict(multiplied_flat_keys()),
{
    let mut totals: StatMap = KeyMap::new();
    record_flat(&mut totals, stats, "life");
    record_flat(&mut totals, stats, "mana");
    record_flat(&mut totals, stats, "mana_replenish");
    record_flat(&mut totals, stats, "life_replenish");
    assert(totals@ =~= stats@.restrict(multiplied_flat_keys()));
    totals
}

/// A multiplied stat whose flat, increased or more key received a
/// conversion is rebuilt: its flat total before multiplying plus the
/// converted amount, multiplied again.
pub open spec fn reapply_spec(
    m: Map<Seq<char>, Ranged>,
    flat_totals: Map<Seq<char>, Ranged>,
    converted: Map<Seq<char>, Ranged>,
    flat: Seq<char>,
    pct: Option<Seq<char>>,
    more: Option<Seq<char>>,
    floor: bool,
) -> Map<Seq<char>, Ranged> {
    let touched = converted.contains_key(flat) || (pct matches Some(p) && converted.contains_key(p)) || (
    more matches Some(q) && converted.contains_key(q));
    if touched {
        multiplier_spec(
            m.insert(flat, range_add(value_of(flat_totals, flat), value_of(converted, flat))),
            flat,
            pct,
            more,
            floor,
        )
    } else {
        m
    }
}

pub open spec fn reapply_all_spec(
    m: Map<Seq<char>, Ranged>,
    flat_totals: Map<Seq<char>, Ranged>,
    converted: Map<Seq<char>, Ranged>,
) -> Map<Seq<char>, Ranged> {
    let m1 = reapply_spec(m, flat_totals, converted, "life"@, Some("increased_life"@), Some("increased_life_more"@), true);
    let m2 = reapply_spec(m1, flat_totals, converted, "mana"@, Some("increased_mana"@), Some("increased_mana_more"@), true);
    let m3 = reapply_spec(m2, flat_totals, converted, "mana_replenish"@, None, Some("mana_replenish_more"@), false);
    reapply_spec(m3, flat_totals, converted, "life_replenish"@, None, Some("life_replenish_more"@), false)
}

fn reapply_one(
    stats: &mut StatMap,
    flat_totals: &StatMap,
    converted: &StatMap,
    flat: &str,
    pct: Option<&str>,
    more: Option<&str>,
    floor: bool,
)
    requires
        old(stats).wf(),
        flat_totals.wf(),
        converted.wf(),
    ensures
        final(stats).wf(),
        final(stats)@ == reapply_spec(
            old(stats)@,
            flat_totals@,
            converted@,
            flat@,
            crate::aggregate::opt_view(pct),
            crate::aggregate::opt_view(more),
            floor,
        ),
{
    let fk = key(flat);
    let pct_touched = match pct {
        Some(p) => converted.contains_key(&key(p)),
        None => false,
    };
    let more_touched = match more {
        Some(q) => converted.contains_key(&key(q)),
        None => false,
    };
    if !(converted.contains_key(&fk) || pct_touched || more_touched) {
        return;
    }
    let base = value_or_zero(flat_totals, &fk);
    let added = value_or_zero(converted, &fk);
    stats.insert(fk, ranged_add(base, added));
    apply_multiplier(stats, flat, pct, more, floor);
}

fn reapply_touched(stats: &mut StatMap, flat_totals: &StatMap, converted: &StatMap)
    requires
        old(stats).wf(),
        flat_totals.wf(),
        converted.wf(),
    ensures
        final(stats).wf(),
        final(stats)@ == reapply_all_spec(old(stats)@, flat_totals@, converted@),
{
    reapply_one(stats, flat_totals, converted, "life", Some("increased_life"), Some("increased_life_more"), true);
    reapply_one(stats, flat_totals, converted, "mana", Some("increased_mana"), Some("increased_mana_more"), true);
    reapply_one(stats, flat_totals, converted, "mana_replenish", None, Some("mana_replenish_more"), false);
    reapply_one(stats, flat_totals, converted, "life_replenish", None, Some("life_replenish_more"), false);
}

// ---------- final state ----------

/// The attribute keys in force: the configured ones, or the six defaults.
pub open spec fn attribute_keys_spec(configured: Seq<Seq<char>>) -> Seq<Seq<char>> {
    if configured.len() == 0 {
        attribute_base_keys()
    } else {
        configured
    }
}

/// The attributes with the tree's attribute contributions added: each key
/// but `all_attributes` under its own name, then `all_attributes` under every
/// attribute key.
pub open spec fn attrs_with_tree(
    attrs: Map<Seq<char>, Ranged>,
    tree_attrs: Map<Seq<char>, Ranged>,
    keys: Seq<Seq<char>>,
) -> Map<Seq<char>, Ranged> {
    let merged = merge_add(attrs, tree_attrs.remove("all_attributes"@));
    if tree_attrs.contains_key("all_attributes"@) {
        add_to_each(merged, keys, tree_attrs["all_attributes"@])
    } else {
        merged
    }
}

/// The final attributes, stats and unsupported lines, step by step.
pub open spec fn final_state_spec(
    attr_contributions: Map<Seq<char>, Vec<Ranged>>,
    stat_contributions: Map<Seq<char>, Vec<Ranged>>,
    nodes: Seq<u32>,
    info: Map<u32, TreeNodeInfo>,
    conds: Map<Seq<char>, bool>,
    jewelry: Set<u32>,
    configured_keys: Seq<Seq<char>>,
    per_attribute: Seq<(String, KeyMap<i64>)>,
    divided: Seq<(String, KeyMap<i64>)>,
) -> (Map<Seq<char>, Ranged>, Map<Seq<char>, Ranged>, Seq<Seq<char>>) {
    let tree = aggregate_spec(nodes, info, conds, jewelry);
    let keys = attribute_keys_spec(configured_keys);
    let attrs0 = with_keys(summed(attr_contributions), keys);
    let attrs1 = attrs_with_tree(attrs0, tree.1, keys);
    let stats1 = merge_add(summed(stat_contributions), tree.0);
    let attrs2 = attribute_increased_spec(attrs1, stats1, keys);
    let stats2 = per_attribute_spec(stats1, attrs2, per_attribute);
    let stats3 = attribute_divided_spec(stats2, attrs2, divided);
    let stats4 = fan_outs_spec(stats3);
    let flat_totals = stats4.restrict(multiplied_flat_keys());
    let stats5 = multiplied_stats_spec(stats4);
    let (attrs3, converted) = conversions_spec(attrs2, stats5, tree.2);
    let stats6 = merge_add(stats5, converted);
    let stats7 = reapply_all_spec(stats6, flat_totals, converted);
    let stats8 = disables_spec(stats7, tree.3);
    (attrs3, stats8, tree.4)
}

/// Computes the optimizer's final attributes and stats:
/// the contributions are summed; the tree lines of the allocated nodes are
/// folded in (`all_attributes` raises every attribute); attributes are
/// scaled by their increased percents and feed stats per point and by
/// division; "all" stats fan out; life, mana and the replenishes are
/// multiplied; tree conversions then read those multiplied values and add
/// flat amounts, and a multiplied stat touched by a conversion is rebuilt
/// from its flat total plus the converted amount and multiplied again;
/// finally the disables apply.
pub fn compute_final_state(inputs: &EngineInputs) -> (out: FinalState)
    requires
        inputs.attr_contributions.wf(),
        inputs.stat_contributions.wf(),
        inputs.player_conditions.wf(),
    ensures
        out.attrs.wf(),
        out.stats.wf(),
        (out.attrs@, out.stats@, key_views(out.unsupported_lines@)) == final_state_spec(
            inputs.attr_contributions@,
            inputs.stat_contributions@,
            inputs.allocated_tree_nodes@,
            inputs.tree_node_info@,
            inputs.player_conditions@,
            inputs.jewelry_ids@,
            key_views(inputs.game_config.attribute_keys@),
            inputs.game_config.default_stats_per_attribute.entries@,
            inputs.game_config.attribute_divided_stats.entries@,
        ),
{
    let tree: TreeAggregateResult = aggregate_tree_mods(
        inputs.allocated_tree_nodes,
        inputs.tree_node_info,
        inputs.player_conditions,
        inputs.jewelry_ids,
    );

    let defaults = crate::aggregate::attribute_base_key_list();
    let attribute_keys: &Vec<String> = if inputs.game_config.attribute_keys.len() == 0 {
        &defaults
    } else {
        &inputs.game_config.attribute_keys
    };

    let mut attrs: AttrMap = sum_contributions(inputs.attr_contributions);
    let mut stats: StatMap = sum_contributions(inputs.stat_contributions);

    ensure_keys(&mut attrs, attribute_keys);

    let all_key = key("all_attributes");
    merge_into(&mut attrs, &tree.attr_contributions, Some(&all_key));
    if let Some(v) = tree.attr_contributions.get(&all_key) {
        add_to_each_key(&mut attrs, attribute_keys, *v);
    }
    merge_into(&mut stats, &tree.stat_contributions, None);

    apply_attribute_increased(&mut attrs, &stats, attribute_keys.as_slice());

    apply_per_attribute_stats(&mut stats, &attrs, &inputs.game_config.default_stats_per_attribute);
    apply_attribute_divided_stats(&mut stats, &attrs, &inputs.game_config.attribute_divided_stats);

    apply_fan_outs(&mut stats);

    // Conversions read the multiplied totals, but what they add is flat: it
    // joins the target's flat pool and is multiplied again.
    let flat_totals = flat_totals_of(&stats);
    apply_multiplied_stats(&mut stats);

    let converted = apply_tree_conversions(&mut attrs, &stats, tree.conversions.as_slice());
    merge_into(&mut stats, &converted, None);
    reapply_touched(&mut stats, &flat_totals, &converted);

    apply_disables(&mut stats, &tree.disables);

    FinalState { attrs, stats, unsupported_lines: tree.unsupported_lines }
}

} // verus!
