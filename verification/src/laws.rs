//! Properties of the stat pipeline that hold for every input: how the
//! percent arithmetic behaves at its neutral values, which steps are
//! idempotent, what tree aggregation keeps and drops, that the two
//! pipelines rebuild converted multiplied stats the same way, that grouping
//! by source type accounts for every source, and how base damage follows
//! rank.
use vstd::prelude::*;
use crate::aggregate::{
    conversions_spec,
    aggregate_spec, condition_holds, disables_spec, line_label, line_step, lines_spec, multiplied,
    multiplier_spec, node_step, push_mod_spec, AggView,
};
use crate::engine::{final_state_spec, multiplied_stats_spec, reapply_spec};
use crate::keymap::KeyMap;
use crate::finalize::{
    tree_conversion_step, push_view, tree_conversions_spec, view_sum, ContribView, ConversionState,
    ailment_prefixes, ailment_spec, condition_on, granted_skill_step, keys_for_spec, multiplier_table,
    multipliers_pass_spec, reapply_entry_spec, tree_disables_spec, GrantedState, ItemGrantedSkill, SpecView,
};
use crate::ranged::{combine, range_add, round_div, zero, Ranged};
use crate::sources::{source_sum, SourceContribution, SourceType};
use crate::stat_defs::StatDef;
use crate::damage::{
    base_damage_spec, formula_damage, row_field, table_damage, table_rank, DamageFormula, RankDamage, Skill,
};
use crate::breakdown::{is_grouping, is_subtotal_of, listed_before, type_count, type_sum, StatTypeSubtotal};
use crate::stat_map::{conversion_read, value_of, value_of_opt};
use crate::aggregate::{conversion_source, conversion_step, pct_of};
use crate::stat_map::add_into_spec;
use crate::finalize::conversion_label;
use crate::stat_defs::stat_name_spec;
use crate::types::ConvertKind;
use crate::inventory::{
    augment_level, augment_pendings, base_implicit, base_implicit_entries, contribute_all_spec, implicit_pendings,
    implicits_scale, item_pendings, item_step, override_pendings, Augment, EquippedItem, InventoryState, ItemBase,
    ItemData, Lists, Pending,
};
use crate::types::{ParsedConversion, DisableTarget, TreeLine, TreeLineClass, TreeNodeInfo};

verus! {

/// Folding a zero "more" percent into an additive percent gives the additive
/// percent back, and folding a "more" percent into a zero additive percent
/// gives the "more" percent back.
pub proof fn law_combine_identities(a: Ranged, m: Ranged)
    ensures
        combine(a, zero()) == a,
        combine(zero(), m) == m,
{
}

/// The additive and the "more" percent play symmetric parts:
/// `(1 + a)(1 + m) = (1 + m)(1 + a)`.
pub proof fn law_combine_symmetric(a: Ranged, m: Ranged)
    ensures
        combine(a, m) == combine(m, a),
{
    assert(a.0 * m.0 == m.0 * a.0) by (nonlinear_arith);
    assert(a.1 * m.1 == m.1 * a.1) by (nonlinear_arith);
}

/// A multiplier whose flat stat is zero or absent leaves the map as it is.
pub proof fn law_multiplier_without_flat_is_identity(
    m: Map<Seq<char>, Ranged>,
    flat: Seq<char>,
    pct: Option<Seq<char>>,
    more: Option<Seq<char>>,
    floor: bool,
)
    requires
        value_of(m, flat) == zero(),
    ensures
        multiplier_spec(m, flat, pct, more, floor) == m,
{
}

/// With zero percents a multiplier keeps the flat value as it is, provided
/// that it does not round down or the flat endpoints are whole points.
pub proof fn law_multiplier_neutral_percents(
    m: Map<Seq<char>, Ranged>,
    flat: Seq<char>,
    pct: Option<Seq<char>>,
    more: Option<Seq<char>>,
    floor: bool,
)
    requires
        value_of_opt(m, pct) == zero(),
        value_of_opt(m, more) == zero(),
        floor ==> value_of(m, flat).0 % 1_000_000 == 0 && value_of(m, flat).1 % 1_000_000 == 0,
    ensures
        multiplier_spec(m, flat, pct, more, floor) == m,
{
    let v = value_of(m, flat);
    if v != zero() {
        assert(v.0 * (100_000_000 + 0) == v.0 * 100_000_000);
        assert(v.1 * (100_000_000 + 0) == v.1 * 100_000_000);
        assert((v.0 * 100_000_000) / 100_000_000 == v.0 as int) by (nonlinear_arith);
        assert((v.1 * 100_000_000) / 100_000_000 == v.1 as int) by (nonlinear_arith);
        assert(multiplied(v, zero(), zero(), floor) == v);
        assert(m.insert(flat, v) =~= m);
    }
}

/// Applying the optimizer's disables twice is the same as applying them once.
pub proof fn law_disables_idempotent(m: Map<Seq<char>, Ranged>, disables: Set<Seq<char>>)
    ensures
        disables_spec(disables_spec(m, disables), disables) == disables_spec(m, disables),
{
    if disables.contains("life_replenish"@) {
        assert(disables_spec(disables_spec(m, disables), disables) =~= disables_spec(m, disables));
    }
}

/// Applying the build's disable flags twice is the same as applying them
/// once.
pub proof fn law_tree_disables_idempotent(m: Map<Seq<char>, Ranged>, disables: Seq<DisableTarget>)
    ensures
        tree_disables_spec(tree_disables_spec(m, disables), disables) == tree_disables_spec(m, disables),
{
    if disables.contains(DisableTarget::LifeReplenish) {
        assert(tree_disables_spec(tree_disables_spec(m, disables), disables) =~= tree_disables_spec(
            m,
            disables,
        ));
    }
}

/// A tree stat line with a self-condition adds its value only while the
/// player has that condition on; otherwise the line changes nothing.
pub proof fn law_conditional_line_needs_its_condition(
    st: AggView,
    node_id: u32,
    line: TreeLine,
    conds: Map<Seq<char>, bool>,
)
    ensures
        line.class matches TreeLineClass::Stat(p) ==> (line_step(st, node_id, line, conds) == if condition_holds(
            p,
            conds,
        ) {
            push_mod_spec(st, p)
        } else {
            st
        }),
{
}

/// A line is reported unsupported only when the parser could not classify
/// it.
pub open spec fn classified(line: TreeLine) -> bool {
    !(line.class is Unknown)
}

proof fn lemma_classified_lines_not_reported(st: AggView, node_id: u32, lines: Seq<TreeLine>, conds: Map<Seq<char>, bool>)
    requires
        forall|i: int| 0 <= i < lines.len() ==> classified(#[trigger] lines[i]),
    ensures
        lines_spec(st, node_id, lines, conds).4 == st.4,
    decreases lines.len(),
{
    if lines.len() > 0 {
        assert(forall|i: int| 0 <= i < lines.drop_last().len() ==> lines.drop_last()[i] == lines[i]);
        lemma_classified_lines_not_reported(st, node_id, lines.drop_last(), conds);
        assert(classified(lines[lines.len() - 1]));
    }
}

/// The optimizer never drops a line the parser classified: when every line
/// of every known node is classified (a stat, a meta line or a recognized
/// line without a stat), aggregation reports no unsupported line, whatever
/// the nodes, conditions and jewelry sockets.
pub proof fn law_classified_lines_never_reported(
    nodes: Seq<u32>,
    info: Map<u32, TreeNodeInfo>,
    conds: Map<Seq<char>, bool>,
    jewelry: Set<u32>,
)
    requires
        forall|id: u32, i: int|
            info.contains_key(id) && 0 <= i < info[id].lines@.len() ==> classified(#[trigger] info[id].lines@[i]),
    ensures
        aggregate_spec(nodes, info, conds, jewelry).4 == Seq::<Seq<char>>::empty(),
    decreases nodes.len(),
{
    if nodes.len() > 0 {
        law_classified_lines_never_reported(nodes.drop_last(), info, conds, jewelry);
        let st = aggregate_spec(nodes.drop_last(), info, conds, jewelry);
        let id = nodes.last();
        if info.contains_key(id) && !jewelry.contains(id) {
            lemma_classified_lines_not_reported(st, id, info[id].lines@, conds);
        }
        assert(aggregate_spec(nodes, info, conds, jewelry) == node_step(st, id, info, conds, jewelry));
    }
}

/// An item-granted skill whose condition is off, or whose granted maximum
/// rank is not above zero, converts nothing.
pub proof fn law_granted_skill_gated(
    st: GrantedState,
    stats: Map<Seq<char>, Ranged>,
    defs: Map<Seq<char>, StatDef>,
    ranks: Map<Seq<char>, Ranged>,
    conditions: Map<Seq<char>, bool>,
    g: ItemGrantedSkill,
)
    requires
        !condition_on(conditions, g.condition) || value_of(ranks, g.key@).1 <= 0,
    ensures
        granted_skill_step(st, stats, defs, ranks, conditions, g) == st,
{
}

/// Both pipelines apply the same multipliers to life, mana and the
/// replenishes: the optimizer's multiplied stats are the first four entries
/// of the build's multiplier table.
pub proof fn law_multiplied_stats_match_table(m: Map<Seq<char>, Ranged>)
    ensures
        multiplied_stats_spec(m) == multipliers_pass_spec(m, multiplier_table().take(4)),
{
    let t = multiplier_table();
    assert(t[0] == ("life"@, Some("increased_life"@), Some("increased_life_more"@), true));
    assert(t[1] == ("mana"@, Some("increased_mana"@), Some("increased_mana_more"@), true));
    assert(t[2] == ("mana_replenish"@, None::<Seq<char>>, Some("mana_replenish_more"@), false));
    assert(t[3] == ("life_replenish"@, None::<Seq<char>>, Some("life_replenish_more"@), false));
    assert(t.take(0) =~= Seq::<SpecView>::empty());
    assert(t.take(1).drop_last() =~= t.take(0));
    assert(t.take(2).drop_last() =~= t.take(1));
    assert(t.take(3).drop_last() =~= t.take(2));
    assert(t.take(4).drop_last() =~= t.take(3));
    let m0 = multipliers_pass_spec(m, t.take(0));
    let m1 = multipliers_pass_spec(m, t.take(1));
    let m2 = multipliers_pass_spec(m, t.take(2));
    let m3 = multipliers_pass_spec(m, t.take(3));
    assert(m0 == m);
    assert(m1 == multiplier_spec(m0, t[0].0, t[0].1, t[0].2, t[0].3));
    assert(m2 == multiplier_spec(m1, t[1].0, t[1].1, t[1].2, t[1].3));
    assert(m3 == multiplier_spec(m2, t[2].0, t[2].1, t[2].2, t[2].3));
    assert(multipliers_pass_spec(m, t.take(4)) == multiplier_spec(m3, t[3].0, t[3].1, t[3].2, t[3].3));
}

/// A tree conversion into a multiplied stat adds flat: in the build
/// pipeline the touched stat is re-summed from its sources (the converted
/// amount among them) and multiplied again by its own percents.
pub proof fn law_build_conversion_joins_flat_pool(
    m: Map<Seq<char>, Ranged>,
    sources: Map<Seq<char>, Vec<SourceContribution>>,
    touched: Set<Seq<char>>,
    e: SpecView,
)
    requires
        touched.contains(e.0),
        sources.contains_key(e.0),
        source_sum(sources[e.0]@) != zero(),
        e.1 != Some(e.0),
        e.2 != Some(e.0),
    ensures
        reapply_entry_spec(m, sources, touched, e)[e.0] == multiplied(
            source_sum(sources[e.0]@),
            value_of_opt(m, e.1),
            value_of_opt(m, e.2),
            e.3,
        ),
{
    let m1 = m.insert(e.0, source_sum(sources[e.0]@));
    assert(value_of_opt(m1, e.1) == value_of_opt(m, e.1));
    assert(value_of_opt(m1, e.2) == value_of_opt(m, e.2));
}

/// A tree conversion into a multiplied stat adds flat: in the optimizer the
/// converted amount joins the stat's flat total from before multiplying,
/// and the sum is multiplied again by the stat's own percents.
pub proof fn law_optimizer_conversion_joins_flat_pool(
    m: Map<Seq<char>, Ranged>,
    flat_totals: Map<Seq<char>, Ranged>,
    converted: Map<Seq<char>, Ranged>,
    flat: Seq<char>,
    pct: Option<Seq<char>>,
    more: Option<Seq<char>>,
    floor: bool,
)
    requires
        converted.contains_key(flat),
        range_add(value_of(flat_totals, flat), converted[flat]) != zero(),
        pct != Some(flat),
        more != Some(flat),
    ensures
        reapply_spec(m, flat_totals, converted, flat, pct, more, floor)[flat] == multiplied(
            range_add(value_of(flat_totals, flat), converted[flat]),
            value_of_opt(m, pct),
            value_of_opt(m, more),
            floor,
        ),
{
    let m1 = m.insert(flat, range_add(value_of(flat_totals, flat), value_of(converted, flat)));
    assert(value_of_opt(m1, pct) == value_of_opt(m, pct));
    assert(value_of_opt(m1, more) == value_of_opt(m, more));
}

/// The two pipelines agree on a converted multiplied stat: when the build's
/// sources of the stat sum to the optimizer's flat total plus its converted
/// amount, and the build touched exactly the keys the optimizer converted
/// into, both rebuild the stat to the same map.
pub proof fn law_conversion_rebuild_parity(
    m: Map<Seq<char>, Ranged>,
    sources: Map<Seq<char>, Vec<SourceContribution>>,
    touched: Set<Seq<char>>,
    flat_totals: Map<Seq<char>, Ranged>,
    converted: Map<Seq<char>, Ranged>,
    e: SpecView,
)
    requires
        touched == converted.dom(),
        sources.contains_key(e.0),
        source_sum(sources[e.0]@) == range_add(value_of(flat_totals, e.0), value_of(converted, e.0)),
    ensures
        reapply_entry_spec(m, sources, touched, e) == reapply_spec(m, flat_totals, converted, e.0, e.1, e.2, e.3),
{
}

/// The sum of the counts of a list of subtotals.
pub open spec fn counts_total(out: Seq<StatTypeSubtotal>) -> nat
    decreases out.len(),
{
    if out.len() == 0 {
        0
    } else {
        counts_total(out.drop_last()) + out.last().count as nat
    }
}

/// The sum of the counts of the subtotals of type `t`.
pub open spec fn counts_of_type(out: Seq<StatTypeSubtotal>, t: SourceType) -> nat
    decreases out.len(),
{
    if out.len() == 0 {
        0
    } else {
        counts_of_type(out.drop_last(), t) + if out.last().source_type == t {
            out.last().count as nat
        } else {
            0
        }
    }
}

proof fn lemma_type_counts_partition(s: Seq<SourceContribution>)
    ensures
        type_count(s, SourceType::Item) + type_count(s, SourceType::Socket) + type_count(s, SourceType::Tree)
            == s.len(),
    decreases s.len(),
{
    if s.len() > 0 {
        lemma_type_counts_partition(s.drop_last());
    }
}

proof fn lemma_counts_split(out: Seq<StatTypeSubtotal>)
    ensures
        counts_total(out) == counts_of_type(out, SourceType::Item) + counts_of_type(out, SourceType::Socket)
            + counts_of_type(out, SourceType::Tree),
    decreases out.len(),
{
    if out.len() > 0 {
        lemma_counts_split(out.drop_last());
    }
}

proof fn lemma_counts_of_type(s: Seq<SourceContribution>, out: Seq<StatTypeSubtotal>, t: SourceType)
    requires
        forall|i: int| 0 <= i < out.len() ==> is_subtotal_of(s, #[trigger] out[i]),
        forall|i: int, j: int|
            0 <= i < j < out.len() ==> (#[trigger] out[i]).source_type != (#[trigger] out[j]).source_type,
    ensures
        counts_of_type(out, t) == if exists|i: int| 0 <= i < out.len() && #[trigger] out[i].source_type == t {
            type_count(s, t)
        } else {
            0
        },
    decreases out.len(),
{
    if out.len() > 0 {
        let d = out.drop_last();
        assert forall|i: int| 0 <= i < d.len() implies is_subtotal_of(s, #[trigger] d[i]) by {
            assert(d[i] == out[i]);
        }
        assert forall|i: int, j: int| 0 <= i < j < d.len() implies (#[trigger] d[i]).source_type
            != (#[trigger] d[j]).source_type by {
            assert(d[i] == out[i] && d[j] == out[j]);
        }
        lemma_counts_of_type(s, d, t);
        let last = out.len() - 1;
        assert(is_subtotal_of(s, out[last]));
        if out[last].source_type == t {
            if exists|i: int| 0 <= i < d.len() && #[trigger] d[i].source_type == t {
                let i = choose|i: int| 0 <= i < d.len() && #[trigger] d[i].source_type == t;
                assert(out[i] == d[i]);
                assert(out[i].source_type != out[last].source_type);
            }
        } else {
            if exists|i: int| 0 <= i < out.len() && #[trigger] out[i].source_type == t {
                let i = choose|i: int| 0 <= i < out.len() && #[trigger] out[i].source_type == t;
                assert(d[i] == out[i]);
            }
            if exists|i: int| 0 <= i < d.len() && #[trigger] d[i].source_type == t {
                let i = choose|i: int| 0 <= i < d.len() && #[trigger] d[i].source_type == t;
                assert(out[i] == d[i]);
            }
        }
    }
}

/// Grouping by source type accounts for every source exactly once: the
/// counts of the subtotals add up to the number of sources.
pub proof fn law_grouping_counts_every_source(s: Seq<SourceContribution>, out: Seq<StatTypeSubtotal>)
    requires
        is_grouping(s, out),
    ensures
        counts_total(out) == s.len(),
{
    assert forall|i: int, j: int| 0 <= i < j < out.len() implies (#[trigger] out[i]).source_type
        != (#[trigger] out[j]).source_type by {
        assert(listed_before(out[i], out[j]));
        assert(is_subtotal_of(s, out[i]));
        assert(is_subtotal_of(s, out[j]));
    }
    lemma_counts_split(out);
    lemma_type_counts_partition(s);
    let ts = seq![SourceType::Item, SourceType::Socket, SourceType::Tree];
    assert forall|k: int| 0 <= k < 3 implies counts_of_type(out, #[trigger] ts[k]) == type_count(s, ts[k]) by {
        let t = ts[k];
        lemma_counts_of_type(s, out, t);
        if exists|i: int| 0 <= i < out.len() && #[trigger] out[i].source_type == t {
        } else {
            if type_count(s, t) > 0 {
                assert(exists|i: int| 0 <= i < out.len() && #[trigger] out[i].source_type == t);
            }
        }
    }
    assert(counts_of_type(out, ts[0]) == type_count(s, ts[0]));
    assert(counts_of_type(out, ts[1]) == type_count(s, ts[1]));
    assert(counts_of_type(out, ts[2]) == type_count(s, ts[2]));
}

/// A skill never deals negative base damage, whatever its rank.
pub proof fn law_base_damage_never_negative(skill: Skill, eff: Ranged)
    ensures
        base_damage_spec(skill, eff).0 >= 0,
        base_damage_spec(skill, eff).1 >= 0,
{
}

/// Past the end of a damage table, extra ranks keep scaling base damage:
/// for a table whose rows never fall, more rank never means less damage,
/// inside the table and beyond it.
pub proof fn law_table_damage_grows_with_rank(t: Seq<RankDamage>, e1: int, e2: int, is_max: bool)
    requires
        forall|i: int, j: int| 0 <= i <= j < t.len() ==> row_field(t, i, is_max) <= row_field(t, j, is_max),
        e1 <= e2,
    ensures
        table_damage(t, e1, is_max) <= table_damage(t, e2, is_max),
{
    let n = t.len() as int;
    if n > 0 {
        let r1 = table_rank(e1);
        let r2 = table_rank(e2);
        vstd::arithmetic::div_mod::lemma_div_is_ordered(e1, e2, 1_000_000);
        assert(r1 <= r2);
        let last = row_field(t, n - 1, is_max);
        let prev = if n >= 2 {
            row_field(t, n - 2, is_max)
        } else {
            last
        };
        assert(prev <= last);
        if r2 > n {
            assert((last - prev) * (r2 - n) >= 0) by (nonlinear_arith)
                requires
                    last - prev >= 0,
                    r2 - n > 0,
            ;
            if r1 > n {
                assert((last - prev) * (r1 - n) <= (last - prev) * (r2 - n)) by (nonlinear_arith)
                    requires
                        last - prev >= 0,
                        0 < r1 - n <= r2 - n,
                ;
            } else {
                assert(row_field(t, r1 - 1, is_max) <= last);
            }
        } else {
            assert(row_field(t, r1 - 1, is_max) <= row_field(t, r2 - 1, is_max));
        }
    }
}

proof fn lemma_keys_for_entry(t: Seq<SpecView>, i: int)
    requires
        forall|a: int, b: int| 0 <= a < b < t.len() ==> (#[trigger] t[a]).0 != (#[trigger] t[b]).0,
        0 <= i < t.len(),
    ensures
        keys_for_spec(t, t[i].0) == (t[i].1, t[i].2),
    decreases i,
{
    if i > 0 {
        let d = t.drop_first();
        assert(t[0].0 != t[i].0);
        assert forall|a: int, b: int| 0 <= a < b < d.len() implies (#[trigger] d[a]).0 != (#[trigger] d[b]).0 by {
            assert(d[a] == t[a + 1] && d[b] == t[b + 1]);
        }
        assert(d[i - 1] == t[i]);
        lemma_keys_for_entry(d, i - 1);
    }
}

proof fn lemma_keys_for_absent(t: Seq<SpecView>, k: Seq<char>)
    requires
        forall|j: int| 0 <= j < t.len() ==> (#[trigger] t[j]).0 != k,
    ensures
        keys_for_spec(t, k) == (None::<Seq<char>>, None::<Seq<char>>),
    decreases t.len(),
{
    if t.len() > 0 {
        let d = t.drop_first();
        assert(t[0].0 != k);
        assert forall|j: int| 0 <= j < d.len() implies (#[trigger] d[j]).0 != k by {
            assert(d[j] == t[j + 1]);
        }
        lemma_keys_for_absent(d, k);
    }
}

/// The per-stat breakdown reads exactly the percent and "more" keys that
/// the multiplier pass applies: for every entry of the multiplier table,
/// looking its flat key up gives that entry's keys; a stat that is no
/// entry's flat key, such as `enhanced_damage`, gets neither key.
pub proof fn law_breakdown_keys_match_multiplier_table(i: int, k: Seq<char>)
    requires
        0 <= i < multiplier_table().len(),
    ensures
        keys_for_spec(multiplier_table(), multiplier_table()[i].0) == (
            multiplier_table()[i].1,
            multiplier_table()[i].2,
        ),
        (forall|j: int| 0 <= j < multiplier_table().len() ==> (#[trigger] multiplier_table()[j]).0 != k) ==> keys_for_spec(
            multiplier_table(),
            k,
        ) == (None::<Seq<char>>, None::<Seq<char>>),
        keys_for_spec(multiplier_table(), "enhanced_damage"@) == (None::<Seq<char>>, None::<Seq<char>>),
{
    let t = multiplier_table();
    reveal_strlit("life");
    reveal_strlit("mana");
    reveal_strlit("mana_replenish");
    reveal_strlit("life_replenish");
    reveal_strlit("bleed");
    reveal_strlit("burning");
    reveal_strlit("frostbite");
    reveal_strlit("permafrost");
    reveal_strlit("poisoned");
    reveal_strlit("rabies");
    reveal_strlit("shadowburn");
    reveal_strlit("stasis");
    reveal_strlit("_duration");
    let a = ailment_prefixes();
    assert(t.len() == 12);
    assert forall|j: int| 0 <= j < 8 implies #[trigger] t[j + 4] == ailment_spec(a[j]) by {
        assert(t[j + 4] == a.map_values(|x: Seq<char>| ailment_spec(x))[j]);
    }
    // Every flat key differs from the others in its first character or in
    // its length.
    let first = seq!['l', 'm', 'm', 'l', 'b', 'b', 'f', 'p', 'p', 'r', 's', 's'];
    let lens = seq![4int, 4, 14, 14, 14, 16, 18, 19, 17, 15, 19, 15];
    assert forall|j: int| 0 <= j < 12 implies (#[trigger] t[j]).0.len() == lens[j] && t[j].0[0] == first[j] by {
        if j >= 4 {
            assert(t[(j - 4) + 4] == ailment_spec(a[j - 4]));
        }
    }
    assert forall|x: int, y: int| 0 <= x < y < t.len() implies (#[trigger] t[x]).0 != (#[trigger] t[y]).0 by {
        assert(t[x].0.len() == lens[x] && t[x].0[0] == first[x]);
        assert(t[y].0.len() == lens[y] && t[y].0[0] == first[y]);
    }
    lemma_keys_for_entry(t, i);
    if forall|j: int| 0 <= j < t.len() ==> (#[trigger] t[j]).0 != k {
        lemma_keys_for_absent(t, k);
    }
    reveal_strlit("enhanced_damage");
    assert forall|j: int| 0 <= j < t.len() implies (#[trigger] t[j]).0 != "enhanced_damage"@ by {
        assert(t[j].0[0] == first[j]);
        assert("enhanced_damage"@[0] == 'e');
    }
    lemma_keys_for_absent(t, "enhanced_damage"@);
}

proof fn lemma_round_div_monotone(n1: int, n2: int, d: int)
    requires
        d > 0,
        n1 <= n2,
    ensures
        round_div(n1, d) <= round_div(n2, d),
{
    let h = d / 2;
    if n1 >= 0 {
        vstd::arithmetic::div_mod::lemma_div_is_ordered(n1 + h, n2 + h, d);
    } else if n2 < 0 {
        vstd::arithmetic::div_mod::lemma_div_is_ordered(-n2 + h, -n1 + h, d);
    } else {
        vstd::arithmetic::div_mod::lemma_div_pos_is_pos(-n1 + h, d);
        vstd::arithmetic::div_mod::lemma_div_pos_is_pos(n2 + h, d);
    }
}

/// With a non-negative per-level slope, more rank never means less
/// formula damage.
pub proof fn law_formula_damage_grows_with_rank(f: DamageFormula, e1: int, e2: int)
    requires
        f.per_level >= 0,
        e1 <= e2,
    ensures
        formula_damage(f, e1) <= formula_damage(f, e2),
{
    assert(f.per_level * e1 <= f.per_level * e2) by (nonlinear_arith)
        requires
            f.per_level >= 0,
            e1 <= e2,
    ;
    lemma_round_div_monotone(f.per_level * e1, f.per_level * e2, 1_000_000);
}

/// The labels `#<node>: <line>` of a node's unclassified lines, in order.
pub open spec fn unknown_labels(node_id: u32, lines: Seq<TreeLine>) -> Seq<Seq<char>>
    decreases lines.len(),
{
    if lines.len() == 0 {
        Seq::empty()
    } else {
        let prev = unknown_labels(node_id, lines.drop_last());
        if lines.last().class is Unknown {
            prev.push(line_label(node_id, lines.last().text@))
        } else {
            prev
        }
    }
}

/// The labels of the unclassified lines of the allocated nodes that are
/// known and not jewelry sockets, in allocation order.
pub open spec fn unknown_node_labels(nodes: Seq<u32>, info: Map<u32, TreeNodeInfo>, jewelry: Set<u32>) -> Seq<
    Seq<char>,
>
    decreases nodes.len(),
{
    if nodes.len() == 0 {
        Seq::empty()
    } else {
        let prev = unknown_node_labels(nodes.drop_last(), info, jewelry);
        let id = nodes.last();
        if info.contains_key(id) && !jewelry.contains(id) {
            prev + unknown_labels(id, info[id].lines@)
        } else {
            prev
        }
    }
}

proof fn lemma_lines_unknown_labels(st: AggView, node_id: u32, lines: Seq<TreeLine>, conds: Map<Seq<char>, bool>)
    ensures
        lines_spec(st, node_id, lines, conds).4 == st.4 + unknown_labels(node_id, lines),
    decreases lines.len(),
{
    if lines.len() == 0 {
        assert(st.4 + Seq::<Seq<char>>::empty() =~= st.4);
    } else {
        lemma_lines_unknown_labels(st, node_id, lines.drop_last(), conds);
        let prev = unknown_labels(node_id, lines.drop_last());
        let x = line_label(node_id, lines.last().text@);
        assert((st.4 + prev).push(x) =~= st.4 + prev.push(x));
    }
}

/// The unsupported lines are exactly the labels `#<node>: <line>` of the
/// unclassified lines of the allocated nodes that are known and not jewelry
/// sockets, in allocation and line order.
pub proof fn law_unsupported_lines_are_the_unclassified_lines(
    nodes: Seq<u32>,
    info: Map<u32, TreeNodeInfo>,
    conds: Map<Seq<char>, bool>,
    jewelry: Set<u32>,
)
    ensures
        aggregate_spec(nodes, info, conds, jewelry).4 == unknown_node_labels(nodes, info, jewelry),
    decreases nodes.len(),
{
    if nodes.len() > 0 {
        law_unsupported_lines_are_the_unclassified_lines(nodes.drop_last(), info, conds, jewelry);
        let st = aggregate_spec(nodes.drop_last(), info, conds, jewelry);
        let id = nodes.last();
        if info.contains_key(id) && !jewelry.contains(id) {
            lemma_lines_unknown_labels(st, id, info[id].lines@, conds);
        }
    }
}

/// Keeps the nodes that are not jewelry sockets.
pub open spec fn not_jewelry(jewelry: Set<u32>) -> spec_fn(u32) -> bool {
    |n: u32| !jewelry.contains(n)
}

/// Jewelry sockets add nothing: aggregating the allocated nodes gives the
/// same result as aggregating them with the jewelry sockets removed.
pub proof fn law_jewelry_nodes_add_nothing(
    nodes: Seq<u32>,
    info: Map<u32, TreeNodeInfo>,
    conds: Map<Seq<char>, bool>,
    jewelry: Set<u32>,
)
    ensures
        aggregate_spec(nodes, info, conds, jewelry) == aggregate_spec(
            nodes.filter(not_jewelry(jewelry)),
            info,
            conds,
            jewelry,
        ),
    decreases nodes.len(),
{
    if nodes.len() > 0 {
        law_jewelry_nodes_add_nothing(nodes.drop_last(), info, conds, jewelry);
        let f = nodes.filter(not_jewelry(jewelry));
        let fd = nodes.drop_last().filter(not_jewelry(jewelry));
        reveal(Seq::filter);
        if !jewelry.contains(nodes.last()) {
            assert(f == fd.push(nodes.last()));
            assert(f.drop_last() =~= fd);
        } else {
            assert(f == fd);
        }
    }
}

proof fn lemma_offhand_implicits_have_no_rate(
    entries: Seq<(String, Ranged)>,
    item: EquippedItem,
    name: Seq<char>,
    scale: bool,
)
    ensures
        forall|i: int|
            0 <= i < implicit_pendings(entries, "offhand"@, item, name, scale).len() ==> (#[trigger] implicit_pendings(
                entries,
                "offhand"@,
                item,
                name,
                scale,
            )[i]).0 != "attacks_per_second"@,
    decreases entries.len(),
{
    if entries.len() > 0 {
        lemma_offhand_implicits_have_no_rate(entries.drop_last(), item, name, scale);
        let prev = implicit_pendings(entries.drop_last(), "offhand"@, item, name, scale);
        let all = implicit_pendings(entries, "offhand"@, item, name, scale);
        assert forall|i: int| 0 <= i < all.len() implies (#[trigger] all[i]).0 != "attacks_per_second"@ by {
            if i < prev.len() {
                assert(all[i] == prev[i]);
            }
        }
    }
}

proof fn lemma_offhand_overrides_have_no_rate(
    entries: Seq<(String, i64)>,
    implicit: Map<Seq<char>, Ranged>,
    name: Seq<char>,
)
    ensures
        forall|i: int|
            0 <= i < override_pendings(entries, "offhand"@, implicit, name).len() ==> (#[trigger] override_pendings(
                entries,
                "offhand"@,
                implicit,
                name,
            )[i]).0 != "attacks_per_second"@,
    decreases entries.len(),
{
    if entries.len() > 0 {
        lemma_offhand_overrides_have_no_rate(entries.drop_last(), implicit, name);
        let prev = override_pendings(entries.drop_last(), "offhand"@, implicit, name);
        let all = override_pendings(entries, "offhand"@, implicit, name);
        assert forall|i: int| 0 <= i < all.len() implies (#[trigger] all[i]).0 != "attacks_per_second"@ by {
            if i < prev.len() {
                assert(all[i] == prev[i]);
            }
        }
    }
}

/// The main hand alone defines the base attack rate: an offhand item's
/// implicits and overrides never contribute `attacks_per_second`, it adds
/// no base rate of its own, and it never raises the main-hand flag.
pub proof fn law_offhand_attack_rate_never_counts(
    st: InventoryState,
    item: EquippedItem,
    base: ItemBase,
    data: ItemData,
    defs: Map<Seq<char>, StatDef>,
)
    ensures
        forall|i: int|
            0 <= i < implicit_pendings(
                base_implicit_entries(base),
                "offhand"@,
                item,
                base.name@,
                implicits_scale(item, "offhand"@, data),
            ).len() ==> (#[trigger] implicit_pendings(
                base_implicit_entries(base),
                "offhand"@,
                item,
                base.name@,
                implicits_scale(item, "offhand"@, data),
            )[i]).0 != "attacks_per_second"@,
        forall|i: int|
            0 <= i < override_pendings(item.implicit_overrides.entries@, "offhand"@, base_implicit(base), base.name@).len()
                ==> (#[trigger] override_pendings(
                item.implicit_overrides.entries@,
                "offhand"@,
                base_implicit(base),
                base.name@,
            )[i]).0 != "attacks_per_second"@,
        item_step(st, "offhand"@, item, data, defs).2 == st.2,
{
    lemma_offhand_implicits_have_no_rate(
        base_implicit_entries(base),
        item,
        base.name@,
        implicits_scale(item, "offhand"@, data),
    );
    lemma_offhand_overrides_have_no_rate(item.implicit_overrides.entries@, base_implicit(base), base.name@);
    reveal_strlit("offhand");
    reveal_strlit("weapon");
    assert("offhand"@ != "weapon"@) by {
        assert("offhand"@[0] != "weapon"@[0]);
    }
}

/// The contributions listed under `k`, none when `k` is absent.
pub open spec fn list_or_empty(m: Map<Seq<char>, Seq<ContribView>>, k: Seq<char>) -> Seq<ContribView> {
    if m.contains_key(k) {
        m[k]
    } else {
        Seq::empty()
    }
}

/// What was appended under `k` since `before`.
pub open spec fn appended(
    after: Map<Seq<char>, Seq<ContribView>>,
    before: Map<Seq<char>, Seq<ContribView>>,
    k: Seq<char>,
) -> Seq<ContribView> {
    list_or_empty(after, k).skip(list_or_empty(before, k).len() as int)
}

pub open spec fn conversion_of(c: (ParsedConversion, String)) -> ParsedConversion {
    c.0
}

/// The two pipelines' states correspond.
pub open spec fn conversions_agree(
    agg: (Map<Seq<char>, Ranged>, Map<Seq<char>, Ranged>),
    fin: ConversionState,
    stat_sources: Map<Seq<char>, Seq<ContribView>>,
) -> bool {
    &&& forall|k: Seq<char>| #[trigger] value_of(agg.0, k) == value_of(fin.0, k)
    &&& forall|k: Seq<char>| #[trigger] value_of(fin.0, k) == view_sum(list_or_empty(fin.1, k))
    &&& forall|k: Seq<char>|
        #[trigger] value_of(agg.1, k) == view_sum(appended(fin.2, stat_sources, k))
    &&& forall|k: Seq<char>| #[trigger] fin.3.contains(k) <==> appended(fin.2, stat_sources, k).len() > 0
    &&& forall|k: Seq<char>|
        #[trigger] list_or_empty(stat_sources, k).len() <= list_or_empty(fin.2, k).len()
}

proof fn lemma_range_add_zero(v: Ranged)
    ensures
        range_add(v, zero()) == v,
{
}

proof fn lemma_push_list(m: Map<Seq<char>, Seq<ContribView>>, k: Seq<char>, c: ContribView, j: Seq<char>)
    ensures
        list_or_empty(push_view(m, k, c), j) == if j == k {
            list_or_empty(m, k).push(c)
        } else {
            list_or_empty(m, j)
        },
{
}

#[verifier::rlimit(40)]
proof fn lemma_conversion_step_agrees(
    agg0: (Map<Seq<char>, Ranged>, Map<Seq<char>, Ranged>),
    fin0: ConversionState,
    stat_sources: Map<Seq<char>, Seq<ContribView>>,
    stats: Map<Seq<char>, Ranged>,
    defs: Map<Seq<char>, StatDef>,
    conv: (ParsedConversion, String),
)
    requires
        conversions_agree(agg0, fin0, stat_sources),
    ensures
        conversions_agree(
            conversion_step(agg0, stats, conv.0),
            tree_conversion_step(fin0, stats, defs, conv),
            stat_sources,
        ),
{
    let c = conv.0;
    let agg1 = conversion_step(agg0, stats, c);
    let fin1 = tree_conversion_step(fin0, stats, defs, conv);
    let source = match c.from_kind {
        ConvertKind::Attribute => value_of(fin0.0, c.from_key@),
        ConvertKind::Stat => conversion_read(stats, c.from_key@),
    };
    assert(value_of(agg0.0, c.from_key@) == value_of(fin0.0, c.from_key@));
    assert(conversion_source(agg0.0, stats, c) == source);
    let amount = pct_of(source, c.pct);
    let t = c.to_key@;
    let x: ContribView = (
        conversion_label(conv.1@, c.pct, stat_name_spec(defs, c.from_key@)),
        SourceType::Tree,
        amount,
        None,
    );
    if amount == zero() {
        assert forall|k: Seq<char>| #[trigger] value_of(agg1.0, k) == value_of(fin1.0, k) by {
            lemma_range_add_zero(value_of(agg0.0, k));
            assert(value_of(agg0.0, k) == value_of(fin0.0, k));
        }
        assert forall|k: Seq<char>| #[trigger] value_of(agg1.1, k) == view_sum(appended(fin1.2, stat_sources, k)) by {
            lemma_range_add_zero(value_of(agg0.1, k));
            assert(value_of(agg0.1, k) == view_sum(appended(fin0.2, stat_sources, k)));
        }
    } else {
        match c.to_kind {
            ConvertKind::Attribute => {
                let l = list_or_empty(fin0.1, t).push(x);
                assert(l.drop_last() =~= list_or_empty(fin0.1, t));
                assert(view_sum(l) == range_add(view_sum(list_or_empty(fin0.1, t)), amount));
                assert(push_view(fin0.1, t, x)[t] == l);
                assert(value_of(agg0.0, t) == value_of(fin0.0, t));
                assert(value_of(fin0.0, t) == view_sum(list_or_empty(fin0.1, t)));
                assert forall|k: Seq<char>| #[trigger] value_of(fin1.0, k) == view_sum(list_or_empty(fin1.1, k)) by {
                    lemma_push_list(fin0.1, t, x, k);
                    if k != t {
                        assert(value_of(fin0.0, k) == view_sum(list_or_empty(fin0.1, k)));
                    }
                }
                assert forall|k: Seq<char>| #[trigger] value_of(agg1.0, k) == value_of(fin1.0, k) by {
                    if k != t {
                        assert(value_of(agg0.0, k) == value_of(fin0.0, k));
                    }
                }
            },
            ConvertKind::Stat => {
                let before = list_or_empty(fin0.2, t);
                let n = list_or_empty(stat_sources, t).len() as int;
                assert(n <= before.len());
                assert(before.push(x).skip(n) =~= before.skip(n).push(x));
                assert(before.skip(n).push(x).drop_last() =~= before.skip(n));
                assert(value_of(agg0.1, t) == view_sum(appended(fin0.2, stat_sources, t)));
                assert forall|k: Seq<char>| #[trigger] value_of(agg1.1, k) == view_sum(
                    appended(fin1.2, stat_sources, k),
                ) by {
                    lemma_push_list(fin0.2, t, x, k);
                    if k != t {
                        assert(value_of(agg0.1, k) == view_sum(appended(fin0.2, stat_sources, k)));
                    }
                }
                assert forall|k: Seq<char>| #[trigger] fin1.3.contains(k) <==> appended(fin1.2, stat_sources, k).len()
                    > 0 by {
                    lemma_push_list(fin0.2, t, x, k);
                    assert(fin0.3.contains(k) <==> appended(fin0.2, stat_sources, k).len() > 0);
                    assert(list_or_empty(stat_sources, k).len() <= list_or_empty(fin0.2, k).len());
                }
                assert forall|k: Seq<char>| #[trigger] list_or_empty(stat_sources, k).len() <= list_or_empty(
                    fin1.2,
                    k,
                ).len() by {
                    lemma_push_list(fin0.2, t, x, k);
                    assert(list_or_empty(stat_sources, k).len() <= list_or_empty(fin0.2, k).len());
                }
            },
        }
    }
}

proof fn lemma_conversions_agree(
    attrs: Map<Seq<char>, Ranged>,
    stats: Map<Seq<char>, Ranged>,
    attr_sources: Map<Seq<char>, Seq<ContribView>>,
    stat_sources: Map<Seq<char>, Seq<ContribView>>,
    defs: Map<Seq<char>, StatDef>,
    convs: Seq<(ParsedConversion, String)>,
)
    requires
        forall|k: Seq<char>| #[trigger] value_of(attrs, k) == view_sum(list_or_empty(attr_sources, k)),
    ensures
        conversions_agree(
            conversions_spec(attrs, stats, convs.map_values(|c: (ParsedConversion, String)| conversion_of(c))),
            tree_conversions_spec((attrs, attr_sources, stat_sources, Set::empty()), stats, defs, convs),
            stat_sources,
        ),
    decreases convs.len(),
{
    let cs = convs.map_values(|c: (ParsedConversion, String)| conversion_of(c));
    if convs.len() == 0 {
        let agg = conversions_spec(attrs, stats, cs);
        assert forall|k: Seq<char>| #[trigger] value_of(agg.1, k) == view_sum(appended(stat_sources, stat_sources, k)) by {
            assert(appended(stat_sources, stat_sources, k) =~= Seq::<ContribView>::empty());
        }
        assert forall|k: Seq<char>| #[trigger] Set::<Seq<char>>::empty().contains(k) <==> appended(
            stat_sources,
            stat_sources,
            k,
        ).len() > 0 by {
            assert(appended(stat_sources, stat_sources, k) =~= Seq::<ContribView>::empty());
        }
    } else {
        let d = convs.drop_last();
        lemma_conversions_agree(attrs, stats, attr_sources, stat_sources, defs, d);
        assert(cs.drop_last() =~= d.map_values(|c: (ParsedConversion, String)| conversion_of(c)));
        assert(cs.last() == convs.last().0);
        lemma_conversion_step_agrees(
            conversions_spec(attrs, stats, cs.drop_last()),
            tree_conversions_spec((attrs, attr_sources, stat_sources, Set::empty()), stats, defs, d),
            stat_sources,
            stats,
            defs,
            convs.last(),
        );
    }
}

/// The two pipelines convert alike.  Starting from the same attributes
/// (each the sum of its sources) and the same stats, the optimizer's
/// conversions and the build's labelled ones leave every attribute at the
/// same value; every stat addition of the optimizer is the sum of what the
/// build appended to that stat's sources, the build marks touched exactly
/// the stats it appended to, and the optimizer adds nothing to a stat the
/// build left untouched.
pub proof fn law_conversion_pipelines_agree(
    attrs: Map<Seq<char>, Ranged>,
    stats: Map<Seq<char>, Ranged>,
    attr_sources: Map<Seq<char>, Seq<ContribView>>,
    stat_sources: Map<Seq<char>, Seq<ContribView>>,
    defs: Map<Seq<char>, StatDef>,
    convs: Seq<(ParsedConversion, String)>,
)
    requires
        forall|k: Seq<char>| #[trigger] value_of(attrs, k) == view_sum(list_or_empty(attr_sources, k)),
    ensures
        ({
            let agg = conversions_spec(attrs, stats, convs.map_values(|c: (ParsedConversion, String)| conversion_of(c)));
            let fin = tree_conversions_spec((attrs, attr_sources, stat_sources, Set::empty()), stats, defs, convs);
            &&& forall|k: Seq<char>| #[trigger] value_of(agg.0, k) == value_of(fin.0, k)
            &&& forall|k: Seq<char>|
                #[trigger] value_of(agg.1, k) == view_sum(appended(fin.2, stat_sources, k))
            &&& forall|k: Seq<char>| #[trigger] fin.3.contains(k) <==> appended(fin.2, stat_sources, k).len() > 0
            &&& forall|k: Seq<char>| !(#[trigger] fin.3.contains(k)) ==> value_of(agg.1, k) == zero()
        }),
{
    lemma_conversions_agree(attrs, stats, attr_sources, stat_sources, defs, convs);
    let agg = conversions_spec(attrs, stats, convs.map_values(|c: (ParsedConversion, String)| conversion_of(c)));
    let fin = tree_conversions_spec((attrs, attr_sources, stat_sources, Set::empty()), stats, defs, convs);
    assert forall|k: Seq<char>| !(#[trigger] fin.3.contains(k)) implies value_of(agg.1, k) == zero() by {
        assert(value_of(agg.1, k) == view_sum(appended(fin.2, stat_sources, k)));
        assert(appended(fin.2, stat_sources, k) =~= Seq::<ContribView>::empty());
    }
}

// ---------- grouping does not depend on the order of the sources ----------

/// The exact (unsaturated) sum of the values of type `t`.
pub open spec fn type_total(s: Seq<SourceContribution>, t: SourceType) -> (int, int)
    decreases s.len(),
{
    if s.len() == 0 {
        (0, 0)
    } else {
        let p = type_total(s.drop_last(), t);
        if s.last().source_type == t {
            (p.0 + s.last().value.0, p.1 + s.last().value.1)
        } else {
            p
        }
    }
}

pub open spec fn abs_int(x: int) -> int {
    if x < 0 {
        -x
    } else {
        x
    }
}

/// The sum of the absolute values of type `t`, endpoint by endpoint.
pub open spec fn type_abs(s: Seq<SourceContribution>, t: SourceType) -> (int, int)
    decreases s.len(),
{
    if s.len() == 0 {
        (0, 0)
    } else {
        let p = type_abs(s.drop_last(), t);
        if s.last().source_type == t {
            (p.0 + abs_int(s.last().value.0 as int), p.1 + abs_int(s.last().value.1 as int))
        } else {
            p
        }
    }
}

/// No type's sum can leave the range of `i64`, whatever the order.
pub open spec fn sums_fit(s: Seq<SourceContribution>) -> bool {
    forall|t: SourceType| #[trigger] fits_i64(type_abs(s, t))
}

/// Both endpoints at most `i64::MAX`.
pub open spec fn fits_i64(p: (int, int)) -> bool {
    p.0 <= i64::MAX && p.1 <= i64::MAX
}

proof fn lemma_type_sum_exact(s: Seq<SourceContribution>, t: SourceType)
    requires
        type_abs(s, t).0 <= i64::MAX,
        type_abs(s, t).1 <= i64::MAX,
    ensures
        type_sum(s, t).0 == type_total(s, t).0,
        type_sum(s, t).1 == type_total(s, t).1,
        abs_int(type_total(s, t).0) <= type_abs(s, t).0,
        abs_int(type_total(s, t).1) <= type_abs(s, t).1,
    decreases s.len(),
{
    if s.len() > 0 {
        lemma_type_sum_exact(s.drop_last(), t);
    }
}

proof fn lemma_remove_one(s: Seq<SourceContribution>, j: int, t: SourceType)
    requires
        0 <= j < s.len(),
    ensures
        type_count(s, t) == type_count(s.remove(j), t) + if s[j].source_type == t {
            1nat
        } else {
            0nat
        },
        type_total(s, t) == if s[j].source_type == t {
            (type_total(s.remove(j), t).0 + s[j].value.0, type_total(s.remove(j), t).1 + s[j].value.1)
        } else {
            type_total(s.remove(j), t)
        },
        type_abs(s, t) == if s[j].source_type == t {
            (
                type_abs(s.remove(j), t).0 + abs_int(s[j].value.0 as int),
                type_abs(s.remove(j), t).1 + abs_int(s[j].value.1 as int),
            )
        } else {
            type_abs(s.remove(j), t)
        },
    decreases s.len(),
{
    if j == s.len() - 1 {
        assert(s.remove(j) =~= s.drop_last());
    } else {
        lemma_remove_one(s.drop_last(), j, t);
        assert(s.remove(j).drop_last() =~= s.drop_last().remove(j));
        assert(s.remove(j).last() == s.last());
    }
}

proof fn lemma_permutation_totals(s1: Seq<SourceContribution>, s2: Seq<SourceContribution>, t: SourceType)
    requires
        s1.to_multiset() == s2.to_multiset(),
    ensures
        type_count(s1, t) == type_count(s2, t),
        type_total(s1, t) == type_total(s2, t),
        type_abs(s1, t) == type_abs(s2, t),
    decreases s1.len(),
{
    broadcast use vstd::seq_lib::group_to_multiset_ensures;

    if s1.len() == 0 {
        assert(s2.to_multiset().len() == 0);
        assert(s2.len() == 0);
        assert(s2 =~= Seq::<SourceContribution>::empty());
    } else {
        let x = s1.last();
        assert(s1.contains(x)) by {
            assert(s1[s1.len() - 1] == x);
        }
        assert(s1.to_multiset().count(x) > 0);
        assert(s2.contains(x));
        let j = choose|j: int| 0 <= j < s2.len() && s2[j] == x;
        let r1 = s1.drop_last();
        let r2 = s2.remove(j);
        assert(r1 =~= s1.remove(s1.len() - 1));
        assert(r1.to_multiset() == s1.to_multiset().remove(x));
        assert(r2.to_multiset() == s2.to_multiset().remove(x));
        lemma_permutation_totals(r1, r2, t);
        lemma_remove_one(s2, j, t);
    }
}

proof fn lemma_listed_before_strict(a: StatTypeSubtotal, b: StatTypeSubtotal, c: StatTypeSubtotal)
    ensures
        !listed_before(a, a),
        listed_before(a, b) ==> !listed_before(b, a),
        listed_before(a, b) && listed_before(b, c) ==> listed_before(a, c),
{
}

proof fn lemma_sorted_equal(o1: Seq<StatTypeSubtotal>, o2: Seq<StatTypeSubtotal>)
    requires
        forall|i: int, j: int| 0 <= i < j < o1.len() ==> listed_before(#[trigger] o1[i], #[trigger] o1[j]),
        forall|i: int, j: int| 0 <= i < j < o2.len() ==> listed_before(#[trigger] o2[i], #[trigger] o2[j]),
        forall|i: int| 0 <= i < o1.len() ==> o2.contains(#[trigger] o1[i]),
        forall|i: int| 0 <= i < o2.len() ==> o1.contains(#[trigger] o2[i]),
    ensures
        o1 == o2,
    decreases o1.len() + o2.len(),
{
    if o1.len() == 0 {
        if o2.len() > 0 {
            assert(o1.contains(o2[0]));
        }
        assert(o1 =~= o2);
    } else if o2.len() == 0 {
        assert(o2.contains(o1[0]));
    } else {
        let a = o1[0];
        let b = o2[0];
        assert(o2.contains(a));
        assert(o1.contains(b));
        let ja = choose|j: int| 0 <= j < o2.len() && o2[j] == a;
        let ib = choose|i: int| 0 <= i < o1.len() && o1[i] == b;
        if a != b {
            if ja > 0 {
                assert(listed_before(o2[0], o2[ja]));
            }
            if ib > 0 {
                assert(listed_before(o1[0], o1[ib]));
            }
            lemma_listed_before_strict(a, b, a);
            assert(false);
        }
        let d1 = o1.drop_first();
        let d2 = o2.drop_first();
        assert forall|i: int, j: int| 0 <= i < j < d1.len() implies listed_before(#[trigger] d1[i], #[trigger] d1[j]) by {
            assert(d1[i] == o1[i + 1] && d1[j] == o1[j + 1]);
        }
        assert forall|i: int, j: int| 0 <= i < j < d2.len() implies listed_before(#[trigger] d2[i], #[trigger] d2[j]) by {
            assert(d2[i] == o2[i + 1] && d2[j] == o2[j + 1]);
        }
        assert forall|i: int| 0 <= i < d1.len() implies d2.contains(#[trigger] d1[i]) by {
            let y = d1[i];
            assert(y == o1[i + 1]);
            assert(listed_before(o1[0], o1[i + 1]));
            assert(o2.contains(y));
            let j = choose|j: int| 0 <= j < o2.len() && o2[j] == y;
            if j == 0 {
                lemma_listed_before_strict(y, y, y);
            }
            assert(d2[j - 1] == y);
        }
        assert forall|i: int| 0 <= i < d2.len() implies d1.contains(#[trigger] d2[i]) by {
            let y = d2[i];
            assert(y == o2[i + 1]);
            assert(listed_before(o2[0], o2[i + 1]));
            assert(o1.contains(y));
            let j = choose|j: int| 0 <= j < o1.len() && o1[j] == y;
            if j == 0 {
                lemma_listed_before_strict(y, y, y);
            }
            assert(d1[j - 1] == y);
        }
        lemma_sorted_equal(d1, d2);
        assert(o1 =~= o2) by {
            assert forall|i: int| 0 <= i < o1.len() implies o1[i] == o2[i] by {
                if i > 0 {
                    assert(o1[i] == d1[i - 1] && o2[i] == d2[i - 1]);
                }
            }
        }
    }
}

/// Grouping by source type does not depend on the order of the sources:
/// two lists with the same contributions (as multisets) group alike, when
/// no type's sum can leave the range of `i64`.
pub proof fn law_grouping_ignores_source_order(
    s1: Seq<SourceContribution>,
    s2: Seq<SourceContribution>,
    out1: Seq<StatTypeSubtotal>,
    out2: Seq<StatTypeSubtotal>,
)
    requires
        s1.to_multiset() == s2.to_multiset(),
        sums_fit(s1),
        is_grouping(s1, out1),
        is_grouping(s2, out2),
    ensures
        out1 == out2,
{
    assert forall|t: SourceType| type_count(s1, t) == type_count(s2, t) && type_sum(s1, t) == type_sum(s2, t) by {
        lemma_permutation_totals(s1, s2, t);
        assert(fits_i64(type_abs(s1, t)));
        lemma_type_sum_exact(s1, t);
        lemma_type_sum_exact(s2, t);
    }
    assert forall|i: int| 0 <= i < out1.len() implies out2.contains(#[trigger] out1[i]) by {
        let x = out1[i];
        assert(is_subtotal_of(s1, x));
        let t = x.source_type;
        assert(type_count(s2, t) > 0);
        let j = choose|j: int| 0 <= j < out2.len() && #[trigger] out2[j].source_type == t;
        assert(is_subtotal_of(s2, out2[j]));
        assert(out2[j] == x);
    }
    assert forall|i: int| 0 <= i < out2.len() implies out1.contains(#[trigger] out2[i]) by {
        let x = out2[i];
        assert(is_subtotal_of(s2, x));
        let t = x.source_type;
        assert(type_count(s1, t) > 0);
        let j = choose|j: int| 0 <= j < out1.len() && #[trigger] out1[j].source_type == t;
        assert(is_subtotal_of(s1, out1[j]));
        assert(out1[j] == x);
    }
    lemma_sorted_equal(out1, out2);
}

/// The optimizer's final state is the same with the jewelry sockets
/// removed from the allocated nodes: attributes, stats and unsupported
/// lines alike.
pub proof fn law_final_state_ignores_jewelry(
    attr_contributions: Map<Seq<char>, Vec<Ranged>>,
    stat_contributions: Map<Seq<char>, Vec<Ranged>>,
    nodes: Seq<u32>,
    info: Map<u32, TreeNodeInfo>,
    conds: Map<Seq<char>, bool>,
    jewelry: Set<u32>,
    configured_keys: Seq<Seq<char>>,
    per_attribute: Seq<(String, KeyMap<i64>)>,
    divided: Seq<(String, KeyMap<i64>)>,
)
    ensures
        final_state_spec(
            attr_contributions,
            stat_contributions,
            nodes,
            info,
            conds,
            jewelry,
            configured_keys,
            per_attribute,
            divided,
        ) == final_state_spec(
            attr_contributions,
            stat_contributions,
            nodes.filter(not_jewelry(jewelry)),
            info,
            conds,
            jewelry,
            configured_keys,
            per_attribute,
            divided,
        ),
{
    law_jewelry_nodes_add_nothing(nodes, info, conds, jewelry);
}


/// Routing two runs of contributions one after the other is routing them
/// as one run.
pub proof fn law_routing_composes(
    st: (Lists, Lists),
    defs: Map<Seq<char>, StatDef>,
    first: Seq<Pending>,
    second: Seq<Pending>,
)
    ensures
        contribute_all_spec(st, defs, first + second) == contribute_all_spec(
            contribute_all_spec(st, defs, first),
            defs,
            second,
        ),
    decreases second.len(),
{
    if second.len() == 0 {
        assert(first + second =~= first);
    } else {
        assert((first + second).drop_last() =~= first + second.drop_last());
        assert((first + second).last() == second.last());
        law_routing_composes(st, defs, first, second.drop_last());
    }
}

/// An augment level past the augment's last level gives what its last
/// level gives: two items with the same augment at levels both at or past
/// the last one get the same augment contributions.
pub proof fn law_augment_level_is_held(
    a: EquippedItem,
    b: EquippedItem,
    augments: Map<Seq<char>, Augment>,
    name: Seq<char>,
)
    requires
        a.augment is Some,
        b.augment is Some,
        a.augment.unwrap().id@ == b.augment.unwrap().id@,
        augments.contains_key(a.augment.unwrap().id@),
        a.augment.unwrap().level >= augments[a.augment.unwrap().id@].levels@.len(),
        b.augment.unwrap().level >= augments[a.augment.unwrap().id@].levels@.len(),
    ensures
        augment_pendings(a, augments, name) == augment_pendings(b, augments, name),
        augments[a.augment.unwrap().id@].levels@.len() > 0 ==> augment_level(
            a.augment.unwrap().level,
            augments[a.augment.unwrap().id@].levels@.len(),
        ) == augments[a.augment.unwrap().id@].levels@.len(),
{
}

proof fn lemma_implicit_pendings_same_implicits(
    entries: Seq<(String, Ranged)>,
    slot: Seq<char>,
    a: EquippedItem,
    b: EquippedItem,
    name: Seq<char>,
    scale: bool,
)
    requires
        a.implicit_overrides == b.implicit_overrides,
        a.star_scaled_implicit == b.star_scaled_implicit,
    ensures
        implicit_pendings(entries, slot, a, name, scale) == implicit_pendings(entries, slot, b, name, scale),
    decreases entries.len(),
{
    if entries.len() > 0 {
        lemma_implicit_pendings_same_implicits(entries.drop_last(), slot, a, b, name, scale);
    }
}

/// An augment adds exactly the stats of its level on top of what the item
/// gives without it: equipping an item with an augment routes the same
/// contributions as the item without one, then the augment's.
pub proof fn law_augment_adds_its_level_stats(
    st: InventoryState,
    slot: Seq<char>,
    with: EquippedItem,
    without: EquippedItem,
    data: ItemData,
    defs: Map<Seq<char>, StatDef>,
)
    requires
        without == (EquippedItem { augment: None, ..with }),
    ensures
        !data.items@.contains_key(with.base_id@) ==> item_step(st, slot, with, data, defs) == st,
        data.items@.contains_key(with.base_id@) ==> item_step(st, slot, with, data, defs) == ({
            let plain = item_step(st, slot, without, data, defs);
            let routed = contribute_all_spec(
                (plain.0, plain.1),
                defs,
                augment_pendings(with, data.augments@, data.items@[with.base_id@].name@),
            );
            (routed.0, routed.1, plain.2)
        }),
{
    if data.items@.contains_key(with.base_id@) {
        let base = data.items@[with.base_id@];
        let name = base.name@;
        let aug = augment_pendings(with, data.augments@, name);
        let scale = implicits_scale(with, slot, data);
        let can_sf = data.star_forge_slots@.contains_key(slot);
        let aps_in = base_implicit(base).contains_key("attacks_per_second"@);
        let implicit = implicit_pendings(base_implicit_entries(base), slot, with, name, scale);
        let overrides = override_pendings(with.implicit_overrides.entries@, slot, base_implicit(base), name);
        let rate = if slot == "weapon"@ && !aps_in && base.attack_speed is Some {
            seq![("attacks_per_second"@, crate::inventory::plain_cv(name, SourceType::Item, base.attack_speed.unwrap()))]
        } else {
            Seq::empty()
        };
        let affixes = crate::inventory::affix_pendings(with.affixes@, data.affixes@, name, can_sf);
        let forged = if can_sf && base.forge_kind is Some {
            crate::inventory::forged_pendings(with.forged_mods@, data.crystal_mods@, name, base.forge_kind.unwrap()@)
        } else {
            Seq::empty()
        };
        let sockets = match with.runeword {
            Some(rw) => crate::inventory::fixed_pendings(
                rw.stats.entries@,
                rw.name@ + " ("@ + name + ")"@,
                SourceType::Item,
                false,
            ),
            None => crate::inventory::socket_pendings(with.socketed@, with.socket_types@, base, data.socketables@, name),
        };
        let rest = implicit + overrides + rate + affixes + forged + sockets;
        assert(implicits_scale(without, slot, data) == scale);
        assert(implicit_pendings(base_implicit_entries(base), slot, without, name, scale) == implicit) by {
            lemma_implicit_pendings_same_implicits(base_implicit_entries(base), slot, with, without, name, scale);
        }
        assert(augment_pendings(without, data.augments@, name) =~= Seq::<Pending>::empty());
        assert(item_pendings(slot, without, base, data) =~= rest);
        assert(item_pendings(slot, with, base, data) =~= rest + aug);
        let stats1 = match crate::inventory::defense_spec(with, base, scale) {
            Some(eff) => if eff == zero() {
                st.1
            } else {
                crate::finalize::push_view(st.1, "defense"@, (name, SourceType::Item, eff, None))
            },
            None => st.1,
        };
        law_routing_composes((st.0, stats1), defs, rest, aug);
    }
}

} // verus!
