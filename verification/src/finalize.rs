//! Finalization of the build stats: totals from sources, the multiplier
//! pass over multiplied-flat stats, its rebuild after conversions, and
//! disables.
use vstd::prelude::*;
use vstd::string::*;
use crate::aggregate::{apply_multiplier, multiplier_spec, pct_of};
use crate::keymap::KeyMap;
use crate::ranged::{combine, combine_additive_and_more, pct_of_end, pct_of_endpoint, rank_pct_end, rank_pct_endpoint, ranged_is_zero, zero, Ranged};
use crate::sources::{Forge, push_source, source_sum, sum_contributions, SourceContribution, SourceMap, SourceType};
use crate::stat_defs::{stat_name, stat_name_spec, StatDefs};
use crate::stat_map::{conversion_read, conversion_read_of, key, key_views, more_key, more_key_of, value_of, value_or_zero, AttrMap, KeySet, StatMap};
use crate::text::{fixed_text, fixed_text_of};
use crate::types::{ConvertKind, DisableTarget, ParsedConversion};

verus! {

/// One multiplied-flat stat: `flat x (1 + pct%) x (1 + more%)`, rounded down
/// to whole points when `floor` is set.
pub struct MultiplierSpec {
    pub flat: String,
    pub pct: Option<String>,
    pub more: Option<String>,
    pub floor: bool,
}

/// A multiplier spec as plain key views.
pub type SpecView = (Seq<char>, Option<Seq<char>>, Option<Seq<char>>, bool);

pub open spec fn opt_string_view(o: Option<String>) -> Option<Seq<char>> {
    match o {
        Some(s) => Some(s@),
        None => None,
    }
}

pub open spec fn spec_view(s: MultiplierSpec) -> SpecView {
    (s.flat@, opt_string_view(s.pct), opt_string_view(s.more), s.floor)
}

pub open spec fn spec_views(v: Seq<MultiplierSpec>) -> Seq<SpecView> {
    v.map_values(|s: MultiplierSpec| spec_view(s))
}

/// The ailments with a modeled base duration.
pub open spec fn ailment_prefixes() -> Seq<Seq<char>> {
    seq!["bleed"@, "burning"@, "frostbite"@, "permafrost"@, "poisoned"@, "rabies"@, "shadowburn"@, "stasis"@]
}

/// An ailment duration: `(base + flat seconds) x (1 + <a>_duration_pct%)`,
/// not rounded.
pub open spec fn ailment_spec(a: Seq<char>) -> SpecView {
    (a + "_duration"@, Some(a + "_duration_pct"@), None, false)
}

/// Life and mana (increased and more, rounded down), the replenishes (more
/// only, not rounded), then the ailment durations.
pub open spec fn multiplier_table() -> Seq<SpecView> {
    seq![
        ("life"@, Some("increased_life"@), Some("increased_life_more"@), true),
        ("mana"@, Some("increased_mana"@), Some("increased_mana_more"@), true),
        ("mana_replenish"@, None, Some("mana_replenish_more"@), false),
        ("life_replenish"@, None, Some("life_replenish_more"@), false),
    ] + ailment_prefixes().map_values(|a: Seq<char>| ailment_spec(a))
}

fn spec_entry(flat: &str, pct: Option<&str>, more: Option<&str>, floor: bool) -> (s: MultiplierSpec)
    ensures
        spec_view(s) == (
            flat@,
            match pct {
                Some(p) => Some(p@),
                None => None::<Seq<char>>,
            },
            match more {
                Some(q) => Some(q@),
                None => None::<Seq<char>>,
            },
            floor,
        ),
{
    MultiplierSpec {
        flat: key(flat),
        pct: match pct {
            Some(p) => Some(key(p)),
            None => None,
        },
        more: match more {
            Some(q) => Some(key(q)),
            None => None,
        },
        floor,
    }
}

fn ailment_entry(a: &str) -> (s: MultiplierSpec)
    ensures
        spec_view(s) == ailment_spec(a@),
{
    let name = key(a);
    let mut flat = name.clone();
    flat.append("_duration");
    let mut pct = name.clone();
    pct.append("_duration_pct");
    MultiplierSpec { flat, pct: Some(pct), more: None, floor: false }
}

/// The multiplied-flat stats, in the order the pass applies them.
pub fn multiplier_specs() -> (v: Vec<MultiplierSpec>)
    ensures
        spec_views(v@) == multiplier_table(),
{
    let mut v: Vec<MultiplierSpec> = Vec::new();
    v.push(spec_entry("life", Some("increased_life"), Some("increased_life_more"), true));
    v.push(spec_entry("mana", Some("increased_mana"), Some("increased_mana_more"), true));
    v.push(spec_entry("mana_replenish", None, Some("mana_replenish_more"), false));
    v.push(spec_entry("life_replenish", None, Some("life_replenish_more"), false));
    v.push(ailment_entry("bleed"));
    v.push(ailment_entry("burning"));
    v.push(ailment_entry("frostbite"));
    v.push(ailment_entry("permafrost"));
    v.push(ailment_entry("poisoned"));
    v.push(ailment_entry("rabies"));
    v.push(ailment_entry("shadowburn"));
    v.push(ailment_entry("stasis"));
    assert(spec_views(v@) =~= multiplier_table());
    v
}

fn opt_str(o: &Option<String>) -> (r: Option<&str>)
    ensures
        crate::aggregate::opt_view(r) == opt_string_view(*o),
{
    match o {
        Some(s) => Some(s.as_str()),
        None => None,
    }
}

/// The multiplier pass: each table entry applied in order.
pub open spec fn multipliers_pass_spec(m: Map<Seq<char>, Ranged>, table: Seq<SpecView>) -> Map<Seq<char>, Ranged>
    decreases table.len(),
{
    if table.len() == 0 {
        m
    } else {
        let e = table.last();
        multiplier_spec(multipliers_pass_spec(m, table.drop_last()), e.0, e.1, e.2, e.3)
    }
}

/// Applies every multiplied-flat stat of the table in order: life and mana
/// by their increased and more percents (rounded down), the replenishes by
/// their more percent, the ailment durations by their duration percent.
/// A stat whose flat value is zero or absent is left alone.
pub fn apply_multipliers_pass(stats: &mut StatMap)
    requires
        old(stats).wf(),
    ensures
        final(stats).wf(),
        final(stats)@ == multipliers_pass_spec(old(stats)@, multiplier_table()),
{
    let specs = multiplier_specs();
    let n = specs.len();
    let mut i: usize = 0;
    while i < n
        invariant
            n == specs@.len(),
            i <= n,
            stats.wf(),
            spec_views(specs@) == multiplier_table(),
            stats@ == multipliers_pass_spec(old(stats)@, spec_views(specs@).take(i as int)),
        decreases n - i,
    {
        proof {
            assert(spec_views(specs@).take(i + 1).drop_last() =~= spec_views(specs@).take(i as int));
            assert(spec_views(specs@)[i as int] == spec_view(specs@[i as int]));
        }
        let spec = &specs[i];
        apply_multiplier(stats, spec.flat.as_str(), opt_str(&spec.pct), opt_str(&spec.more), spec.floor);
        i = i + 1;
    }
    proof {
        assert(spec_views(specs@).take(n as int) =~= spec_views(specs@));
    }
}

/// A table entry whose flat, percent or more key was touched is rebuilt:
/// its flat value re-summed from its sources, then multiplied again.  An
/// entry without sources is left alone.
pub open spec fn reapply_entry_spec(
    m: Map<Seq<char>, Ranged>,
    sources: Map<Seq<char>, Vec<SourceContribution>>,
    touched: Set<Seq<char>>,
    e: SpecView,
) -> Map<Seq<char>, Ranged> {
    let feeds = touched.contains(e.0) || (e.1 matches Some(p) && touched.contains(p)) || (
    e.2 matches Some(q) && touched.contains(q));
    if feeds && sources.contains_key(e.0) {
        multiplier_spec(m.insert(e.0, source_sum(sources[e.0]@)), e.0, e.1, e.2, e.3)
    } else {
        m
    }
}

pub open spec fn reapply_spec(
    m: Map<Seq<char>, Ranged>,
    sources: Map<Seq<char>, Vec<SourceContribution>>,
    touched: Set<Seq<char>>,
    table: Seq<SpecView>,
) -> Map<Seq<char>, Ranged>
    decreases table.len(),
{
    if table.len() == 0 {
        m
    } else {
        reapply_entry_spec(reapply_spec(m, sources, touched, table.drop_last()), sources, touched, table.last())
    }
}

fn touches(touched: &KeySet, k: &Option<String>) -> (b: bool)
    requires
        touched.wf(),
    ensures
        b == (opt_string_view(*k) matches Some(p) && touched@.dom().contains(p)),
{
    match k {
        Some(s) => touched.contains_key(s),
        None => false,
    }
}

/// Rebuilds every multiplied-flat stat whose flat, percent or more key is in
/// `touched`: the flat value is re-summed from `stat_sources` and multiplied
/// again by the percents in `stats`.  Untouched stats keep their value.
pub fn reapply_multipliers_for_touched(stats: &mut StatMap, stat_sources: &SourceMap, touched: &KeySet)
    requires
        old(stats).wf(),
        stat_sources.wf(),
        touched.wf(),
    ensures
        final(stats).wf(),
        final(stats)@ == reapply_spec(old(stats)@, stat_sources@, touched@.dom(), multiplier_table()),
{
    let specs = multiplier_specs();
    let n = specs.len();
    let mut i: usize = 0;
    while i < n
        invariant
            n == specs@.len(),
            i <= n,
            stats.wf(),
            stat_sources.wf(),
            touched.wf(),
            spec_views(specs@) == multiplier_table(),
            stats@ == reapply_spec(old(stats)@, stat_sources@, touched@.dom(), spec_views(specs@).take(i as int)),
        decreases n - i,
    {
        proof {
            assert(spec_views(specs@).take(i + 1).drop_last() =~= spec_views(specs@).take(i as int));
            assert(spec_views(specs@)[i as int] == spec_view(specs@[i as int]));
        }
        let spec = &specs[i];
        let feeds = touched.contains_key(&spec.flat) || touches(touched, &spec.pct) || touches(
            touched,
            &spec.more,
        );
        if feeds {
            if let Some(list) = stat_sources.get(&spec.flat) {
                stats.insert(spec.flat.clone(), sum_contributions(list.as_slice()));
                apply_multiplier(stats, spec.flat.as_str(), opt_str(&spec.pct), opt_str(&spec.more), spec.floor);
            }
        }
        i = i + 1;
    }
    proof {
        assert(spec_views(specs@).take(n as int) =~= spec_views(specs@));
    }
}

/// The stat map after the disables: disabling life replenish zeroes
/// `life_replenish` and `life_replenish_pct`.
pub open spec fn tree_disables_spec(m: Map<Seq<char>, Ranged>, disables: Seq<DisableTarget>) -> Map<Seq<char>, Ranged> {
    if disables.contains(DisableTarget::LifeReplenish) {
        m.insert("life_replenish"@, zero()).insert("life_replenish_pct"@, zero())
    } else {
        m
    }
}

/// Applies the disable flags: life replenish disabled zeroes
/// `life_replenish` and `life_replenish_pct`.
pub fn apply_tree_disables(disables: &[DisableTarget], stats: &mut StatMap)
    requires
        old(stats).wf(),
    ensures
        final(stats).wf(),
        final(stats)@ == tree_disables_spec(old(stats)@, disables@),
{
    let mut found = false;
    let n = disables.len();
    let mut i: usize = 0;
    while i < n
        invariant
            n == disables@.len(),
            i <= n,
            found == disables@.take(i as int).contains(DisableTarget::LifeReplenish),
        decreases n - i,
    {
        proof {
            assert(disables@.take(i + 1) =~= disables@.take(i as int).push(disables@[i as int]));
        }
        match disables[i] {
            DisableTarget::LifeReplenish => {
                found = true;
                proof {
                    assert(disables@.take(i + 1)[i as int] == DisableTarget::LifeReplenish);
                }
            },
        }
        i = i + 1;
    }
    proof {
        assert(disables@.take(n as int) =~= disables@);
    }
    if found {
        stats.insert(key("life_replenish"), (0, 0));
        stats.insert(key("life_replenish_pct"), (0, 0));
    }
}

/// Each key's sources summed.
pub open spec fn final_stats_spec(sources: Map<Seq<char>, Vec<SourceContribution>>) -> Map<Seq<char>, Ranged> {
    Map::new(|k: Seq<char>| sources.contains_key(k), |k: Seq<char>| source_sum(sources[k]@))
}

/// The stat totals: every key's sources summed endpoint by endpoint.
pub fn compute_final_stats(stat_sources: &SourceMap) -> (stats: StatMap)
    requires
        stat_sources.wf(),
    ensures
        stats.wf(),
        stats@ == final_stats_spec(stat_sources@),
{
    let mut out: StatMap = KeyMap::new();
    let n = stat_sources.entries.len();
    let mut i: usize = 0;
    while i < n
        invariant
            n == stat_sources.entries@.len(),
            i <= n,
            stat_sources.wf(),
            out.wf(),
            out@ == Map::new(
                |k: Seq<char>| stat_sources.keys().take(i as int).contains(k),
                |k: Seq<char>| source_sum(stat_sources@[k]@),
            ),
        decreases n - i,
    {
        let ghost ki = stat_sources.keys()[i as int];
        proof {
            stat_sources.lemma_entry(i as int);
            assert forall|k: Seq<char>| stat_sources.keys().take(i + 1).contains(k) <==> (
                stat_sources.keys().take(i as int).contains(k) || k == ki) by {
                if stat_sources.keys().take(i + 1).contains(k) {
                    let j = choose|j: int| 0 <= j < i + 1 && #[trigger] stat_sources.keys().take(i + 1)[j] == k;
                    if j < i {
                        assert(stat_sources.keys().take(i as int)[j] == k);
                    }
                }
                if stat_sources.keys().take(i as int).contains(k) {
                    let j = choose|j: int| 0 <= j < i && #[trigger] stat_sources.keys().take(i as int)[j] == k;
                    assert(stat_sources.keys().take(i + 1)[j] == k);
                }
                if k == ki {
                    assert(stat_sources.keys().take(i + 1)[i as int] == k);
                }
            }
        }
        let s = sum_contributions(stat_sources.entries[i].1.as_slice());
        out.insert(stat_sources.entries[i].0.clone(), s);
        proof {
            assert(out@ =~= Map::new(
                |k: Seq<char>| stat_sources.keys().take(i + 1).contains(k),
                |k: Seq<char>| source_sum(stat_sources@[k]@),
            ));
        }
        i = i + 1;
    }
    proof {
        assert(stat_sources.keys().take(n as int) =~= stat_sources.keys());
        assert(out@ =~= final_stats_spec(stat_sources@));
    }
    out
}

/// The attribute totals: each listed attribute's sources summed, zero when
/// it has none.
pub open spec fn final_attributes_spec(
    sources: Map<Seq<char>, Vec<SourceContribution>>,
    attribute_keys: Seq<Seq<char>>,
) -> Map<Seq<char>, Ranged> {
    Map::new(
        |k: Seq<char>| attribute_keys.contains(k),
        |k: Seq<char>|
            if sources.contains_key(k) {
                source_sum(sources[k]@)
            } else {
                zero()
            },
    )
}

/// The attribute totals: every attribute of the game config (its keys in
/// `attribute_keys`) gets the sum of its sources, zero when it has none.
pub fn compute_final_attributes(attr_sources: &SourceMap, attribute_keys: &Vec<String>) -> (attributes: AttrMap)
    requires
        attr_sources.wf(),
    ensures
        attributes.wf(),
        attributes@ == final_attributes_spec(attr_sources@, key_views(attribute_keys@)),
{
    let ghost keys = key_views(attribute_keys@);
    let mut out: AttrMap = KeyMap::new();
    let n = attribute_keys.len();
    let mut i: usize = 0;
    while i < n
        invariant
            n == attribute_keys@.len(),
            keys == key_views(attribute_keys@),
            i <= n,
            attr_sources.wf(),
            out.wf(),
            out@ == final_attributes_spec(attr_sources@, keys.take(i as int)),
        decreases n - i,
    {
        let ghost ki = keys[i as int];
        proof {
            assert forall|k: Seq<char>| keys.take(i + 1).contains(k) <==> (keys.take(i as int).contains(k) || k == ki) by {
                if keys.take(i + 1).contains(k) {
                    let j = choose|j: int| 0 <= j < i + 1 && #[trigger] keys.take(i + 1)[j] == k;
                    if j < i {
                        assert(keys.take(i as int)[j] == k);
                    }
                }
                if keys.take(i as int).contains(k) {
                    let j = choose|j: int| 0 <= j < i && #[trigger] keys.take(i as int)[j] == k;
                    assert(keys.take(i + 1)[j] == k);
                }
                if k == ki {
                    assert(keys.take(i + 1)[i as int] == k);
                }
            }
        }
        let sum: Ranged = match attr_sources.get(&attribute_keys[i]) {
            Some(list) => sum_contributions(list.as_slice()),
            None => (0, 0),
        };
        out.insert(attribute_keys[i].clone(), sum);
        proof {
            assert(out@ =~= final_attributes_spec(attr_sources@, keys.take(i + 1)));
        }
        i = i + 1;
    }
    proof {
        assert(keys.take(n as int) =~= keys);
    }
    out
}

/// The percent and more keys that multiply `stat_key`, from the first table
/// entry whose flat key it is.
pub open spec fn keys_for_spec(table: Seq<SpecView>, k: Seq<char>) -> (Option<Seq<char>>, Option<Seq<char>>)
    decreases table.len(),
{
    if table.len() == 0 {
        (None, None)
    } else if table[0].0 == k {
        (table[0].1, table[0].2)
    } else {
        keys_for_spec(table.drop_first(), k)
    }
}

/// The percent and more keys the multiplier pass applies to `stat_key`, or
/// `(None, None)` when it is not a multiplied-flat stat.
pub fn multiplier_keys_for(stat_key: &str) -> (r: (Option<String>, Option<String>))
    ensures
        (opt_string_view(r.0), opt_string_view(r.1)) == keys_for_spec(multiplier_table(), stat_key@),
{
    let specs = multiplier_specs();
    let k = key(stat_key);
    let n = specs.len();
    let mut i: usize = 0;
    assert(spec_views(specs@).skip(0) =~= spec_views(specs@));
    while i < n
        invariant
            n == specs@.len(),
            i <= n,
            spec_views(specs@) == multiplier_table(),
            k@ == stat_key@,
            keys_for_spec(multiplier_table(), k@) == keys_for_spec(spec_views(specs@).skip(i as int), k@),
        decreases n - i,
    {
        proof {
            assert(spec_views(specs@).skip(i as int)[0] == spec_view(specs@[i as int]));
            assert(spec_views(specs@).skip(i as int).drop_first() =~= spec_views(specs@).skip(i + 1));
        }
        if specs[i].flat == k {
            return (specs[i].pct.clone(), specs[i].more.clone());
        }
        i = i + 1;
    }
    proof {
        assert(spec_views(specs@).skip(n as int) =~= Seq::<SpecView>::empty());
    }
    (None, None)
}

// ---------- tree conversions with sources ----------

/// A contribution as plain values: label, source type, value.
pub type ContribView = (Seq<char>, SourceType, Ranged, Option<(Seq<char>, Seq<char>, Seq<char>)>);

/// A forge record as plain values.
pub open spec fn forge_view(f: Option<Forge>) -> Option<(Seq<char>, Seq<char>, Seq<char>)> {
    match f {
        Some(x) => Some((x.item_name@, x.mod_name@, x.kind@)),
        None => None,
    }
}

pub open spec fn contrib_view(c: SourceContribution) -> ContribView {
    (c.label@, c.source_type, c.value, forge_view(c.forge))
}

/// Each key's contributions as plain values.
pub open spec fn lists_view(m: &SourceMap) -> Map<Seq<char>, Seq<ContribView>> {
    m@.map_values(|v: Vec<SourceContribution>| v@.map_values(|c: SourceContribution| contrib_view(c)))
}

/// `c` appended to the list under `k` (a new list when `k` is absent).
pub open spec fn push_view(m: Map<Seq<char>, Seq<ContribView>>, k: Seq<char>, c: ContribView) -> Map<
    Seq<char>,
    Seq<ContribView>,
> {
    m.insert(
        k,
        (if m.contains_key(k) {
            m[k]
        } else {
            Seq::empty()
        }).push(c),
    )
}

/// The sum of the values of a list of contributions.
pub open spec fn view_sum(s: Seq<ContribView>) -> Ranged
    decreases s.len(),
{
    if s.len() == 0 {
        zero()
    } else {
        crate::ranged::range_add(view_sum(s.drop_last()), s.last().2)
    }
}

proof fn lemma_view_sum(s: Seq<SourceContribution>)
    ensures
        view_sum(s.map_values(|c: SourceContribution| contrib_view(c))) == source_sum(s),
    decreases s.len(),
{
    if s.len() > 0 {
        lemma_view_sum(s.drop_last());
        assert(s.map_values(|c: SourceContribution| contrib_view(c)).drop_last() =~= s.drop_last().map_values(
            |c: SourceContribution| contrib_view(c),
        ));
    }
}

/// `<source label>: <pct>% of <stat name>`.
pub open spec fn conversion_label(source_label: Seq<char>, pct: i64, name: Seq<char>) -> Seq<char> {
    source_label + ": "@ + fixed_text(pct as int) + "% of "@ + name
}

/// Attributes, attribute sources, stat sources and the touched stat keys.
pub type ConversionState = (
    Map<Seq<char>, Ranged>,
    Map<Seq<char>, Seq<ContribView>>,
    Map<Seq<char>, Seq<ContribView>>,
    Set<Seq<char>>,
);

/// One tree conversion: `pct%` of its source (an attribute as it stands, or
/// a stat read once by `conversion_read`) becomes a labelled tree source of
/// its target; an attribute target is re-summed in place, a stat target is
/// marked touched.  A zero amount adds nothing.
pub open spec fn tree_conversion_step(
    st: ConversionState,
    stats: Map<Seq<char>, Ranged>,
    defs: Map<Seq<char>, crate::stat_defs::StatDef>,
    conv: (ParsedConversion, String),
) -> ConversionState {
    let c = conv.0;
    let source = match c.from_kind {
        ConvertKind::Attribute => value_of(st.0, c.from_key@),
        ConvertKind::Stat => conversion_read(stats, c.from_key@),
    };
    let amount = pct_of(source, c.pct);
    if amount == zero() {
        st
    } else {
        let cv: ContribView = (
            conversion_label(conv.1@, c.pct, stat_name_spec(defs, c.from_key@)),
            SourceType::Tree,
            amount,
            None,
        );
        match c.to_kind {
            ConvertKind::Attribute => {
                let srcs = push_view(st.1, c.to_key@, cv);
                (st.0.insert(c.to_key@, view_sum(srcs[c.to_key@])), srcs, st.2, st.3)
            },
            ConvertKind::Stat => (st.0, st.1, push_view(st.2, c.to_key@, cv), st.3.insert(c.to_key@)),
        }
    }
}

pub open spec fn tree_conversions_spec(
    st: ConversionState,
    stats: Map<Seq<char>, Ranged>,
    defs: Map<Seq<char>, crate::stat_defs::StatDef>,
    convs: Seq<(ParsedConversion, String)>,
) -> ConversionState
    decreases convs.len(),
{
    if convs.len() == 0 {
        st
    } else {
        tree_conversion_step(tree_conversions_spec(st, stats, defs, convs.drop_last()), stats, defs, convs.last())
    }
}

/// Appends a non-zero contribution to the sources of `k`.
pub(crate) fn push_labelled(map: &mut SourceMap, k: &String, c: SourceContribution)
    requires
        old(map).wf(),
        c.value != zero(),
    ensures
        final(map).wf(),
        lists_view(final(map)) == push_view(lists_view(old(map)), k@, contrib_view(c)),
        final(map)@.contains_key(k@),
        final(map)@[k@]@.map_values(|x: SourceContribution| contrib_view(x)) == lists_view(final(map))[k@],
{
    let ghost cv = contrib_view(c);
    let ghost c_copy = c;
    push_source(map, k.as_str(), c);
    proof {
        let lv = lists_view(map);
        let target = push_view(lists_view(old(map)), k@, cv);
        assert(map@[k@]@.map_values(|x: SourceContribution| contrib_view(x)) =~= (if lists_view(old(map)).contains_key(
            k@,
        ) {
            lists_view(old(map))[k@]
        } else {
            Seq::empty()
        }).push(cv));
        assert(lv =~= target);
    }
}

fn conversion_label_of(source_label: &String, pct: i64, name: &String) -> (r: String)
    ensures
        r@ == conversion_label(source_label@, pct, name@),
{
    let mut s = source_label.clone();
    s.append(": ");
    s.append(fixed_text_of(pct).as_str());
    s.append("% of ");
    s.append(name.as_str());
    s
}

/// Applies the tree conversions in order.  Each reads its source (an
/// attribute from `attributes` as it stands, or a stat from the unchanged
/// `stats`, read once by `conversion_read`) and pushes `pct%` of it as a
/// tree source labelled `<source label>: <pct>% of <stat name>`: an attribute
/// target is re-summed into `attributes` at once, a stat target is returned
/// among the touched keys for the caller to re-sum.  Zero amounts are
/// skipped.
pub fn apply_tree_conversions(
    tree_conversions: &[(ParsedConversion, String)],
    attributes: &mut AttrMap,
    stats: &StatMap,
    attr_sources: &mut SourceMap,
    stat_sources: &mut SourceMap,
    defs: &StatDefs,
) -> (touched: KeySet)
    requires
        old(attributes).wf(),
        stats.wf(),
        old(attr_sources).wf(),
        old(stat_sources).wf(),
        defs.wf(),
    ensures
        final(attributes).wf(),
        final(attr_sources).wf(),
        final(stat_sources).wf(),
        touched.wf(),
        (final(attributes)@, lists_view(final(attr_sources)), lists_view(final(stat_sources)), touched@.dom())
            == tree_conversions_spec(
            (old(attributes)@, lists_view(old(attr_sources)), lists_view(old(stat_sources)), Set::empty()),
            stats@,
            defs@,
            tree_conversions@,
        ),
{
    let mut touched: KeySet = KeyMap::new();
    let ghost start: ConversionState = (
        attributes@,
        lists_view(attr_sources),
        lists_view(stat_sources),
        Set::empty(),
    );
    proof {
        assert(touched@.dom() =~= Set::<Seq<char>>::empty());
    }
    let n = tree_conversions.len();
    let mut i: usize = 0;
    while i < n
        invariant
            n == tree_conversions@.len(),
            i <= n,
            attributes.wf(),
            stats.wf(),
            attr_sources.wf(),
            stat_sources.wf(),
            defs.wf(),
            touched.wf(),
            (attributes@, lists_view(attr_sources), lists_view(stat_sources), touched@.dom())
                == tree_conversions_spec(start, stats@, defs@, tree_conversions@.take(i as int)),
        decreases n - i,
    {
        proof {
            assert(tree_conversions@.take(i + 1).drop_last() =~= tree_conversions@.take(i as int));
        }
        let conv = &tree_conversions[i].0;
        let source_label = &tree_conversions[i].1;
        let source_value: Ranged = match conv.from_kind {
            ConvertKind::Attribute => value_or_zero(attributes, &conv.from_key),
            ConvertKind::Stat => conversion_read_of(stats, &conv.from_key),
        };
        let add: Ranged = (pct_of_endpoint(source_value.0, conv.pct), pct_of_endpoint(source_value.1, conv.pct));
        if !ranged_is_zero(add) {
            let name = stat_name(defs, conv.from_key.as_str());
            let label = conversion_label_of(source_label, conv.pct, &name);
            let entry = SourceContribution { label, source_type: SourceType::Tree, value: add, forge: None };
            match conv.to_kind {
                ConvertKind::Attribute => {
                    push_labelled(attr_sources, &conv.to_key, entry);
                    if let Some(list) = attr_sources.get(&conv.to_key) {
                        let total = sum_contributions(list.as_slice());
                        proof {
                            lemma_view_sum(list@);
                        }
                        attributes.insert(conv.to_key.clone(), total);
                    }
                },
                ConvertKind::Stat => {
                    push_labelled(stat_sources, &conv.to_key, entry);
                    let ghost before = touched@.dom();
                    touched.insert(conv.to_key.clone(), ());
                    proof {
                        assert(touched@.dom() =~= before.insert(conv.to_key@));
                    }
                },
            }
        }
        i = i + 1;
    }
    proof {
        assert(tree_conversions@.take(n as int) =~= tree_conversions@);
    }
    touched
}

// ---------- item-granted skill conversions ----------

/// One per-rank conversion of an item-granted skill: `base_pct + pct x rank`
/// percent of the `from` stat, with its `_more` twin folded in, goes to `to`.
/// Both percents are in millionths of a percentage point.
pub struct RankConversion {
    pub from: String,
    pub to: String,
    pub base_pct: i64,
    pub pct: i64,
}

/// A skill granted by an item, as the game data describes it.
pub struct ItemGrantedSkill {
    pub name: String,
    /// The skill's normalized name, under which its granted ranks are kept.
    pub key: String,
    /// The player condition that must be on for it to convert, if any.
    pub condition: Option<String>,
    /// Its passive per-rank conversions, if it has any.
    pub passive_converts: Option<Vec<RankConversion>>,
}

/// A granted rank range as text: `3` for a single rank, `2-3` for a range.
pub open spec fn rank_label(rank: Ranged) -> Seq<char> {
    if rank.0 == rank.1 {
        fixed_text(rank.0 as int)
    } else {
        fixed_text(rank.0 as int) + "-"@ + fixed_text(rank.1 as int)
    }
}

/// `Converted from <stat name> (<skill>, rank <rank>)`.
pub open spec fn granted_label(from_name: Seq<char>, skill: Seq<char>, rank: Ranged) -> Seq<char> {
    "Converted from "@ + from_name + " ("@ + skill + ", rank "@ + rank_label(rank) + ")"@
}

/// What one per-rank conversion adds at `rank`: each endpoint of the
/// source, with its `_more` twin folded in, times the percent at the same
/// rank endpoint.
pub open spec fn rank_conversion_amount(stats: Map<Seq<char>, Ranged>, conv: RankConversion, rank: Ranged) -> Ranged {
    let eff = combine(value_of(stats, conv.from@), value_of(stats, more_key(conv.from@)));
    (
        pct_of_end(eff.0 as int, rank_pct_end(conv.base_pct as int, conv.pct as int, rank.0 as int)) as i64,
        pct_of_end(eff.1 as int, rank_pct_end(conv.base_pct as int, conv.pct as int, rank.1 as int)) as i64,
    )
}

/// Stat sources and the touched stat keys.
pub type GrantedState = (Map<Seq<char>, Seq<ContribView>>, Set<Seq<char>>);

/// One per-rank conversion: a non-zero amount becomes a labelled item
/// source of its target, which is marked touched.
pub open spec fn rank_conversion_step(
    st: GrantedState,
    stats: Map<Seq<char>, Ranged>,
    defs: Map<Seq<char>, crate::stat_defs::StatDef>,
    skill: Seq<char>,
    rank: Ranged,
    conv: RankConversion,
) -> GrantedState {
    let amount = rank_conversion_amount(stats, conv, rank);
    if amount == zero() {
        st
    } else {
        let cv: ContribView = (
            granted_label(stat_name_spec(defs, conv.from@), skill, rank),
            SourceType::Item,
            amount,
            None,
        );
        (push_view(st.0, conv.to@, cv), st.1.insert(conv.to@))
    }
}

pub open spec fn rank_conversions_spec(
    st: GrantedState,
    stats: Map<Seq<char>, Ranged>,
    defs: Map<Seq<char>, crate::stat_defs::StatDef>,
    skill: Seq<char>,
    rank: Ranged,
    convs: Seq<RankConversion>,
) -> GrantedState
    decreases convs.len(),
{
    if convs.len() == 0 {
        st
    } else {
        rank_conversion_step(
            rank_conversions_spec(st, stats, defs, skill, rank, convs.drop_last()),
            stats,
            defs,
            skill,
            rank,
            convs.last(),
        )
    }
}

/// A skill's condition holds: it has none, or the player has it on.
pub open spec fn condition_on(conditions: Map<Seq<char>, bool>, c: Option<String>) -> bool {
    match c {
        None => true,
        Some(k) => conditions.contains_key(k@) && conditions[k@],
    }
}

/// One granted skill: it converts when it has passive conversions, its
/// condition holds and its granted maximum rank is above zero.
pub open spec fn granted_skill_step(
    st: GrantedState,
    stats: Map<Seq<char>, Ranged>,
    defs: Map<Seq<char>, crate::stat_defs::StatDef>,
    ranks: Map<Seq<char>, Ranged>,
    conditions: Map<Seq<char>, bool>,
    g: ItemGrantedSkill,
) -> GrantedState {
    match g.passive_converts {
        None => st,
        Some(convs) => {
            let rank = value_of(ranks, g.key@);
            if !condition_on(conditions, g.condition) || rank.1 <= 0 {
                st
            } else {
                rank_conversions_spec(st, stats, defs, g.name@, rank, convs@)
            }
        },
    }
}

pub open spec fn item_granted_spec(
    st: GrantedState,
    stats: Map<Seq<char>, Ranged>,
    defs: Map<Seq<char>, crate::stat_defs::StatDef>,
    ranks: Map<Seq<char>, Ranged>,
    conditions: Map<Seq<char>, bool>,
    skills: Seq<ItemGrantedSkill>,
) -> GrantedState
    decreases skills.len(),
{
    if skills.len() == 0 {
        st
    } else {
        granted_skill_step(
            item_granted_spec(st, stats, defs, ranks, conditions, skills.drop_last()),
            stats,
            defs,
            ranks,
            conditions,
            skills.last(),
        )
    }
}

fn rank_label_of(rank: Ranged) -> (r: String)
    ensures
        r@ == rank_label(rank),
{
    let mut s = fixed_text_of(rank.0);
    if rank.0 != rank.1 {
        s.append("-");
        s.append(fixed_text_of(rank.1).as_str());
    }
    s
}

fn granted_label_of(from_name: &String, skill: &String, rank: Ranged) -> (r: String)
    ensures
        r@ == granted_label(from_name@, skill@, rank),
{
    let mut s = key("Converted from ");
    s.append(from_name.as_str());
    s.append(" (");
    s.append(skill.as_str());
    s.append(", rank ");
    s.append(rank_label_of(rank).as_str());
    s.append(")");
    s
}

fn apply_rank_conversions(
    skill: &String,
    rank: Ranged,
    convs: &Vec<RankConversion>,
    stats: &StatMap,
    stat_sources: &mut SourceMap,
    touched: &mut KeySet,
    defs: &StatDefs,
)
    requires
        stats.wf(),
        old(stat_sources).wf(),
        old(touched).wf(),
        defs.wf(),
    ensures
        final(stat_sources).wf(),
        final(touched).wf(),
        (lists_view(final(stat_sources)), final(touched)@.dom()) == rank_conversions_spec(
            (lists_view(old(stat_sources)), old(touched)@.dom()),
            stats@,
            defs@,
            skill@,
            rank,
            convs@,
        ),
{
    let ghost start: GrantedState = (lists_view(stat_sources), touched@.dom());
    let n = convs.len();
    let mut i: usize = 0;
    while i < n
        invariant
            n == convs@.len(),
            i <= n,
            stats.wf(),
            stat_sources.wf(),
            touched.wf(),
            defs.wf(),
            (lists_view(stat_sources), touched@.dom()) == rank_conversions_spec(
                start,
                stats@,
                defs@,
                skill@,
                rank,
                convs@.take(i as int),
            ),
        decreases n - i,
    {
        proof {
            assert(convs@.take(i + 1).drop_last() =~= convs@.take(i as int));
        }
        let conv = &convs[i];
        let eff = combine_additive_and_more(
            value_or_zero(stats, &conv.from),
            value_or_zero(stats, &more_key_of(&conv.from)),
        );
        let add: Ranged = (
            pct_of_endpoint(eff.0, rank_pct_endpoint(conv.base_pct, conv.pct, rank.0)),
            pct_of_endpoint(eff.1, rank_pct_endpoint(conv.base_pct, conv.pct, rank.1)),
        );
        if !ranged_is_zero(add) {
            let name = stat_name(defs, conv.from.as_str());
            let label = granted_label_of(&name, skill, rank);
            let entry = SourceContribution { label, source_type: SourceType::Item, value: add, forge: None };
            push_labelled(stat_sources, &conv.to, entry);
            let ghost before = touched@.dom();
            touched.insert(conv.to.clone(), ());
            proof {
                assert(touched@.dom() =~= before.insert(conv.to@));
            }
        }
        i = i + 1;
    }
    proof {
        assert(convs@.take(n as int) =~= convs@);
    }
}

/// Applies the passive conversions of the item-granted skills in order.  A
/// skill converts only when it has such conversions, its condition (if any)
/// is on among `player_conditions`, and the maximum of its granted rank
/// range (zero when it has none) is above zero.  Each per-rank conversion
/// adds `base_pct + pct x rank` percent of its source stat combined with
/// the stat's `_more` twin, rank and source endpoint by endpoint, as an item
/// source of its target labelled `Converted from <stat name> (<skill>, rank
/// <rank>)`.  Zero amounts are skipped; the targets that received a source
/// are returned for the caller to re-sum.
pub fn apply_item_granted_conversions(
    granted_skills: &[ItemGrantedSkill],
    item_granted_ranks: &StatMap,
    stats: &StatMap,
    player_conditions: &KeyMap<bool>,
    stat_sources: &mut SourceMap,
    defs: &StatDefs,
) -> (touched: KeySet)
    requires
        item_granted_ranks.wf(),
        stats.wf(),
        player_conditions.wf(),
        old(stat_sources).wf(),
        defs.wf(),
    ensures
        final(stat_sources).wf(),
        touched.wf(),
        (lists_view(final(stat_sources)), touched@.dom()) == item_granted_spec(
            (lists_view(old(stat_sources)), Set::empty()),
            stats@,
            defs@,
            item_granted_ranks@,
            player_conditions@,
            granted_skills@,
        ),
{
    let mut touched: KeySet = KeyMap::new();
    let ghost start: GrantedState = (lists_view(stat_sources), Set::empty());
    proof {
        assert(touched@.dom() =~= Set::<Seq<char>>::empty());
    }
    let n = granted_skills.len();
    let mut i: usize = 0;
    while i < n
        invariant
            n == granted_skills@.len(),
            i <= n,
            item_granted_ranks.wf(),
            stats.wf(),
            player_conditions.wf(),
            stat_sources.wf(),
            defs.wf(),
            touched.wf(),
            (lists_view(stat_sources), touched@.dom()) == item_granted_spec(
                start,
                stats@,
                defs@,
                item_granted_ranks@,
                player_conditions@,
                granted_skills@.take(i as int),
            ),
        decreases n - i,
    {
        proof {
            assert(granted_skills@.take(i + 1).drop_last() =~= granted_skills@.take(i as int));
        }
        let g = &granted_skills[i];
        if let Some(convs) = &g.passive_converts {
            let on = match &g.condition {
                None => true,
                Some(c) => match player_conditions.get(c) {
                    Some(b) => *b,
                    None => false,
                },
            };
            let rank = value_or_zero(item_granted_ranks, &g.key);
            if on && rank.1 > 0 {
                apply_rank_conversions(&g.name, rank, convs, stats, stat_sources, &mut touched, defs);
            }
        }
        i = i + 1;
    }
    proof {
        assert(granted_skills@.take(n as int) =~= granted_skills@);
    }
    touched
}

} // verus!
