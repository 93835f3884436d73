//! The optimizer's stat steps: fan-outs of "all" stats, percent
//! multipliers, attribute scaling and the folding of skill-tree lines.
use vstd::prelude::*;
use std::collections::{HashMap, HashSet};
use vstd::string::*;
use crate::keymap::KeyMap;
use crate::text::{decimal, decimal_text};
use crate::types::{copy_conversion, ConvertKind, DisableTarget, ParsedConversion, ParsedMeta, ParsedMod, TreeLine, TreeLineClass, TreeNodeInfo};
use crate::ranged::{clamp, zero, Ranged, ranged_is_zero, product_end, product_endpoint, floor_quotient_end, exact_multiplied_end, exact_multiplied_endpoint, floor_quotient_endpoint, pct_of_end, pct_of_endpoint};
use crate::stat_map::{
    conversion_read, conversion_read_of,
    add_into, add_into_spec, add_to_each, add_to_each_key, key, key_views, more_key,
    more_key_list, more_keys, more_key_of, prefixed, value_of, value_of_opt, value_or_zero, value_or_zero_opt, AttrMap,
    KeySet, StatMap,
};

verus! {

// ---------- fan-outs ----------

/// The five resistances that "all resistances" stands for.
pub open spec fn resistance_keys() -> Seq<Seq<char>> {
    seq![
        "fire_resistance"@,
        "cold_resistance"@,
        "lightning_resistance"@,
        "poison_resistance"@,
        "arcane_resistance"@,
    ]
}

/// The six attribute stats that "all attributes" stands for.
pub open spec fn attribute_stat_keys() -> Seq<Seq<char>> {
    seq!["to_strength"@, "to_dexterity"@, "to_intelligence"@, "to_energy"@, "to_vitality"@, "to_armor"@]
}

/// `m` with the value under `src`, when present and non-zero, added under
/// every key of `targets`.
pub open spec fn fan_out_spec(m: Map<Seq<char>, Ranged>, src: Seq<char>, targets: Seq<Seq<char>>) -> Map<
    Seq<char>,
    Ranged,
> {
    if m.contains_key(src) && m[src] != zero() {
        add_to_each(m, targets, m[src])
    } else {
        m
    }
}

/// All fan-outs: all resistances, then its `_more` twin, then all
/// attributes, then its `_more` twin.
pub open spec fn fan_outs_spec(m: Map<Seq<char>, Ranged>) -> Map<Seq<char>, Ranged> {
    let m1 = fan_out_spec(m, "all_resistances"@, resistance_keys());
    let m2 = fan_out_spec(m1, more_key("all_resistances"@), more_keys(resistance_keys()));
    let m3 = fan_out_spec(m2, "all_attributes"@, attribute_stat_keys());
    fan_out_spec(m3, more_key("all_attributes"@), more_keys(attribute_stat_keys()))
}

fn resistance_key_list() -> (v: Vec<String>)
    ensures
        key_views(v@) == resistance_keys(),
{
    let mut v: Vec<String> = Vec::new();
    v.push(key("fire_resistance"));
    v.push(key("cold_resistance"));
    v.push(key("lightning_resistance"));
    v.push(key("poison_resistance"));
    v.push(key("arcane_resistance"));
    proof {
        assert(key_views(v@) =~= resistance_keys());
    }
    v
}

fn attribute_stat_key_list() -> (v: Vec<String>)
    ensures
        key_views(v@) == attribute_stat_keys(),
{
    let mut v: Vec<String> = Vec::new();
    v.push(key("to_strength"));
    v.push(key("to_dexterity"));
    v.push(key("to_intelligence"));
    v.push(key("to_energy"));
    v.push(key("to_vitality"));
    v.push(key("to_armor"));
    proof {
        assert(key_views(v@) =~= attribute_stat_keys());
    }
    v
}

fn fan_out(stats: &mut StatMap, src: &String, targets: &Vec<String>)
    requires
        old(stats).wf(),
    ensures
        final(stats).wf(),
        final(stats)@ == fan_out_spec(old(stats)@, src@, key_views(targets@)),
{
    if let Some(v) = stats.get(src) {
        let value = *v;
        if !ranged_is_zero(value) {
            add_to_each_key(stats, targets, value);
        }
    }
}

/// Spreads "all resistances" over the five resistances and "all attributes"
/// over the six attribute stats, for the plain and the `_more` key alike.
/// A source that is absent or zero adds nothing.
pub fn apply_fan_outs(stats: &mut StatMap)
    requires
        old(stats).wf(),
    ensures
        final(stats).wf(),
        final(stats)@ == fan_outs_spec(old(stats)@),
{
    let res = key("all_resistances");
    let res_targets = resistance_key_list();
    fan_out(stats, &res, &res_targets);
    fan_out(stats, &more_key_of(&res), &more_key_list(&res_targets));
    let attrs = key("all_attributes");
    let attr_targets = attribute_stat_key_list();
    fan_out(stats, &attrs, &attr_targets);
    fan_out(stats, &more_key_of(&attrs), &more_key_list(&attr_targets));
}

// ---------- multipliers ----------

/// `flat * (1 + pct%) * (1 + more%)` for one endpoint, taken exactly and
/// rounded once: down to a whole point when `floor` is set, to the nearest
/// millionth otherwise.
pub open spec fn multiplied_end(flat: int, pct: int, more: int, floor: bool) -> int {
    exact_multiplied_end(flat, pct, more, floor)
}

pub open spec fn multiplied(flat: Ranged, pct: Ranged, more: Ranged, floor: bool) -> Ranged {
    (
        multiplied_end(flat.0 as int, pct.0 as int, more.0 as int, floor) as i64,
        multiplied_end(flat.1 as int, pct.1 as int, more.1 as int, floor) as i64,
    )
}

pub open spec fn opt_view(k: Option<&str>) -> Option<Seq<char>> {
    match k {
        Some(s) => Some(s@),
        None => None,
    }
}

/// The stat map after multiplying the flat value under `flat_key` by the
/// percents under `pct_key` and `more_key`; unchanged when the flat value is
/// zero or absent.
pub open spec fn multiplier_spec(
    m: Map<Seq<char>, Ranged>,
    flat_key: Seq<char>,
    pct_key: Option<Seq<char>>,
    more_pct_key: Option<Seq<char>>,
    floor: bool,
) -> Map<Seq<char>, Ranged> {
    let flat = value_of(m, flat_key);
    if flat == zero() {
        m
    } else {
        m.insert(
            flat_key,
            multiplied(flat, value_of_opt(m, pct_key), value_of_opt(m, more_pct_key), floor),
        )
    }
}

pub(crate) fn multiplied_endpoint(flat: i64, pct: i64, more: i64, floor: bool) -> (r: i64)
    ensures
        r == multiplied_end(flat as int, pct as int, more as int, floor),
{
    exact_multiplied_endpoint(flat, pct, more, floor)
}

/// Multiplies the flat stat `flat_key` by `(1 + pct%) * (1 + more%)`, reading
/// the percents under `pct_key` and `more_pct_key` (absent counts as zero),
/// and rounds each endpoint down to a whole point when `floor` is set.  A
/// zero or absent flat value leaves the map as it was.
pub fn apply_multiplier(
    stats: &mut StatMap,
    flat_key: &str,
    pct_key: Option<&str>,
    more_pct_key: Option<&str>,
    floor: bool,
)
    requires
        old(stats).wf(),
    ensures
        final(stats).wf(),
        final(stats)@ == multiplier_spec(old(stats)@, flat_key@, opt_view(pct_key), opt_view(more_pct_key), floor),
{
    let fk = key(flat_key);
    let flat = value_or_zero(stats, &fk);
    if ranged_is_zero(flat) {
        return;
    }
    let pct = value_or_zero_opt(stats, pct_key);
    let more = value_or_zero_opt(stats, more_pct_key);
    let min_v = multiplied_endpoint(flat.0, pct.0, more.0, floor);
    let max_v = multiplied_endpoint(flat.1, pct.1, more.1, floor);
    stats.insert(fk, (min_v, max_v));
}

// ---------- attributes ----------

/// `flat + floor(flat * all%)`, then times `(1 + pct%) * (1 + more%)`
/// taken exactly, rounded down once to a whole point.
pub open spec fn increased_attribute_end(flat: int, all: int, pct: int, more: int) -> int {
    let after_all = clamp(flat + (flat * all / 100_000_000_000_000) * 1_000_000);
    exact_multiplied_end(after_all, pct, more, true)
}

pub open spec fn increased_attribute(flat: Ranged, all: Ranged, pct: Ranged, more: Ranged) -> Ranged {
    (
        increased_attribute_end(flat.0 as int, all.0 as int, pct.0 as int, more.0 as int) as i64,
        increased_attribute_end(flat.1 as int, all.1 as int, pct.1 as int, more.1 as int) as i64,
    )
}

/// One attribute scaled by "increased all attributes" and its own increased
/// and more percents; untouched when both it and the all-attributes percent
/// are zero.
pub open spec fn attribute_increased_step(
    attrs: Map<Seq<char>, Ranged>,
    stats: Map<Seq<char>, Ranged>,
    k: Seq<char>,
) -> Map<Seq<char>, Ranged> {
    let all = value_of(stats, "increased_all_attributes"@);
    let flat = value_of(attrs, k);
    if flat == zero() && all == zero() {
        attrs
    } else {
        let pct = value_of(stats, "increased_"@ + k);
        let more = value_of(stats, more_key("increased_"@ + k));
        attrs.insert(k, increased_attribute(flat, all, pct, more))
    }
}

pub open spec fn attribute_increased_spec(
    attrs: Map<Seq<char>, Ranged>,
    stats: Map<Seq<char>, Ranged>,
    keys: Seq<Seq<char>>,
) -> Map<Seq<char>, Ranged>
    decreases keys.len(),
{
    if keys.len() == 0 {
        attrs
    } else {
        attribute_increased_step(attribute_increased_spec(attrs, stats, keys.drop_last()), stats, keys.last())
    }
}

fn increased_attribute_endpoint(flat: i64, all: i64, pct: i64, more: i64) -> (r: i64)
    ensures
        r == increased_attribute_end(flat as int, all as int, pct as int, more as int),
{
    proof {
        crate::ranged::lemma_product_bound(flat as int, all as int);
    }
    let prod: i128 = flat as i128 * all as i128;
    proof {
        assert(prod as int == flat as int * all as int);
        assert(-0x4000_0000_0000_0000_0000_0000_0000_0000 <= flat as int * all as int
            <= 0x4000_0000_0000_0000_0000_0000_0000_0000) by (nonlinear_arith)
            requires
                i64::MIN <= flat <= i64::MAX,
                i64::MIN <= all <= i64::MAX,
        ;
    }
    let d: i128 = 100_000_000_000_000;
    let q: i128 = if prod >= 0 {
        prod / d
    } else {
        let p: i128 = -prod;
        let c: i128 = (p + d - 1) / d;
        proof {
            assert(-c == prod as int / d as int) by (nonlinear_arith)
                requires
                    p == -prod,
                    p > 0,
                    c as int == (p + d - 1) as int / (d as int),
                    d == 100_000_000_000_000,
            {
                vstd::arithmetic::div_mod::lemma_fundamental_div_mod(prod as int, d as int);
                vstd::arithmetic::div_mod::lemma_fundamental_div_mod((p + d - 1) as int, d as int);
            }
        }
        -c
    };
    proof {
        vstd::arithmetic::div_mod::lemma_fundamental_div_mod(prod as int, d as int);
        assert(0 <= (prod as int) % (d as int) < d);
        assert(-0x1_0000_0000_0000_0000_0000 <= q <= 0x1_0000_0000_0000_0000_0000) by (nonlinear_arith)
            requires
                q == prod as int / d as int,
                prod as int == d * (prod as int / d as int) + (prod as int) % (d as int),
                0 <= (prod as int) % (d as int) < d,
                -0x4000_0000_0000_0000_0000_0000_0000_0000 <= prod <= 0x4000_0000_0000_0000_0000_0000_0000_0000,
                d == 100_000_000_000_000,
        ;
    }
    let after_all = crate::ranged::clamp_wide(flat as i128 + q * 1_000_000);
    exact_multiplied_endpoint(after_all, pct, more, true)
}

/// Scales each attribute in `attribute_keys`, in order: the flat value gains
/// `floor(flat * increased_all_attributes%)`, is then multiplied by its own
/// `increased_<key>` and `increased_<key>_more` percents and rounded down to
/// a whole point.  An attribute is left alone when both it and the
/// all-attributes percent are zero.
pub fn apply_attribute_increased(attrs: &mut AttrMap, stats: &StatMap, attribute_keys: &[String])
    requires
        old(attrs).wf(),
        stats.wf(),
    ensures
        final(attrs).wf(),
        final(attrs)@ == attribute_increased_spec(old(attrs)@, stats@, key_views(attribute_keys@)),
{
    let all_pct = value_or_zero(stats, &key("increased_all_attributes"));
    let n = attribute_keys.len();
    let mut i: usize = 0;
    while i < n
        invariant
            n == attribute_keys@.len(),
            i <= n,
            attrs.wf(),
            stats.wf(),
            all_pct == value_of(stats@, "increased_all_attributes"@),
            attrs@ == attribute_increased_spec(old(attrs)@, stats@, key_views(attribute_keys@).take(i as int)),
        decreases n - i,
    {
        proof {
            assert(key_views(attribute_keys@).take(i + 1).drop_last() =~= key_views(attribute_keys@).take(i as int));
        }
        let k = &attribute_keys[i];
        let flat = value_or_zero(attrs, k);
        if !(ranged_is_zero(flat) && ranged_is_zero(all_pct)) {
            let key_pct = prefixed("increased_", k);
            let key_more = more_key_of(&key_pct);
            let pct = value_or_zero(stats, &key_pct);
            let more = value_or_zero(stats, &key_more);
            let final_min = increased_attribute_endpoint(flat.0, all_pct.0, pct.0, more.0);
            let final_max = increased_attribute_endpoint(flat.1, all_pct.1, pct.1, more.1);
            attrs.insert(k.clone(), (final_min, final_max));
        }
        i = i + 1;
    }
    proof {
        assert(key_views(attribute_keys@).take(n as int) =~= key_views(attribute_keys@));
    }
}

// ---------- disables ----------

/// The stat map after the disables: "life_replenish" zeroes life replenish
/// and its percent.
pub open spec fn disables_spec(m: Map<Seq<char>, Ranged>, disables: Set<Seq<char>>) -> Map<Seq<char>, Ranged> {
    if disables.contains("life_replenish"@) {
        m.insert("life_replenish"@, zero()).insert("life_replenish_pct"@, zero())
    } else {
        m
    }
}

/// Zeroes `life_replenish` and `life_replenish_pct` when the disables hold
/// `life_replenish`.
pub fn apply_disables(stats: &mut StatMap, disables: &KeySet)
    requires
        old(stats).wf(),
        disables.wf(),
    ensures
        final(stats).wf(),
        final(stats)@ == disables_spec(old(stats)@, disables@.dom()),
{
    if disables.contains_key(&key("life_replenish")) {
        stats.insert(key("life_replenish"), (0, 0));
        stats.insert(key("life_replenish_pct"), (0, 0));
    }
}

} // verus!

verus! {

// ---------- tree lines ----------

/// The attributes whose `to_` stats count as attribute contributions.
pub open spec fn attribute_base_keys() -> Seq<Seq<char>> {
    seq!["strength"@, "dexterity"@, "intelligence"@, "energy"@, "vitality"@, "armor"@]
}

pub open spec fn has_to_prefix(k: Seq<char>) -> bool {
    k.len() >= 3 && k[0] == 't' && k[1] == 'o' && k[2] == '_'
}

/// `k` without its leading `to_`.
pub open spec fn strip_to(k: Seq<char>) -> Seq<char> {
    k.subrange(3, k.len() as int)
}

/// A `to_<attribute>` key or `all_attributes`.
pub open spec fn is_attribute_key(k: Seq<char>) -> bool {
    if has_to_prefix(k) {
        attribute_base_keys().contains(strip_to(k))
    } else {
        k == "all_attributes"@
    }
}

/// The attribute an attribute key feeds: `all_attributes` stays as it is,
/// `to_<attribute>` becomes `<attribute>`.
pub open spec fn attribute_target(k: Seq<char>) -> Seq<char> {
    if k == "all_attributes"@ {
        k
    } else {
        strip_to(k)
    }
}

/// A stat line counts while its self-condition, when it has one, is set in
/// the player conditions.
pub open spec fn condition_holds(p: ParsedMod, conds: Map<Seq<char>, bool>) -> bool {
    match p.self_condition {
        Some(c) => conds.contains_key(c@) && conds[c@],
        None => true,
    }
}

/// The text reported for a line no rule understands: `#<node>: <line>`.
pub open spec fn line_label(node_id: u32, text: Seq<char>) -> Seq<char> {
    seq!['#'] + decimal(node_id as nat) + seq![':', ' '] + text
}

/// What aggregation has gathered so far: stat contributions, attribute
/// contributions, conversions, disabled stats and unsupported lines.
pub type AggView = (
    Map<Seq<char>, Ranged>,
    Map<Seq<char>, Ranged>,
    Seq<ParsedConversion>,
    Set<Seq<char>>,
    Seq<Seq<char>>,
);

pub open spec fn empty_agg() -> AggView {
    (Map::empty(), Map::empty(), Seq::empty(), Set::empty(), Seq::empty())
}

/// A stat line's value joins the attribute contributions when its key is an
/// attribute key, the stat contributions otherwise.
pub open spec fn push_mod_spec(st: AggView, p: ParsedMod) -> AggView {
    let v: Ranged = (p.value, p.value);
    if is_attribute_key(p.key@) {
        (st.0, add_into_spec(st.1, attribute_target(p.key@), v), st.2, st.3, st.4)
    } else {
        (add_into_spec(st.0, p.key@, v), st.1, st.2, st.3, st.4)
    }
}

/// One line of node `node_id` folded into the aggregate.
pub open spec fn line_step(st: AggView, node_id: u32, line: TreeLine, conds: Map<Seq<char>, bool>) -> AggView {
    match line.class {
        TreeLineClass::Stat(p) => if condition_holds(p, conds) {
            push_mod_spec(st, p)
        } else {
            st
        },
        TreeLineClass::Meta(ParsedMeta::Convert(c)) => (st.0, st.1, st.2.push(c), st.3, st.4),
        TreeLineClass::Meta(ParsedMeta::Disable(_)) => (st.0, st.1, st.2, st.3.insert("life_replenish"@), st.4),
        TreeLineClass::RecognizedNoStat => st,
        TreeLineClass::Unknown => (st.0, st.1, st.2, st.3, st.4.push(line_label(node_id, line.text@))),
    }
}

pub open spec fn lines_spec(st: AggView, node_id: u32, lines: Seq<TreeLine>, conds: Map<Seq<char>, bool>) -> AggView
    decreases lines.len(),
{
    if lines.len() == 0 {
        st
    } else {
        line_step(lines_spec(st, node_id, lines.drop_last(), conds), node_id, lines.last(), conds)
    }
}

/// A node folded into the aggregate; unknown nodes and jewelry sockets add
/// nothing.
pub open spec fn node_step(
    st: AggView,
    node_id: u32,
    info: Map<u32, TreeNodeInfo>,
    conds: Map<Seq<char>, bool>,
    jewelry: Set<u32>,
) -> AggView {
    if !info.contains_key(node_id) || jewelry.contains(node_id) {
        st
    } else {
        lines_spec(st, node_id, info[node_id].lines@, conds)
    }
}

/// The aggregate of the allocated nodes, in allocation order.
pub open spec fn aggregate_spec(
    nodes: Seq<u32>,
    info: Map<u32, TreeNodeInfo>,
    conds: Map<Seq<char>, bool>,
    jewelry: Set<u32>,
) -> AggView
    decreases nodes.len(),
{
    if nodes.len() == 0 {
        empty_agg()
    } else {
        node_step(aggregate_spec(nodes.drop_last(), info, conds, jewelry), nodes.last(), info, conds, jewelry)
    }
}

/// What the skill-tree lines of the allocated nodes add up to.
pub struct TreeAggregateResult {
    pub stat_contributions: StatMap,
    pub attr_contributions: AttrMap,
    pub conversions: Vec<ParsedConversion>,
    pub disables: KeySet,
    pub unsupported_lines: Vec<String>,
}

impl TreeAggregateResult {
    pub open spec fn wf(&self) -> bool {
        self.stat_contributions.wf() && self.attr_contributions.wf() && self.disables.wf()
    }

    pub open spec fn view(&self) -> AggView {
        (
            self.stat_contributions@,
            self.attr_contributions@,
            self.conversions@,
            self.disables@.dom(),
            key_views(self.unsupported_lines@),
        )
    }

    /// Nothing gathered yet.
    pub fn new() -> (r: Self)
        ensures
            r.wf(),
            r@ == empty_agg(),
    {
        let r = TreeAggregateResult {
            stat_contributions: KeyMap::new(),
            attr_contributions: KeyMap::new(),
            conversions: Vec::new(),
            disables: KeyMap::new(),
            unsupported_lines: Vec::new(),
        };
        assert(r.disables@.dom() =~= Set::empty());
        assert(key_views(r.unsupported_lines@) =~= Seq::empty());
        r
    }
}

/// `#<node>: <line>`: the line as the UI reports it when no rule
/// understands it.
fn node_line_label(node_id: u32, line: &String) -> (r: String)
    ensures
        r@ == line_label(node_id, line@),
{
    proof {
        reveal_strlit("#");
        reveal_strlit(": ");
    }
    let mut s = key("#");
    s.append(decimal_text(node_id as u64).as_str());
    s.append(": ");
    s.append(line.as_str());
    proof {
        assert(s@ =~= line_label(node_id, line@));
    }
    s
}

fn list_contains(v: &Vec<String>, x: &String) -> (b: bool)
    ensures
        b == key_views(v@).contains(x@),
{
    let n = v.len();
    let mut i: usize = 0;
    while i < n
        invariant
            n == v@.len(),
            i <= n,
            forall|j: int| 0 <= j < i ==> v@[j]@ != x@,
        decreases n - i,
    {
        if v[i] == *x {
            proof {
                assert(key_views(v@)[i as int] == x@);
            }
            return true;
        }
        i = i + 1;
    }
    proof {
        if key_views(v@).contains(x@) {
            let j = choose|j: int| 0 <= j < key_views(v@).len() && key_views(v@)[j] == x@;
            assert(v@[j]@ == x@);
        }
    }
    false
}

pub(crate) fn attribute_base_key_list() -> (v: Vec<String>)
    ensures
        key_views(v@) == attribute_base_keys(),
{
    let mut v: Vec<String> = Vec::new();
    v.push(key("strength"));
    v.push(key("dexterity"));
    v.push(key("intelligence"));
    v.push(key("energy"));
    v.push(key("vitality"));
    v.push(key("armor"));
    proof {
        assert(key_views(v@) =~= attribute_base_keys());
    }
    v
}

fn starts_with_to(k: &String) -> (b: bool)
    ensures
        b == has_to_prefix(k@),
{
    let s = k.as_str();
    if s.unicode_len() < 3 {
        return false;
    }
    s.get_char(0) == 't' && s.get_char(1) == 'o' && s.get_char(2) == '_'
}

fn strip_to_prefix(k: &String) -> (r: String)
    requires
        has_to_prefix(k@),
    ensures
        r@ == strip_to(k@),
{
    let s = k.as_str();
    let n = s.unicode_len();
    s.substring_char(3, n).to_owned()
}

/// A `to_<attribute>` key or `all_attributes`.
fn looks_like_attribute(k: &String) -> (b: bool)
    ensures
        b == is_attribute_key(k@),
{
    if starts_with_to(k) {
        let stripped = strip_to_prefix(k);
        list_contains(&attribute_base_key_list(), &stripped)
    } else {
        *k == key("all_attributes")
    }
}

/// True when the line has no self-condition or its condition is set.
fn condition_active(parsed: &ParsedMod, player_conditions: &KeyMap<bool>) -> (b: bool)
    requires
        player_conditions.wf(),
    ensures
        b == condition_holds(*parsed, player_conditions@),
{
    match &parsed.self_condition {
        Some(cond) => match player_conditions.get(cond) {
            Some(v) => *v,
            None => false,
        },
        None => true,
    }
}

fn push_mod(out: &mut TreeAggregateResult, parsed: &ParsedMod)
    requires
        old(out).wf(),
    ensures
        final(out).wf(),
        final(out)@ == push_mod_spec(old(out)@, *parsed),
{
    let value: Ranged = (parsed.value, parsed.value);
    if !looks_like_attribute(&parsed.key) {
        add_into(&mut out.stat_contributions, &parsed.key, value);
        return;
    }
    let target_key = if parsed.key == key("all_attributes") {
        parsed.key.clone()
    } else {
        strip_to_prefix(&parsed.key)
    };
    add_into(&mut out.attr_contributions, &target_key, value);
}

fn aggregate_line(
    out: &mut TreeAggregateResult,
    node_id: u32,
    line: &TreeLine,
    player_conditions: &KeyMap<bool>,
)
    requires
        old(out).wf(),
        player_conditions.wf(),
    ensures
        final(out).wf(),
        final(out)@ == line_step(old(out)@, node_id, *line, player_conditions@),
{
    match &line.class {
        TreeLineClass::Stat(parsed) => {
            if condition_active(parsed, player_conditions) {
                push_mod(out, parsed);
            }
        },
        TreeLineClass::Meta(ParsedMeta::Convert(c)) => {
            out.conversions.push(copy_conversion(c));
        },
        TreeLineClass::Meta(ParsedMeta::Disable(d)) => match d.target {
            DisableTarget::LifeReplenish => {
                out.disables.insert(key("life_replenish"), ());
                assert(out.disables@.dom() =~= old(out).disables@.dom().insert("life_replenish"@));
            },
        },
        TreeLineClass::RecognizedNoStat => {},
        TreeLineClass::Unknown => {
            let label = node_line_label(node_id, &line.text);
            out.unsupported_lines.push(label);
            assert(key_views(out.unsupported_lines@) =~= key_views(old(out).unsupported_lines@).push(
                line_label(node_id, line.text@),
            ));
        },
    }
}

/// Folds the lines of every allocated tree node into stat contributions,
/// attribute contributions (`to_<attribute>` keys and `all_attributes`),
/// conversions and disables, in allocation order.  Nodes missing from
/// `tree_node_info` and jewelry sockets are skipped; a stat line with a
/// self-condition counts only while that condition is set; lines no rule
/// understands are reported as `#<node>: <line>`.
pub fn aggregate_tree_mods(
    allocated_tree_nodes: &[u32],
    tree_node_info: &HashMap<u32, TreeNodeInfo>,
    player_conditions: &KeyMap<bool>,
    jewelry_ids: &HashSet<u32>,
) -> (out: TreeAggregateResult)
    requires
        player_conditions.wf(),
    ensures
        out.wf(),
        out@ == aggregate_spec(allocated_tree_nodes@, tree_node_info@, player_conditions@, jewelry_ids@),
{
    broadcast use vstd::std_specs::hash::group_hash_axioms;
    let mut out = TreeAggregateResult::new();
    let n = allocated_tree_nodes.len();
    let mut i: usize = 0;
    while i < n
        invariant
            n == allocated_tree_nodes@.len(),
            i <= n,
            out.wf(),
            player_conditions.wf(),
            out@ == aggregate_spec(
                allocated_tree_nodes@.take(i as int),
                tree_node_info@,
                player_conditions@,
                jewelry_ids@,
            ),
        decreases n - i,
    {
        proof {
            assert(allocated_tree_nodes@.take(i + 1).drop_last() =~= allocated_tree_nodes@.take(i as int));
        }
        let node_id = allocated_tree_nodes[i];
        match tree_node_info.get(&node_id) {
            None => {},
            Some(info) => {
                if !jewelry_ids.contains(&node_id) {
                    let ghost before = out@;
                    let m = info.lines.len();
                    let mut j: usize = 0;
                    while j < m
                        invariant
                            m == info.lines@.len(),
                            j <= m,
                            out.wf(),
                            player_conditions.wf(),
                            out@ == lines_spec(before, node_id, info.lines@.take(j as int), player_conditions@),
                        decreases m - j,
                    {
                        proof {
                            assert(info.lines@.take(j + 1).drop_last() =~= info.lines@.take(j as int));
                        }
                        aggregate_line(&mut out, node_id, &info.lines[j], player_conditions);
                        j = j + 1;
                    }
                    proof {
                        assert(info.lines@.take(m as int) =~= info.lines@);
                    }
                }
            },
        }
        i = i + 1;
    }
    proof {
        assert(allocated_tree_nodes@.take(n as int) =~= allocated_tree_nodes@);
    }
    out
}

} // verus!

verus! {

// ---------- attribute-driven stats ----------

/// `per` (per attribute point) times the attribute range.
pub open spec fn per_point_contribution(attr: Ranged, per: i64) -> Ranged {
    (product_end(attr.0 as int, per as int) as i64, product_end(attr.1 as int, per as int) as i64)
}

pub open spec fn per_point_entries_spec(
    stats: Map<Seq<char>, Ranged>,
    attr: Ranged,
    entries: Seq<(String, i64)>,
) -> Map<Seq<char>, Ranged>
    decreases entries.len(),
{
    if entries.len() == 0 {
        stats
    } else {
        let prev = per_point_entries_spec(stats, attr, entries.drop_last());
        let (stat_key, per) = entries.last();
        if per == 0 {
            prev
        } else {
            add_into_spec(prev, stat_key@, per_point_contribution(attr, per))
        }
    }
}

/// For each attribute (in entry order) with a non-zero total, each of its
/// non-zero per-point rates adds `attribute * rate` to its stat.
pub open spec fn per_attribute_spec(
    stats: Map<Seq<char>, Ranged>,
    attrs: Map<Seq<char>, Ranged>,
    entries: Seq<(String, KeyMap<i64>)>,
) -> Map<Seq<char>, Ranged>
    decreases entries.len(),
{
    if entries.len() == 0 {
        stats
    } else {
        let prev = per_attribute_spec(stats, attrs, entries.drop_last());
        let (attr_key, rates) = entries.last();
        let attr = value_of(attrs, attr_key@);
        if attr == zero() {
            prev
        } else {
            per_point_entries_spec(prev, attr, rates.entries@)
        }
    }
}

/// `floor(attribute / divisor)` for each endpoint.
pub open spec fn divided_contribution(attr: Ranged, divisor: i64) -> Ranged {
    (
        floor_quotient_end(attr.0 as int, divisor as int) as i64,
        floor_quotient_end(attr.1 as int, divisor as int) as i64,
    )
}

pub open spec fn divided_entries_spec(
    stats: Map<Seq<char>, Ranged>,
    attr: Ranged,
    entries: Seq<(String, i64)>,
) -> Map<Seq<char>, Ranged>
    decreases entries.len(),
{
    if entries.len() == 0 {
        stats
    } else {
        let prev = divided_entries_spec(stats, attr, entries.drop_last());
        let (stat_key, divisor) = entries.last();
        if divisor == 0 {
            prev
        } else {
            add_into_spec(prev, stat_key@, divided_contribution(attr, divisor))
        }
    }
}

/// For each attribute (in entry order) with a non-zero total, each of its
/// non-zero divisors adds `floor(attribute / divisor)` to its stat.
pub open spec fn attribute_divided_spec(
    stats: Map<Seq<char>, Ranged>,
    attrs: Map<Seq<char>, Ranged>,
    entries: Seq<(String, KeyMap<i64>)>,
) -> Map<Seq<char>, Ranged>
    decreases entries.len(),
{
    if entries.len() == 0 {
        stats
    } else {
        let prev = attribute_divided_spec(stats, attrs, entries.drop_last());
        let (attr_key, divisors) = entries.last();
        let attr = value_of(attrs, attr_key@);
        if attr == zero() {
            prev
        } else {
            divided_entries_spec(prev, attr, divisors.entries@)
        }
    }
}

/// Adds `attribute * rate` to each stat that an attribute feeds per point
/// (rates in millionths); attributes at zero and zero rates add nothing.
pub fn apply_per_attribute_stats(stats: &mut StatMap, attrs: &AttrMap, per_attribute: &KeyMap<KeyMap<i64>>)
    requires
        old(stats).wf(),
        attrs.wf(),
    ensures
        final(stats).wf(),
        final(stats)@ == per_attribute_spec(old(stats)@, attrs@, per_attribute.entries@),
{
    let n = per_attribute.entries.len();
    let mut i: usize = 0;
    while i < n
        invariant
            n == per_attribute.entries@.len(),
            i <= n,
            stats.wf(),
            attrs.wf(),
            stats@ == per_attribute_spec(old(stats)@, attrs@, per_attribute.entries@.take(i as int)),
        decreases n - i,
    {
        proof {
            assert(per_attribute.entries@.take(i + 1).drop_last() =~= per_attribute.entries@.take(i as int));
        }
        let attr_val = value_or_zero(attrs, &per_attribute.entries[i].0);
        if !ranged_is_zero(attr_val) {
            let rates = &per_attribute.entries[i].1;
            let ghost before = stats@;
            let m = rates.entries.len();
            let mut j: usize = 0;
            while j < m
                invariant
                    m == rates.entries@.len(),
                    j <= m,
                    stats.wf(),
                    stats@ == per_point_entries_spec(before, attr_val, rates.entries@.take(j as int)),
                decreases m - j,
            {
                proof {
                    assert(rates.entries@.take(j + 1).drop_last() =~= rates.entries@.take(j as int));
                }
                let per = rates.entries[j].1;
                if per != 0 {
                    let contribution = (product_endpoint(attr_val.0, per), product_endpoint(attr_val.1, per));
                    add_into(stats, &rates.entries[j].0, contribution);
                }
                j = j + 1;
            }
            proof {
                assert(rates.entries@.take(m as int) =~= rates.entries@);
            }
        }
        i = i + 1;
    }
    proof {
        assert(per_attribute.entries@.take(n as int) =~= per_attribute.entries@);
    }
}

/// Adds `floor(attribute / divisor)` (whole points) to each stat that an
/// attribute feeds by division (divisors in millionths); attributes at zero
/// and zero divisors add nothing.
pub fn apply_attribute_divided_stats(stats: &mut StatMap, attrs: &AttrMap, divided: &KeyMap<KeyMap<i64>>)
    requires
        old(stats).wf(),
        attrs.wf(),
    ensures
        final(stats).wf(),
        final(stats)@ == attribute_divided_spec(old(stats)@, attrs@, divided.entries@),
{
    let n = divided.entries.len();
    let mut i: usize = 0;
    while i < n
        invariant
            n == divided.entries@.len(),
            i <= n,
            stats.wf(),
            attrs.wf(),
            stats@ == attribute_divided_spec(old(stats)@, attrs@, divided.entries@.take(i as int)),
        decreases n - i,
    {
        proof {
            assert(divided.entries@.take(i + 1).drop_last() =~= divided.entries@.take(i as int));
        }
        let attr_val = value_or_zero(attrs, &divided.entries[i].0);
        if !ranged_is_zero(attr_val) {
            let divisors = &divided.entries[i].1;
            let ghost before = stats@;
            let m = divisors.entries.len();
            let mut j: usize = 0;
            while j < m
                invariant
                    m == divisors.entries@.len(),
                    j <= m,
                    stats.wf(),
                    stats@ == divided_entries_spec(before, attr_val, divisors.entries@.take(j as int)),
                decreases m - j,
            {
                proof {
                    assert(divisors.entries@.take(j + 1).drop_last() =~= divisors.entries@.take(j as int));
                }
                let divisor = divisors.entries[j].1;
                if divisor != 0 {
                    let contribution = (
                        floor_quotient_endpoint(attr_val.0, divisor),
                        floor_quotient_endpoint(attr_val.1, divisor),
                    );
                    add_into(stats, &divisors.entries[j].0, contribution);
                }
                j = j + 1;
            }
            proof {
                assert(divisors.entries@.take(m as int) =~= divisors.entries@);
            }
        }
        i = i + 1;
    }
    proof {
        assert(divided.entries@.take(n as int) =~= divided.entries@);
    }
}

// ---------- conversions ----------

/// The value a conversion reads: an attribute as it stands, or a stat read
/// once (`conversion_read`).
pub open spec fn conversion_source(
    attrs: Map<Seq<char>, Ranged>,
    stats: Map<Seq<char>, Ranged>,
    c: ParsedConversion,
) -> Ranged {
    match c.from_kind {
        ConvertKind::Attribute => value_of(attrs, c.from_key@),
        ConvertKind::Stat => conversion_read(stats, c.from_key@),
    }
}

/// `pct%` of a range.
pub open spec fn pct_of(v: Ranged, pct: i64) -> Ranged {
    (pct_of_end(v.0 as int, pct as int) as i64, pct_of_end(v.1 as int, pct as int) as i64)
}

/// One conversion: its share of the source joins the attributes in place, or
/// the stat additions.
pub open spec fn conversion_step(
    st: (Map<Seq<char>, Ranged>, Map<Seq<char>, Ranged>),
    stats: Map<Seq<char>, Ranged>,
    c: ParsedConversion,
) -> (Map<Seq<char>, Ranged>, Map<Seq<char>, Ranged>) {
    let contribution = pct_of(conversion_source(st.0, stats, c), c.pct);
    match c.to_kind {
        ConvertKind::Attribute => (add_into_spec(st.0, c.to_key@, contribution), st.1),
        ConvertKind::Stat => (st.0, add_into_spec(st.1, c.to_key@, contribution)),
    }
}

/// The attributes and the stat additions after the conversions, in order.
pub open spec fn conversions_spec(
    attrs: Map<Seq<char>, Ranged>,
    stats: Map<Seq<char>, Ranged>,
    convs: Seq<ParsedConversion>,
) -> (Map<Seq<char>, Ranged>, Map<Seq<char>, Ranged>)
    decreases convs.len(),
{
    if convs.len() == 0 {
        (attrs, Map::empty())
    } else {
        conversion_step(conversions_spec(attrs, stats, convs.drop_last()), stats, convs.last())
    }
}

/// Applies the conversions in order.  Each reads its source from `attrs` as
/// it stands (so earlier attribute conversions count) or from the unchanged
/// `stats`, read once (`conversion_read`), and adds `pct%` of it: to
/// `attrs` in place, or to the returned stat additions.
pub fn apply_tree_conversions(attrs: &mut AttrMap, stats: &StatMap, conversions: &[ParsedConversion]) -> (additions: StatMap)
    requires
        old(attrs).wf(),
        stats.wf(),
    ensures
        final(attrs).wf(),
        additions.wf(),
        (final(attrs)@, additions@) == conversions_spec(old(attrs)@, stats@, conversions@),
{
    let mut additions: StatMap = KeyMap::new();
    let n = conversions.len();
    let mut i: usize = 0;
    while i < n
        invariant
            n == conversions@.len(),
            i <= n,
            attrs.wf(),
            stats.wf(),
            additions.wf(),
            (attrs@, additions@) == conversions_spec(old(attrs)@, stats@, conversions@.take(i as int)),
        decreases n - i,
    {
        proof {
            assert(conversions@.take(i + 1).drop_last() =~= conversions@.take(i as int));
        }
        let conv = &conversions[i];
        let source_val = match conv.from_kind {
            ConvertKind::Attribute => value_or_zero(attrs, &conv.from_key),
            ConvertKind::Stat => conversion_read_of(stats, &conv.from_key),
        };
        let contribution = (pct_of_endpoint(source_val.0, conv.pct), pct_of_endpoint(source_val.1, conv.pct));
        match conv.to_kind {
            ConvertKind::Attribute => add_into(attrs, &conv.to_key, contribution),
            ConvertKind::Stat => add_into(&mut additions, &conv.to_key, contribution),
        }
        i = i + 1;
    }
    proof {
        assert(conversions@.take(n as int) =~= conversions@);
    }
    additions
}

} // verus!
