//! Per-stat breakdown: the additive, increased and more sources of a stat,
//! regrouped by source type for display.
use vstd::prelude::*;
use crate::aggregate::{multiplied, multiplied_endpoint};
use crate::finalize::{keys_for_spec, multiplier_keys_for, multiplier_table, opt_string_view};
use crate::ranged::{combine, combine_additive_and_more, range_add, ranged_add, zero, Ranged};
use crate::sources::{
    copy_forge, source_sum, source_type_order, source_type_rank, sum_contributions, SourceContribution, SourceMap,
    SourceType,
};
use crate::stat_defs::{resolved_name_spec, resolved_stat_name, stat_def, stat_def_spec, StatDefs};
use crate::stat_map::{key, more_key, more_key_of, KeySet};

verus! {

/// The contributions of one source type to a stat.
pub struct StatTypeSubtotal {
    pub source_type: SourceType,
    pub sum: Ranged,
    pub count: u32,
}

/// The sum of the values of the contributions of type `t`.
pub open spec fn type_sum(s: Seq<SourceContribution>, t: SourceType) -> Ranged
    decreases s.len(),
{
    if s.len() == 0 {
        zero()
    } else if s.last().source_type == t {
        range_add(type_sum(s.drop_last(), t), s.last().value)
    } else {
        type_sum(s.drop_last(), t)
    }
}

/// How many contributions are of type `t`.
pub open spec fn type_count(s: Seq<SourceContribution>, t: SourceType) -> nat
    decreases s.len(),
{
    if s.len() == 0 {
        0
    } else if s.last().source_type == t {
        type_count(s.drop_last(), t) + 1
    } else {
        type_count(s.drop_last(), t)
    }
}

pub open spec fn abs(x: int) -> int {
    if x < 0 {
        -x
    } else {
        x
    }
}

/// The larger absolute value of the two endpoints.
pub open spec fn magnitude(r: Ranged) -> int {
    if abs(r.0 as int) >= abs(r.1 as int) {
        abs(r.0 as int)
    } else {
        abs(r.1 as int)
    }
}

/// `a` is listed before `b`: larger magnitude first, ties by source type.
pub open spec fn listed_before(a: StatTypeSubtotal, b: StatTypeSubtotal) -> bool {
    magnitude(a.sum) > magnitude(b.sum) || (magnitude(a.sum) == magnitude(b.sum) && source_type_rank(
        a.source_type,
    ) < source_type_rank(b.source_type))
}

/// `x` is the subtotal of its source type over `s`.
pub open spec fn is_subtotal_of(s: Seq<SourceContribution>, x: StatTypeSubtotal) -> bool {
    &&& type_count(s, x.source_type) > 0
    &&& x.sum == type_sum(s, x.source_type)
    &&& x.count == type_count(s, x.source_type)
}

proof fn lemma_type_count_bound(s: Seq<SourceContribution>, t: SourceType)
    ensures
        type_count(s, t) <= s.len(),
    decreases s.len(),
{
    if s.len() > 0 {
        lemma_type_count_bound(s.drop_last(), t);
    }
}

proof fn lemma_before_total(a: StatTypeSubtotal, b: StatTypeSubtotal)
    requires
        a.source_type != b.source_type,
    ensures
        listed_before(a, b) || listed_before(b, a),
{
}

fn magnitude_of(r: Ranged) -> (m: i128)
    ensures
        m == magnitude(r),
{
    let a: i128 = if r.0 < 0 {
        -(r.0 as i128)
    } else {
        r.0 as i128
    };
    let b: i128 = if r.1 < 0 {
        -(r.1 as i128)
    } else {
        r.1 as i128
    };
    if a >= b {
        a
    } else {
        b
    }
}

fn is_listed_before(a: &StatTypeSubtotal, b: &StatTypeSubtotal) -> (r: bool)
    ensures
        r == listed_before(*a, *b),
{
    let ma = magnitude_of(a.sum);
    let mb = magnitude_of(b.sum);
    ma > mb || (ma == mb && source_type_order(a.source_type) < source_type_order(b.source_type))
}

/// `out` lists each source type present in `s` once, with its sum and
/// count, largest magnitude first, ties by source type.
pub open spec fn is_grouping(s: Seq<SourceContribution>, out: Seq<StatTypeSubtotal>) -> bool {
    &&& forall|i: int| 0 <= i < out.len() ==> is_subtotal_of(s, #[trigger] out[i])
    &&& forall|t: SourceType|
        type_count(s, t) > 0 ==> exists|i: int| 0 <= i < out.len() && #[trigger] out[i].source_type == t
    &&& forall|i: int, j: int| 0 <= i < j < out.len() ==> listed_before(#[trigger] out[i], #[trigger] out[j])
}

/// Groups the contributions by source type: each type present once, with the
/// sum of its values and its count; listed by magnitude (the larger absolute
/// endpoint), largest first, ties by source type.
pub fn group_by_source_type(sources: &[SourceContribution]) -> (out: Vec<StatTypeSubtotal>)
    requires
        sources@.len() <= u32::MAX,
    ensures
        is_grouping(sources@, out@),
{
    let mut acc: Vec<StatTypeSubtotal> = Vec::new();
    let n = sources.len();
    let mut i: usize = 0;
    while i < n
        invariant
            n == sources@.len(),
            n <= u32::MAX,
            i <= n,
            forall|k: int| 0 <= k < acc@.len() ==> is_subtotal_of(sources@.take(i as int), #[trigger] acc@[k]),
            forall|t: SourceType|
                type_count(sources@.take(i as int), t) > 0 ==> exists|k: int|
                    0 <= k < acc@.len() && #[trigger] acc@[k].source_type == t,
            forall|k1: int, k2: int|
                0 <= k1 < k2 < acc@.len() ==> #[trigger] acc@[k1].source_type != #[trigger] acc@[k2].source_type,
        decreases n - i,
    {
        let ghost prefix = sources@.take(i as int);
        let ghost next = sources@.take(i + 1);
        proof {
            assert(next.drop_last() =~= prefix);
            assert(next.last() == sources@[i as int]);
        }
        let t = sources[i].source_type;
        let v = sources[i].value;
        let m = acc.len();
        let j = position_of_type(&acc, t);
        let ghost before = acc@;
        if j < m {
            proof {
                lemma_type_count_bound(prefix, t);
                assert(is_subtotal_of(prefix, acc@[j as int]));
            }
            let e = StatTypeSubtotal { source_type: t, sum: ranged_add(acc[j].sum, v), count: acc[j].count + 1 };
            acc.set(j, e);
            proof {
                assert forall|k: int| 0 <= k < acc@.len() implies is_subtotal_of(next, #[trigger] acc@[k]) by {
                    if k != j {
                        assert(before[k].source_type != t);
                    }
                }
                assert forall|u: SourceType| type_count(next, u) > 0 implies exists|k: int|
                    0 <= k < acc@.len() && #[trigger] acc@[k].source_type == u by {
                    if u != t {
                        assert(type_count(next, u) == type_count(prefix, u));
                        let k = choose|k: int| 0 <= k < before.len() && #[trigger] before[k].source_type == u;
                        assert(acc@[k].source_type == u);
                    } else {
                        assert(acc@[j as int].source_type == u);
                    }
                }
            }
        } else {
            let e = StatTypeSubtotal { source_type: t, sum: ranged_add((0, 0), v), count: 1 };
            acc.push(e);
            proof {
                assert(type_count(prefix, t) == 0) by {
                    if type_count(prefix, t) > 0 {
                        let k = choose|k: int| 0 <= k < before.len() && #[trigger] before[k].source_type == t;
                    }
                }
                assert(type_sum(prefix, t) == zero()) by {
                    lemma_zero_count_zero_sum(prefix, t);
                }
                assert forall|k: int| 0 <= k < acc@.len() implies is_subtotal_of(next, #[trigger] acc@[k]) by {
                    if k < m {
                        assert(before[k].source_type != t);
                    }
                }
                assert forall|u: SourceType| type_count(next, u) > 0 implies exists|k: int|
                    0 <= k < acc@.len() && #[trigger] acc@[k].source_type == u by {
                    if u != t {
                        assert(type_count(next, u) == type_count(prefix, u));
                        let k = choose|k: int| 0 <= k < before.len() && #[trigger] before[k].source_type == u;
                        assert(acc@[k].source_type == u);
                    } else {
                        assert(acc@[m as int].source_type == u);
                    }
                }
            }
        }
        i = i + 1;
    }
    proof {
        assert(sources@.take(n as int) =~= sources@);
    }
    // Selection: repeatedly move the first-listed remaining subtotal.
    let mut out: Vec<StatTypeSubtotal> = Vec::new();
    while acc.len() > 0
        invariant
            forall|k: int| 0 <= k < acc@.len() ==> is_subtotal_of(sources@, #[trigger] acc@[k]),
            forall|k: int| 0 <= k < out@.len() ==> is_subtotal_of(sources@, #[trigger] out@[k]),
            forall|t: SourceType|
                type_count(sources@, t) > 0 ==> (exists|k: int| 0 <= k < acc@.len() && #[trigger] acc@[k].source_type == t)
                    || (exists|k: int| 0 <= k < out@.len() && #[trigger] out@[k].source_type == t),
            forall|k1: int, k2: int|
                0 <= k1 < k2 < acc@.len() ==> #[trigger] acc@[k1].source_type != #[trigger] acc@[k2].source_type,
            forall|x: int, y: int|
                0 <= x < out@.len() && 0 <= y < acc@.len() ==> listed_before(#[trigger] out@[x], #[trigger] acc@[y]),
            forall|x: int, y: int| 0 <= x < y < out@.len() ==> listed_before(#[trigger] out@[x], #[trigger] out@[y]),
        decreases acc@.len(),
    {
        let m = acc.len();
        let mut best: usize = 0;
        let mut k: usize = 1;
        while k < m
            invariant
                m == acc@.len(),
                m > 0,
                best < k,
                1 <= k <= m,
                forall|k1: int, k2: int|
                    0 <= k1 < k2 < acc@.len() ==> #[trigger] acc@[k1].source_type != #[trigger] acc@[k2].source_type,
                forall|y: int| 0 <= y < k && y != best ==> listed_before(acc@[best as int], #[trigger] acc@[y]),
            decreases m - k,
        {
            if is_listed_before(&acc[k], &acc[best]) {
                proof {
                    assert forall|y: int| 0 <= y < k + 1 && y != k implies listed_before(
                        acc@[k as int],
                        #[trigger] acc@[y],
                    ) by {
                        if y != best {
                            assert(listed_before(acc@[best as int], acc@[y]));
                        }
                    }
                }
                best = k;
            } else {
                proof {
                    lemma_before_total(acc@[k as int], acc@[best as int]);
                }
            }
            k = k + 1;
        }
        let ghost before_acc = acc@;
        let ghost before_out = out@;
        let e = acc.remove(best);
        out.push(e);
        proof {
            assert forall|t: SourceType| type_count(sources@, t) > 0 implies (exists|k: int|
                0 <= k < acc@.len() && #[trigger] acc@[k].source_type == t) || (exists|k: int|
                0 <= k < out@.len() && #[trigger] out@[k].source_type == t) by {
                if exists|k: int| 0 <= k < before_out.len() && #[trigger] before_out[k].source_type == t {
                    let k = choose|k: int| 0 <= k < before_out.len() && #[trigger] before_out[k].source_type == t;
                    assert(out@[k].source_type == t);
                } else {
                    let k = choose|k: int| 0 <= k < before_acc.len() && #[trigger] before_acc[k].source_type == t;
                    if k < best {
                        assert(acc@[k].source_type == t);
                    } else if k > best {
                        assert(acc@[k - 1].source_type == t);
                    } else {
                        assert(out@[out@.len() - 1].source_type == t);
                    }
                }
            }
            assert forall|k1: int, k2: int| 0 <= k1 < k2 < acc@.len() implies #[trigger] acc@[k1].source_type
                != #[trigger] acc@[k2].source_type by {
                let a = if k1 < best { k1 } else { k1 + 1 };
                let b = if k2 < best { k2 } else { k2 + 1 };
                assert(acc@[k1] == before_acc[a]);
                assert(acc@[k2] == before_acc[b]);
            }
            assert forall|x: int, y: int| 0 <= x < out@.len() && 0 <= y < acc@.len() implies listed_before(
                #[trigger] out@[x],
                #[trigger] acc@[y],
            ) by {
                let b = if y < best { y } else { y + 1 };
                assert(acc@[y] == before_acc[b]);
                if x < before_out.len() {
                    assert(listed_before(before_out[x], before_acc[b]));
                } else {
                    assert(b != best);
                    assert(listed_before(before_acc[best as int], before_acc[b]));
                }
            }
            assert forall|x: int, y: int| 0 <= x < y < out@.len() implies listed_before(
                #[trigger] out@[x],
                #[trigger] out@[y],
            ) by {
                if y < before_out.len() {
                    assert(listed_before(before_out[x], before_out[y]));
                } else {
                    assert(listed_before(before_out[x], before_acc[best as int]));
                }
            }
            assert forall|k: int| 0 <= k < acc@.len() implies is_subtotal_of(sources@, #[trigger] acc@[k]) by {
                let b = if k < best { k } else { k + 1 };
                assert(acc@[k] == before_acc[b]);
            }
        }
    }
    proof {
        assert forall|t: SourceType| type_count(sources@, t) > 0 implies exists|i: int|
            0 <= i < out@.len() && #[trigger] out@[i].source_type == t by {
            if exists|k: int| 0 <= k < acc@.len() && #[trigger] acc@[k].source_type == t {
                let k = choose|k: int| 0 <= k < acc@.len() && #[trigger] acc@[k].source_type == t;
            }
        }
    }
    out
}

fn position_of_type(acc: &Vec<StatTypeSubtotal>, t: SourceType) -> (j: usize)
    ensures
        j <= acc@.len(),
        j < acc@.len() ==> acc@[j as int].source_type == t,
        j == acc@.len() ==> forall|k: int| 0 <= k < acc@.len() ==> acc@[k].source_type != t,
{
    let m = acc.len();
    let mut j: usize = 0;
    while j < m
        invariant
            m == acc@.len(),
            j <= m,
            forall|k: int| 0 <= k < j ==> acc@[k].source_type != t,
        decreases m - j,
    {
        if acc[j].source_type == t {
            return j;
        }
        j = j + 1;
    }
    m
}

proof fn lemma_zero_count_zero_sum(s: Seq<SourceContribution>, t: SourceType)
    requires
        type_count(s, t) == 0,
    ensures
        type_sum(s, t) == zero(),
    decreases s.len(),
{
    if s.len() > 0 {
        lemma_zero_count_zero_sum(s.drop_last(), t);
    }
}

/// A copy of a list of contributions.
fn copy_sources(v: &Vec<SourceContribution>) -> (r: Vec<SourceContribution>)
    ensures
        r@ == v@,
{
    let mut r: Vec<SourceContribution> = Vec::new();
    let n = v.len();
    let mut i: usize = 0;
    while i < n
        invariant
            n == v@.len(),
            i <= n,
            r@ == v@.take(i as int),
        decreases n - i,
    {
        let c = &v[i];
        r.push(SourceContribution {
            label: c.label.clone(),
            source_type: c.source_type,
            value: c.value,
            forge: copy_forge(&c.forge),
        });
        proof {
            assert(r@ =~= v@.take(i + 1));
        }
        i = i + 1;
    }
    proof {
        assert(v@.take(n as int) =~= v@);
    }
    r
}

/// The contributions under `k`, copied; empty when `k` has none.
fn sources_of(map: &SourceMap, k: &String) -> (r: Vec<SourceContribution>)
    requires
        map.wf(),
    ensures
        r@ == map.list_of(k@),
{
    match map.get(k) {
        Some(list) => copy_sources(list),
        None => Vec::new(),
    }
}

/// Every source list of the map holds at most `u32::MAX` contributions.
pub open spec fn lists_fit_u32(map: &SourceMap) -> bool {
    forall|k: Seq<char>| map@.contains_key(k) ==> (#[trigger] map@[k])@.len() <= u32::MAX
}

/// A per-stat breakdown: the additive, increased and more sources with their
/// sums and per-type groupings, and the combined value.
pub struct StatBreakdown {
    pub stat_key: String,
    pub stat_name: String,
    pub is_percent: bool,
    pub has_more: bool,
    /// Set when the stat is multiplied by an increased key that has sources.
    pub has_increased: bool,
    pub additive_sum: Ranged,
    pub additive_sources: Vec<SourceContribution>,
    pub additive_by_type: Vec<StatTypeSubtotal>,
    pub increased_sum: Ranged,
    pub increased_sources: Vec<SourceContribution>,
    pub increased_by_type: Vec<StatTypeSubtotal>,
    pub more_sum: Ranged,
    pub more_sources: Vec<SourceContribution>,
    pub more_by_type: Vec<StatTypeSubtotal>,
    pub combined: Ranged,
    /// The combined total before diminishing returns, when the curve changed it.
    pub pre_diminish: Option<Ranged>,
}

/// The key whose sources multiply `k` as "more": the table's more key for a
/// multiplied-flat stat, `k_more` otherwise.
pub open spec fn more_key_for(k: Seq<char>) -> Seq<char> {
    match keys_for_spec(multiplier_table(), k).1 {
        Some(q) => q,
        None => more_key(k),
    }
}

/// The combined value before ordering its endpoints.
pub open spec fn combined_raw_spec(
    k: Seq<char>,
    final_value: Option<Ranged>,
    additive: Ranged,
    increased: Ranged,
    more: Ranged,
    has_more: bool,
) -> Ranged {
    match final_value {
        Some(fv) => fv,
        None => if keys_for_spec(multiplier_table(), k).0 is Some || k == "mana_replenish"@ || k
            == "life_replenish"@ {
            multiplied(additive, increased, more, false)
        } else if has_more {
            combine(additive, more)
        } else {
            additive
        },
    }
}

/// `r` with its endpoints in order.
pub open spec fn ordered(r: Ranged) -> Ranged {
    if r.0 <= r.1 {
        r
    } else {
        (r.1, r.0)
    }
}

/// The total before diminishing returns, shown when the stat has a curve and
/// the curve moved either endpoint by more than a millionth.
pub open spec fn pre_diminish_spec(has_curve: bool, additive: Ranged, more: Ranged, combined: Ranged) -> Option<Ranged> {
    let raw = combine(additive, more);
    if has_curve && (abs(raw.0 - combined.0) > 1 || abs(raw.1 - combined.1) > 1) {
        Some(raw)
    } else {
        None
    }
}

fn breakdown_combined(
    k: &String,
    multiplied_flat: bool,
    final_value: Option<Ranged>,
    additive_sum: Ranged,
    increased_sum: Ranged,
    more_sum: Ranged,
    has_more: bool,
) -> (r: Ranged)
    requires
        multiplied_flat == keys_for_spec(multiplier_table(), k@).0 is Some,
    ensures
        r == ordered(combined_raw_spec(k@, final_value, additive_sum, increased_sum, more_sum, has_more)),
{
    let combined_raw: Ranged = match final_value {
        Some(fv) => fv,
        None => {
            if multiplied_flat || *k == key("mana_replenish") || *k == key("life_replenish") {
                (
                    multiplied_endpoint(additive_sum.0, increased_sum.0, more_sum.0, false),
                    multiplied_endpoint(additive_sum.1, increased_sum.1, more_sum.1, false),
                )
            } else if has_more {
                combine_additive_and_more(additive_sum, more_sum)
            } else {
                additive_sum
            }
        },
    };
    if combined_raw.0 <= combined_raw.1 {
        combined_raw
    } else {
        (combined_raw.1, combined_raw.0)
    }
}

fn breakdown_pre_diminish(has_curve: bool, additive_sum: Ranged, more_sum: Ranged, combined: Ranged) -> (r: Option<Ranged>)
    ensures
        r == pre_diminish_spec(has_curve, additive_sum, more_sum, combined),
{
    if !has_curve {
        return None;
    }
    let raw = combine_additive_and_more(additive_sum, more_sum);
    let d0: i128 = raw.0 as i128 - combined.0 as i128;
    let d1: i128 = raw.1 as i128 - combined.1 as i128;
    if d0 > 1 || d0 < -1 || d1 > 1 || d1 < -1 {
        Some(raw)
    } else {
        None
    }
}

fn is_percent_stat(defs: &StatDefs, stat_key: &str) -> (b: bool)
    requires
        defs.wf(),
    ensures
        b == (stat_def_spec(defs@, stat_key@) matches Some(d) && opt_string_view(d.format) == Some("percent"@)),
{
    match stat_def(defs, stat_key) {
        Some(d) => match &d.format {
            Some(f) => *f == key("percent"),
            None => false,
        },
        None => false,
    }
}

/// Builds the breakdown of `stat_key`: its own sources (additive), the
/// sources of its increased key (for multiplied-flat stats) and of its more
/// key, their sums and groupings by source type.  `combined` is
/// `final_value` when given; otherwise it is rebuilt: multiplied-flat stats
/// and the replenishes as `additive x (1 + increased) x (1 + more)`, stats
/// with more sources as the additive and more percents folded together,
/// others as the additive sum; its endpoints are then put in order.
/// `pre_diminish` is the folded total when `stat_key` has a
/// diminishing-returns curve and the combined value differs from it.
pub fn compute_stat_breakdown(
    stat_sources: &SourceMap,
    stat_key: &str,
    final_value: Option<Ranged>,
    defs: &StatDefs,
    diminishing_keys: &KeySet,
) -> (b: StatBreakdown)
    requires
        stat_sources.wf(),
        lists_fit_u32(stat_sources),
        defs.wf(),
        diminishing_keys.wf(),
    ensures
        b.stat_key@ == stat_key@,
        b.stat_name@ == resolved_name_spec(defs@, stat_key@),
        b.is_percent == (stat_def_spec(defs@, stat_key@) matches Some(d) && opt_string_view(d.format) == Some(
            "percent"@,
        )),
        b.additive_sources@ == stat_sources.list_of(stat_key@),
        b.increased_sources@ == match keys_for_spec(multiplier_table(), stat_key@).0 {
            Some(p) => stat_sources.list_of(p),
            None => Seq::<SourceContribution>::empty(),
        },
        b.more_sources@ == stat_sources.list_of(more_key_for(stat_key@)),
        b.additive_sum == source_sum(b.additive_sources@),
        b.increased_sum == source_sum(b.increased_sources@),
        b.more_sum == source_sum(b.more_sources@),
        b.has_more == (b.more_sources@.len() > 0),
        b.has_increased == (b.increased_sources@.len() > 0),
        is_grouping(b.additive_sources@, b.additive_by_type@),
        is_grouping(b.increased_sources@, b.increased_by_type@),
        is_grouping(b.more_sources@, b.more_by_type@),
        b.combined == ordered(
            combined_raw_spec(stat_key@, final_value, b.additive_sum, b.increased_sum, b.more_sum, b.has_more),
        ),
        b.pre_diminish == pre_diminish_spec(
            diminishing_keys@.contains_key(stat_key@),
            b.additive_sum,
            b.more_sum,
            b.combined,
        ),
{
    let k = key(stat_key);
    let additive_sources = sources_of(stat_sources, &k);
    let (inc_key_opt, more) = multiplier_keys_for(stat_key);
    let more_key_owned = match more {
        Some(q) => q,
        None => more_key_of(&k),
    };
    let increased_sources = match &inc_key_opt {
        Some(p) => sources_of(stat_sources, p),
        None => Vec::new(),
    };
    let more_sources = sources_of(stat_sources, &more_key_owned);
    proof {
        if stat_sources@.contains_key(k@) {
            assert(stat_sources@[k@]@.len() <= u32::MAX);
        }
        if let Some(p) = opt_string_view(inc_key_opt) {
            if stat_sources@.contains_key(p) {
                assert(stat_sources@[p]@.len() <= u32::MAX);
            }
        }
        if stat_sources@.contains_key(more_key_owned@) {
            assert(stat_sources@[more_key_owned@]@.len() <= u32::MAX);
        }
    }

    let additive_sum = sum_contributions(additive_sources.as_slice());
    let increased_sum = sum_contributions(increased_sources.as_slice());
    let more_sum = sum_contributions(more_sources.as_slice());
    let has_more = more_sources.len() > 0;
    let has_increased = increased_sources.len() > 0;

    let combined = breakdown_combined(&k, inc_key_opt.is_some(), final_value, additive_sum, increased_sum, more_sum, has_more);
    let pre_diminish = breakdown_pre_diminish(diminishing_keys.contains_key(&k), additive_sum, more_sum, combined);

    let additive_by_type = group_by_source_type(additive_sources.as_slice());
    let increased_by_type = group_by_source_type(increased_sources.as_slice());
    let more_by_type = group_by_source_type(more_sources.as_slice());

    let is_percent = is_percent_stat(defs, stat_key);

    StatBreakdown {
        stat_key: k,
        stat_name: resolved_stat_name(defs, stat_key),
        is_percent,
        has_more,
        has_increased,
        additive_sum,
        additive_sources,
        additive_by_type,
        increased_sum,
        increased_sources,
        increased_by_type,
        more_sum,
        more_sources,
        more_by_type,
        combined,
        pre_diminish,
    }
}

} // verus!
