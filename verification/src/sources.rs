//! Stat sources: the labelled contributions behind every stat total, and
//! the small helpers that sum and combine them.
use vstd::prelude::*;
use vstd::string::*;
use crate::keymap::KeyMap;
use crate::ranged::{combine, combine_additive_and_more, exact_multiplied_end, exact_multiplied_endpoint, floor_end, floor_endpoint, range_add, ranged_add, ranged_is_zero, zero, Ranged};
use crate::stat_map::{key, value_of, value_or_zero, StatMap};

verus! {

/// Where a contribution comes from.
#[derive(Clone, Copy, Debug, PartialEq, Eq, Structural)]
pub enum SourceType {
    Item,
    Socket,
    Tree,
}

/// The position of a source type in the order the breakdown lists ties in.
pub open spec fn source_type_rank(t: SourceType) -> int {
    match t {
        SourceType::Item => 0,
        SourceType::Socket => 1,
        SourceType::Tree => 2,
    }
}

pub fn source_type_order(t: SourceType) -> (r: u8)
    ensures
        r == source_type_rank(t),
{
    match t {
        SourceType::Item => 0,
        SourceType::Socket => 1,
        SourceType::Tree => 2,
    }
}

/// One labelled contribution to a stat.
/// Where a star-forged modifier came from: the item, the modifier and the
/// forge kind of the item's rarity.
#[derive(Debug)]
pub struct Forge {
    pub item_name: String,
    pub mod_name: String,
    pub kind: String,
}

#[derive(Debug)]
pub struct SourceContribution {
    pub label: String,
    pub source_type: SourceType,
    pub value: Ranged,
    /// Set for a star-forged modifier.
    pub forge: Option<Forge>,
}

/// A copy of a forge record.
pub fn copy_forge(f: &Option<Forge>) -> (r: Option<Forge>)
    ensures
        r == *f,
{
    match f {
        Some(x) => Some(Forge { item_name: x.item_name.clone(), mod_name: x.mod_name.clone(), kind: x.kind.clone() }),
        None => None,
    }
}

/// Stat key to the contributions behind it.
pub type SourceMap = KeyMap<Vec<SourceContribution>>;

/// The endpoint-wise sum of the contributions' values, first to last.
pub open spec fn source_sum(s: Seq<SourceContribution>) -> Ranged
    decreases s.len(),
{
    if s.len() == 0 {
        zero()
    } else {
        range_add(source_sum(s.drop_last()), s.last().value)
    }
}

/// True when both endpoints are zero.
pub fn is_zero(v: Ranged) -> (b: bool)
    ensures
        b == (v == zero()),
{
    ranged_is_zero(v)
}

/// The sum of the contributions' values, endpoint by endpoint.
pub fn sum_contributions(list: &[SourceContribution]) -> (r: Ranged)
    ensures
        r == source_sum(list@),
{
    let mut sum: Ranged = (0, 0);
    let n = list.len();
    let mut i: usize = 0;
    while i < n
        invariant
            n == list@.len(),
            i <= n,
            sum == source_sum(list@.take(i as int)),
        decreases n - i,
    {
        proof {
            assert(list@.take(i + 1).drop_last() =~= list@.take(i as int));
        }
        sum = ranged_add(sum, list[i].value);
        i = i + 1;
    }
    proof {
        assert(list@.take(n as int) =~= list@);
    }
    sum
}

/// Appends `c` to the sources of `key`; a zero contribution is dropped.
pub fn push_source(map: &mut SourceMap, key_str: &str, c: SourceContribution)
    requires
        old(map).wf(),
    ensures
        final(map).wf(),
        c.value == zero() ==> *final(map) == *old(map),
        c.value != zero() ==> {
            &&& final(map)@.dom() == old(map)@.dom().insert(key_str@)
            &&& final(map)@[key_str@]@ == old(map).list_of(key_str@).push(c)
            &&& forall|other: Seq<char>|
                other != key_str@ && old(map)@.contains_key(other) ==> final(map)@[other] == old(map)@[other]
        },
{
    if is_zero(c.value) {
        return;
    }
    map.push_value(key(key_str), c);
}

/// The sources of `key` summed and each endpoint rounded down to a whole
/// point; zero when `key` has no sources.
pub fn sum_ranged_from_map(map: &SourceMap, key_str: &str) -> (r: Ranged)
    requires
        map.wf(),
    ensures
        r == (
            floor_end(source_sum(map.list_of(key_str@)).0 as int) as i64,
            floor_end(source_sum(map.list_of(key_str@)).1 as int) as i64,
        ),
{
    let sum = match map.get(&key(key_str)) {
        Some(list) => sum_contributions(list.as_slice()),
        None => {
            proof {
                assert(map.list_of(key_str@) =~= Seq::<SourceContribution>::empty());
            }
            (0, 0)
        },
    };
    (floor_endpoint(sum.0), floor_endpoint(sum.1))
}

/// An item's defense range scaled exactly by its enhanced-defense percent
/// and rounded down once, endpoint by endpoint; `None` unless both base endpoints are
/// known.  No enhanced defense counts as zero percent.
pub fn compute_item_effective_defense(
    defense_min: Option<i64>,
    defense_max: Option<i64>,
    enhanced_defense: Option<Ranged>,
) -> (r: Option<Ranged>)
    ensures
        r == match (defense_min, defense_max) {
            (Some(lo), Some(hi)) => {
                let ed = match enhanced_defense {
                    Some(e) => e,
                    None => zero(),
                };
                Some(
                    (
                        exact_multiplied_end(lo as int, ed.0 as int, 0, true) as i64,
                        exact_multiplied_end(hi as int, ed.1 as int, 0, true) as i64,
                    ),
                )
            },
            _ => None::<Ranged>,
        },
{
    match (defense_min, defense_max) {
        (Some(lo), Some(hi)) => {
            let ed: Ranged = match enhanced_defense {
                Some(e) => e,
                None => (0, 0),
            };
            Some((exact_multiplied_endpoint(lo, ed.0, 0, true), exact_multiplied_endpoint(hi, ed.1, 0, true)))
        },
        _ => None,
    }
}

/// `k` ends in `_more`.
pub open spec fn is_more_key(k: Seq<char>) -> bool {
    k.len() >= 5 && k.subrange(k.len() - 5, k.len() as int) == "_more"@
}

/// `k` without its trailing `_more`.
pub open spec fn strip_more(k: Seq<char>) -> Seq<char> {
    k.subrange(0, k.len() - 5)
}

/// For every `X_more` key: `X` with its additive and more percents folded
/// together (an absent `X` counts as zero).
pub open spec fn combined_spec(stats: Map<Seq<char>, Ranged>) -> Map<Seq<char>, Ranged> {
    Map::new(
        |b: Seq<char>| stats.contains_key(b + "_more"@),
        |b: Seq<char>| combine(value_of(stats, b), stats[b + "_more"@]),
    )
}

fn ends_with_more(k: &String) -> (b: bool)
    ensures
        b == is_more_key(k@),
{
    let s = k.as_str();
    let n = s.unicode_len();
    if n < 5 {
        return false;
    }
    let tail = s.substring_char(n - 5, n).to_owned();
    tail == key("_more")
}

proof fn lemma_more_key_split(k: Seq<char>, b: Seq<char>)
    ensures
        (is_more_key(k) && strip_more(k) == b) <==> k == b + "_more"@,
{
    reveal_strlit("_more");
    let suffix = "_more"@;
    assert(suffix.len() == 5);
    if is_more_key(k) && strip_more(k) == b {
        assert(k =~= k.subrange(0, k.len() - 5) + k.subrange(k.len() - 5, k.len() as int));
    }
    if k == b + suffix {
        assert((b + suffix).subrange(0, (b + suffix).len() - 5) =~= b);
        assert((b + suffix).subrange((b + suffix).len() - 5, (b + suffix).len() as int) =~= suffix);
    }
}

/// Each stat that has a `_more` twin, with the two folded into one percent:
/// `((1 + X%) * (1 + X_more%) - 1)`.  Stats without a twin are left out.
pub fn stats_combined_map(stats: &StatMap) -> (out: StatMap)
    requires
        stats.wf(),
    ensures
        out.wf(),
        out@ == combined_spec(stats@),
{
    proof {
        reveal_strlit("_more");
    }
    let mut out: StatMap = KeyMap::new();
    let n = stats.entries.len();
    let mut i: usize = 0;
    while i < n
        invariant
            n == stats.entries@.len(),
            i <= n,
            stats.wf(),
            out.wf(),
            "_more"@.len() == 5,
            out@ == Map::new(
                |b: Seq<char>| stats.keys().take(i as int).contains(b + "_more"@),
                |b: Seq<char>| combine(value_of(stats@, b), stats@[b + "_more"@]),
            ),
        decreases n - i,
    {
        let ghost ki = stats.keys()[i as int];
        proof {
            stats.lemma_entry(i as int);
            assert forall|b: Seq<char>| stats.keys().take(i + 1).contains(b + "_more"@) <==> (
                stats.keys().take(i as int).contains(b + "_more"@) || b + "_more"@ == ki) by {
                let k = b + "_more"@;
                if stats.keys().take(i + 1).contains(k) {
                    let j = choose|j: int| 0 <= j < i + 1 && #[trigger] stats.keys().take(i + 1)[j] == k;
                    if j < i {
                        assert(stats.keys().take(i as int)[j] == k);
                    }
                }
                if stats.keys().take(i as int).contains(k) {
                    let j = choose|j: int| 0 <= j < i && #[trigger] stats.keys().take(i as int)[j] == k;
                    assert(stats.keys().take(i + 1)[j] == k);
                }
                if k == ki {
                    assert(stats.keys().take(i + 1)[i as int] == k);
                }
            }
        }
        let k = &stats.entries[i].0;
        if ends_with_more(k) {
            let s = k.as_str();
            let len = s.unicode_len();
            let base = s.substring_char(0, len - 5).to_owned();
            proof {
                lemma_more_key_split(ki, base@);
            }
            let add = value_or_zero(stats, &base);
            let v = stats.entries[i].1;
            out.insert(base, combine_additive_and_more(add, v));
            proof {
                let target = Map::new(
                    |b: Seq<char>| stats.keys().take(i + 1).contains(b + "_more"@),
                    |b: Seq<char>| combine(value_of(stats@, b), stats@[b + "_more"@]),
                );
                assert forall|b: Seq<char>| #[trigger] out@.contains_key(b) == target.contains_key(b) by {
                    lemma_more_key_split(ki, b);
                }
                assert(out@ =~= target);
            }
        } else {
            proof {
                let target = Map::new(
                    |b: Seq<char>| stats.keys().take(i + 1).contains(b + "_more"@),
                    |b: Seq<char>| combine(value_of(stats@, b), stats@[b + "_more"@]),
                );
                assert forall|b: Seq<char>| #[trigger] out@.contains_key(b) == target.contains_key(b) by {
                    lemma_more_key_split(ki, b);
                }
                assert(out@ =~= target);
            }
        }
        i = i + 1;
    }
    proof {
        assert(stats.keys().take(n as int) =~= stats.keys());
        assert(out@ =~= combined_spec(stats@));
    }
    out
}

} // verus!
