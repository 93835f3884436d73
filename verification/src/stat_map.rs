//! Maps from stat keys to ranges, and the key and lookup helpers the
//! aggregation steps share.
use vstd::prelude::*;
use vstd::string::*;
use crate::keymap::KeyMap;
use crate::ranged::{combine, combine_additive_and_more, range_add, ranged_add, zero, Ranged};

verus! {

/// Stat key to total range.
pub type StatMap = KeyMap<Ranged>;

/// Attribute key to total range.
pub type AttrMap = KeyMap<Ranged>;

/// A set of keys (the values carry nothing).
pub type KeySet = KeyMap<()>;

/// The range under `k`, or zero when `k` is absent.
pub open spec fn value_of(m: Map<Seq<char>, Ranged>, k: Seq<char>) -> Ranged {
    if m.contains_key(k) {
        m[k]
    } else {
        zero()
    }
}

/// The range under `k` when `k` is given and present, zero otherwise.
pub open spec fn value_of_opt(m: Map<Seq<char>, Ranged>, k: Option<Seq<char>>) -> Ranged {
    match k {
        Some(key) => value_of(m, key),
        None => zero(),
    }
}

/// `m` with `v` added to the range under `k` (absent counts as zero).
pub open spec fn add_into_spec(m: Map<Seq<char>, Ranged>, k: Seq<char>, v: Ranged) -> Map<
    Seq<char>,
    Ranged,
> {
    m.insert(k, range_add(value_of(m, k), v))
}

/// `v` added under each key of `keys`, first key first.
pub open spec fn add_to_each(m: Map<Seq<char>, Ranged>, keys: Seq<Seq<char>>, v: Ranged) -> Map<
    Seq<char>,
    Ranged,
>
    decreases keys.len(),
{
    if keys.len() == 0 {
        m
    } else {
        add_into_spec(add_to_each(m, keys.drop_last(), v), keys.last(), v)
    }
}

/// The key of the multiplicative twin of `k`: `k` followed by `_more`.
pub open spec fn more_key(k: Seq<char>) -> Seq<char> {
    k + "_more"@
}

/// Each key followed by `_more`.
pub open spec fn more_keys(keys: Seq<Seq<char>>) -> Seq<Seq<char>> {
    keys.map_values(|k: Seq<char>| more_key(k))
}

/// The views of a list of strings.
pub open spec fn key_views(v: Seq<String>) -> Seq<Seq<char>> {
    v.map_values(|s: String| s@)
}

/// The string `s` as an owned key.
pub fn key(s: &str) -> (r: String)
    ensures
        r@ == s@,
{
    s.to_owned()
}

/// `k` followed by `_more`.
pub fn more_key_of(k: &String) -> (r: String)
    ensures
        r@ == more_key(k@),
{
    let mut s = k.clone();
    s.append("_more");
    s
}

/// Each key of `keys` followed by `_more`.
pub fn more_key_list(keys: &Vec<String>) -> (r: Vec<String>)
    ensures
        key_views(r@) == more_keys(key_views(keys@)),
{
    let mut w: Vec<String> = Vec::new();
    let n = keys.len();
    let mut i: usize = 0;
    while i < n
        invariant
            n == keys@.len(),
            i <= n,
            key_views(w@) == more_keys(key_views(keys@)).take(i as int),
        decreases n - i,
    {
        let k = more_key_of(&keys[i]);
        let ghost w_before = w@;
        w.push(k);
        proof {
            assert(key_views(keys@)[i as int] == keys@[i as int]@);
            assert(more_keys(key_views(keys@))[i as int] == more_key(keys@[i as int]@));
            assert(key_views(w@) =~= key_views(w_before).push(k@));
            assert(key_views(w@) =~= more_keys(key_views(keys@)).take(i + 1));
        }
        i = i + 1;
    }
    proof {
        assert(key_views(w@) =~= more_keys(key_views(keys@)));
    }
    w
}

/// `prefix` followed by `k`.
pub fn prefixed(prefix: &str, k: &String) -> (r: String)
    ensures
        r@ == prefix@ + k@,
{
    let mut s = prefix.to_owned();
    s.append(k.as_str());
    s
}

/// The range under `k`, zero when absent.
pub fn value_or_zero(m: &StatMap, k: &String) -> (r: Ranged)
    requires
        m.wf(),
    ensures
        r == value_of(m@, k@),
{
    match m.get(k) {
        Some(v) => *v,
        None => (0, 0),
    }
}

/// The range under `k` when `k` is given, zero otherwise.
pub fn value_or_zero_opt(m: &StatMap, k: Option<&str>) -> (r: Ranged)
    requires
        m.wf(),
    ensures
        r == value_of_opt(
            m@,
            match k {
                Some(s) => Some(s@),
                None => None,
            },
        ),
{
    match k {
        Some(s) => value_or_zero(m, &key(s)),
        None => (0, 0),
    }
}

/// Adds `v` to the range under `k` (absent counts as zero).
pub fn add_into(m: &mut StatMap, k: &String, v: Ranged)
    requires
        old(m).wf(),
    ensures
        final(m).wf(),
        final(m)@ == add_into_spec(old(m)@, k@, v),
{
    let cur = value_or_zero(m, k);
    m.insert(k.clone(), ranged_add(cur, v));
}

/// Adds `v` under each key of `keys`, in order.
pub fn add_to_each_key(m: &mut StatMap, keys: &Vec<String>, v: Ranged)
    requires
        old(m).wf(),
    ensures
        final(m).wf(),
        final(m)@ == add_to_each(old(m)@, key_views(keys@), v),
{
    let n = keys.len();
    let mut i: usize = 0;
    while i < n
        invariant
            n == keys@.len(),
            i <= n,
            m.wf(),
            m@ == add_to_each(old(m)@, key_views(keys@).take(i as int), v),
        decreases n - i,
    {
        proof {
            assert(key_views(keys@).take(i + 1).drop_last() =~= key_views(keys@).take(i as int));
        }
        add_into(m, &keys[i], v);
        i = i + 1;
    }
    proof {
        assert(key_views(keys@).take(n as int) =~= key_views(keys@));
    }
}

/// The multiplied stats whose `_more` twin is the "more" percent that the
/// multiplier pass has already applied to them.
pub open spec fn twin_applied(k: Seq<char>) -> bool {
    k == "mana_replenish"@ || k == "life_replenish"@
}

/// What a tree conversion reads from the stat `k`, once: a stat whose twin the
/// multiplier pass has applied as it stands (its fully multiplied value),
/// any other stat with its `_more` twin folded in.
pub open spec fn conversion_read(stats: Map<Seq<char>, Ranged>, k: Seq<char>) -> Ranged {
    if twin_applied(k) {
        value_of(stats, k)
    } else {
        combine(value_of(stats, k), value_of(stats, more_key(k)))
    }
}

/// The value a tree conversion reads from the stat `k`.
pub fn conversion_read_of(stats: &StatMap, k: &String) -> (r: Ranged)
    requires
        stats.wf(),
    ensures
        r == conversion_read(stats@, k@),
{
    let v = value_or_zero(stats, k);
    if *k == key("mana_replenish") || *k == key("life_replenish") {
        v
    } else {
        combine_additive_and_more(v, value_or_zero(stats, &more_key_of(k)))
    }
}

} // verus!
