//! Stat definitions from the game config: display names and formats.
use vstd::prelude::*;
use vstd::string::*;
use crate::keymap::KeyMap;
use crate::sources::{is_more_key, strip_more};
use crate::stat_map::key;

verus! {

/// A stat as the game config defines it.
pub struct StatDef {
    pub key: String,
    pub name: String,
    /// `Some("percent")` for percent stats.
    pub format: Option<String>,
    /// The attribute this stat raises (`to_strength` raises `strength`).
    pub modifies_attribute: Option<String>,
}

/// Stat key to definition.
pub type StatDefs = KeyMap<StatDef>;

/// The definition of `k`; for an undefined `X_more`, the definition of `X`.
pub open spec fn stat_def_spec(defs: Map<Seq<char>, StatDef>, k: Seq<char>) -> Option<StatDef> {
    if defs.contains_key(k) {
        Some(defs[k])
    } else if is_more_key(k) && defs.contains_key(strip_more(k)) {
        Some(defs[strip_more(k)])
    } else {
        None
    }
}

/// `k` without a trailing `_more`, when it has one.
pub fn strip_more_suffix(k: &str) -> (r: Option<String>)
    ensures
        r matches Some(b) ==> is_more_key(k@) && b@ == strip_more(k@),
        r is None ==> !is_more_key(k@),
{
    let n = k.unicode_len();
    if n < 5 {
        return None;
    }
    let tail = k.substring_char(n - 5, n).to_owned();
    if tail == key("_more") {
        Some(k.substring_char(0, n - 5).to_owned())
    } else {
        None
    }
}

/// Looks up the definition of `k`, falling back to the base stat for an
/// undefined `_more` key.
pub fn stat_def<'a>(defs: &'a StatDefs, k: &str) -> (r: Option<&'a StatDef>)
    requires
        defs.wf(),
    ensures
        r == match stat_def_spec(defs@, k@) {
            Some(d) => Some(&d),
            None => None::<&StatDef>,
        },
{
    let owned = key(k);
    match defs.get(&owned) {
        Some(d) => Some(d),
        None => match strip_more_suffix(k) {
            Some(base) => defs.get(&base),
            None => None,
        },
    }
}

/// `Total ` followed by `name`.
pub open spec fn total_name(name: Seq<char>) -> Seq<char> {
    "Total "@ + name
}

/// The display name of `k`: its definition's name, `Total <name>` for a
/// `_more` key that borrows its base's definition, or `k` itself when
/// undefined.
pub open spec fn stat_name_spec(defs: Map<Seq<char>, StatDef>, k: Seq<char>) -> Seq<char> {
    match stat_def_spec(defs, k) {
        Some(d) => if is_more_key(k) && d.key@ != k {
            total_name(d.name@)
        } else {
            d.name@
        },
        None => k,
    }
}

/// The display name of a stat key.
pub fn stat_name(defs: &StatDefs, k: &str) -> (r: String)
    requires
        defs.wf(),
    ensures
        r@ == stat_name_spec(defs@, k@),
{
    match stat_def(defs, k) {
        Some(d) => {
            let more = strip_more_suffix(k).is_some();
            if more && !(d.key == key(k)) {
                let mut s = key("Total ");
                s.append(d.name.as_str());
                s
            } else {
                d.name.clone()
            }
        },
        None => key(k),
    }
}

/// The display name the breakdown shows: the exact definition's name,
/// `Total <name>` for `X_more` when only `X` is defined, or the key itself.
pub open spec fn resolved_name_spec(defs: Map<Seq<char>, StatDef>, k: Seq<char>) -> Seq<char> {
    if defs.contains_key(k) {
        defs[k].name@
    } else if is_more_key(k) && defs.contains_key(strip_more(k)) {
        total_name(defs[strip_more(k)].name@)
    } else {
        k
    }
}

/// The breakdown's display name of a stat key.
pub fn resolved_stat_name(defs: &StatDefs, stat_key: &str) -> (r: String)
    requires
        defs.wf(),
    ensures
        r@ == resolved_name_spec(defs@, stat_key@),
{
    if let Some(def) = defs.get(&key(stat_key)) {
        return def.name.clone();
    }
    if let Some(base) = strip_more_suffix(stat_key) {
        if let Some(def) = defs.get(&base) {
            let mut s = key("Total ");
            s.append(def.name.as_str());
            return s;
        }
    }
    key(stat_key)
}

} // verus!
