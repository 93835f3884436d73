//! Equipped items as stat sources: defense, implicits and their overrides,
//! the main-hand attack rate, affixes, star-forged modifiers, a runeword or
//! the socketed gems and runes, and augments.
use vstd::prelude::*;
use vstd::string::*;
use crate::finalize::{contrib_view, lists_view, push_labelled, push_view, ContribView};
use crate::keymap::KeyMap;
use crate::ranged::{exact_multiplied_end, scale_end, scale_endpoint, zero, Ranged};
use crate::sources::{compute_item_effective_defense, Forge, SourceContribution, SourceMap, SourceType};
use crate::stat_defs::{StatDef, StatDefs};
use crate::stat_map::{key, KeySet};
use crate::text::{decimal, decimal_text};

verus! {

// ---------- data ----------

/// An item base from the game data.
pub struct ItemBase {
    pub name: String,
    /// Implicit stats (ranges in millionths).
    pub implicit: Option<KeyMap<Ranged>>,
    pub attack_speed: Option<Ranged>,
    pub defense_min: Option<i64>,
    pub defense_max: Option<i64>,
    /// The forge kind of the base's rarity, when it can be star-forged.
    pub forge_kind: Option<String>,
    /// Sockets (numbered from one) that are always rainbow.
    pub rainbow_sockets: Vec<u32>,
    /// Socketable id to the stats it gives in this base instead of its own.
    pub socket_transforms: KeyMap<KeyMap<i64>>,
}

/// An affix: its name and the stat it rolls.
pub struct AffixDef {
    pub name: String,
    pub stat_key: Option<String>,
}

/// A star-forge crystal modifier: its name, stat and rolled range.
pub struct CrystalMod {
    pub name: String,
    pub stat_key: Option<String>,
    pub range: Ranged,
}

/// A gem or rune: its name and stats.
pub struct Socketable {
    pub name: String,
    pub stats: KeyMap<i64>,
}

/// A runeword: its name and stats.
pub struct Runeword {
    pub name: String,
    pub stats: KeyMap<i64>,
}

/// An augment: its name and the stats of each level, level one first.
pub struct Augment {
    pub name: String,
    pub levels: Vec<KeyMap<i64>>,
}

/// The item tables the inventory reads.
pub struct ItemData {
    pub items: KeyMap<ItemBase>,
    pub affixes: KeyMap<AffixDef>,
    pub crystal_mods: KeyMap<CrystalMod>,
    pub socketables: KeyMap<Socketable>,
    pub augments: KeyMap<Augment>,
    /// The slots whose items can be star-forged this season.
    pub star_forge_slots: KeySet,
}

impl ItemData {
    pub open spec fn wf(&self) -> bool {
        &&& self.items.wf()
        &&& forall|k: Seq<char>|
            #![trigger self.items@[k]]
            self.items@.contains_key(k) ==> (self.items@[k].implicit matches Some(m) ==> m.wf())
                && self.items@[k].socket_transforms.wf()
        &&& self.affixes.wf()
        &&& self.crystal_mods.wf()
        &&& self.socketables.wf()
        &&& self.augments.wf()
        &&& self.star_forge_slots.wf()
    }
}

/// One rolled affix: a user value, or the roll as the affix data values it.
/// Stars count only in a slot that can be star-forged, so the roll is
/// given both at the item's stars and without them.
pub struct AffixRoll {
    pub affix_id: String,
    pub custom_value: Option<i64>,
    /// The rolled value at the item's stars.
    pub rolled: i64,
    /// The rolled value without stars.
    pub rolled_base: i64,
}

/// One star-forged modifier; without a user value it gives its rolled
/// range.
pub struct ForgedMod {
    pub affix_id: String,
    pub custom_value: Option<i64>,
}

#[derive(Clone, Copy, Debug, PartialEq, Eq, Structural)]
pub enum SocketType {
    Normal,
    Rainbow,
}

pub struct AugmentRef {
    pub id: String,
    pub level: u32,
}

/// An equipped item.
pub struct EquippedItem {
    pub base_id: String,
    /// User values that replace implicits.
    pub implicit_overrides: KeyMap<i64>,
    /// The base's implicits scaled by the item's stars, as the star data
    /// gives them; an implicit missing here is not scaled.  They count only
    /// where the item's stars do (see `implicits_scale`).
    pub star_scaled_implicit: KeyMap<Ranged>,
    pub affixes: Vec<AffixRoll>,
    pub forged_mods: Vec<ForgedMod>,
    /// The runeword its sockets form, as the rune data detects it.
    pub runeword: Option<Runeword>,
    pub socketed: Vec<Option<String>>,
    pub socket_types: Vec<SocketType>,
    pub augment: Option<AugmentRef>,
}

impl EquippedItem {
    pub open spec fn wf(&self) -> bool {
        &&& self.implicit_overrides.wf()
        &&& self.star_scaled_implicit.wf()
    }
}

/// A contribution waiting to be routed to its stat or attribute.
pub struct PendingContribution {
    pub key: String,
    pub contribution: SourceContribution,
}

pub type Pending = (Seq<char>, ContribView);

pub type Lists = Map<Seq<char>, Seq<ContribView>>;

pub open spec fn pending_view(p: PendingContribution) -> Pending {
    (p.key@, contrib_view(p.contribution))
}

pub open spec fn pendings_view(v: Seq<PendingContribution>) -> Seq<Pending> {
    v.map_values(|p: PendingContribution| pending_view(p))
}

// ---------- routing ----------

/// A non-zero contribution joins the attribute its stat raises, or the stat
/// itself; a zero one is dropped.
pub open spec fn contribute_spec(st: (Lists, Lists), defs: Map<Seq<char>, StatDef>, p: Pending) -> (Lists, Lists) {
    if p.1.2 == zero() {
        st
    } else if defs.contains_key(p.0) && defs[p.0].modifies_attribute is Some {
        (push_view(st.0, defs[p.0].modifies_attribute.unwrap()@, p.1), st.1)
    } else {
        (st.0, push_view(st.1, p.0, p.1))
    }
}

pub open spec fn contribute_all_spec(st: (Lists, Lists), defs: Map<Seq<char>, StatDef>, ps: Seq<Pending>) -> (
    Lists,
    Lists,
)
    decreases ps.len(),
{
    if ps.len() == 0 {
        st
    } else {
        contribute_spec(contribute_all_spec(st, defs, ps.drop_last()), defs, ps.last())
    }
}

/// Routes a contribution: nothing for a zero value; to the attribute that
/// `stat_key` raises when the stat definitions name one; to `stat_key`
/// otherwise.
pub fn apply_contribution(
    attr_sources: &mut SourceMap,
    stat_sources: &mut SourceMap,
    stat_key: &String,
    c: SourceContribution,
    defs: &StatDefs,
)
    requires
        old(attr_sources).wf(),
        old(stat_sources).wf(),
        defs.wf(),
    ensures
        final(attr_sources).wf(),
        final(stat_sources).wf(),
        (lists_view(final(attr_sources)), lists_view(final(stat_sources))) == contribute_spec(
            (lists_view(old(attr_sources)), lists_view(old(stat_sources))),
            defs@,
            (stat_key@, contrib_view(c)),
        ),
{
    if c.value.0 == 0 && c.value.1 == 0 {
        return;
    }
    match defs.get(stat_key) {
        Some(d) => match &d.modifies_attribute {
            Some(a) => {
                push_labelled(attr_sources, a, c);
                return;
            },
            None => {},
        },
        None => {},
    }
    push_labelled(stat_sources, stat_key, c);
}

fn apply_all(
    attr_sources: &mut SourceMap,
    stat_sources: &mut SourceMap,
    pending: Vec<PendingContribution>,
    defs: &StatDefs,
)
    requires
        old(attr_sources).wf(),
        old(stat_sources).wf(),
        defs.wf(),
    ensures
        final(attr_sources).wf(),
        final(stat_sources).wf(),
        (lists_view(final(attr_sources)), lists_view(final(stat_sources))) == contribute_all_spec(
            (lists_view(old(attr_sources)), lists_view(old(stat_sources))),
            defs@,
            pendings_view(pending@),
        ),
{
    let ghost start = (lists_view(attr_sources), lists_view(stat_sources));
    let ghost all = pendings_view(pending@);
    let ghost orig = pending@;
    let n = pending.len();
    let mut rest = pending;
    let mut i: usize = 0;
    proof {
        assert(rest@ =~= orig.skip(0));
    }
    while rest.len() > 0
        invariant
            attr_sources.wf(),
            stat_sources.wf(),
            defs.wf(),
            all == pendings_view(orig),
            n == orig.len(),
            i <= n,
            rest@ == orig.skip(i as int),
            (lists_view(attr_sources), lists_view(stat_sources)) == contribute_all_spec(start, defs@, all.take(i as int)),
        decreases rest@.len(),
    {
        let p = rest.remove(0);
        proof {
            assert(p == orig[i as int]);
            assert(all.take(i + 1).drop_last() =~= all.take(i as int));
            assert(all.take(i + 1).last() == pending_view(p));
            assert(rest@ =~= orig.skip(i + 1));
        }
        apply_contribution(attr_sources, stat_sources, &p.key, p.contribution, defs);
        i = i + 1;
    }
    proof {
        assert(i == orig.len());
        assert(all.take(i as int) =~= all);
    }
}

// ---------- what an item gives ----------

/// An offhand weapon's own attack rate never counts: the main hand alone
/// defines the base attack rate.
pub open spec fn skip_offhand_rate(slot: Seq<char>, k: Seq<char>) -> bool {
    slot == "offhand"@ && k == "attacks_per_second"@
}

pub open spec fn plain_cv(label: Seq<char>, t: SourceType, v: Ranged) -> ContribView {
    (label, t, v, None)
}

/// Whether the item's stars scale its implicits: no runeword forms in its
/// sockets and its slot can be star-forged.
pub open spec fn implicits_scale(item: EquippedItem, slot: Seq<char>, data: ItemData) -> bool {
    item.runeword is None && data.star_forge_slots@.contains_key(slot)
}

/// An affix's value: a user value wins; otherwise its roll at the item's
/// stars in a slot that can be star-forged, and without stars elsewhere.
pub open spec fn affix_value(roll: AffixRoll, stars: bool) -> i64 {
    match roll.custom_value {
        Some(c) => c,
        None => if stars {
            roll.rolled
        } else {
            roll.rolled_base
        },
    }
}

/// An implicit's value: a user override wins; otherwise the star-scaled
/// value when the implicit scales and one is given; otherwise the base
/// value.
pub open spec fn implicit_value(item: EquippedItem, k: Seq<char>, v: Ranged, scale: bool) -> Ranged {
    if item.implicit_overrides@.contains_key(k) {
        (item.implicit_overrides@[k], item.implicit_overrides@[k])
    } else if scale && item.star_scaled_implicit@.contains_key(k) {
        item.star_scaled_implicit@[k]
    } else {
        v
    }
}

pub open spec fn implicit_pendings(
    entries: Seq<(String, Ranged)>,
    slot: Seq<char>,
    item: EquippedItem,
    name: Seq<char>,
    scale: bool,
) -> Seq<Pending>
    decreases entries.len(),
{
    if entries.len() == 0 {
        Seq::empty()
    } else {
        let prev = implicit_pendings(entries.drop_last(), slot, item, name, scale);
        let e = entries.last();
        if skip_offhand_rate(slot, e.0@) {
            prev
        } else {
            prev.push((e.0@, plain_cv(name, SourceType::Item, implicit_value(item, e.0@, e.1, scale))))
        }
    }
}

/// User overrides of keys the base has no implicit for (enhanced defense
/// and an offhand's attack rate excepted).
pub open spec fn override_pendings(
    entries: Seq<(String, i64)>,
    slot: Seq<char>,
    implicit: Map<Seq<char>, Ranged>,
    name: Seq<char>,
) -> Seq<Pending>
    decreases entries.len(),
{
    if entries.len() == 0 {
        Seq::empty()
    } else {
        let prev = override_pendings(entries.drop_last(), slot, implicit, name);
        let e = entries.last();
        if implicit.contains_key(e.0@) || e.0@ == "enhanced_defense"@ || skip_offhand_rate(slot, e.0@) {
            prev
        } else {
            prev.push((e.0@, plain_cv(name, SourceType::Item, (e.1, e.1))))
        }
    }
}

/// Fixed values under one label, times one and a half for a rainbow
/// socket.
pub open spec fn fixed_pendings(entries: Seq<(String, i64)>, label: Seq<char>, t: SourceType, rainbow: bool) -> Seq<
    Pending,
>
    decreases entries.len(),
{
    if entries.len() == 0 {
        Seq::empty()
    } else {
        let e = entries.last();
        let v: i64 = if rainbow {
            scale_end(e.1 as int, 50_000_000) as i64
        } else {
            e.1
        };
        fixed_pendings(entries.drop_last(), label, t, rainbow).push((e.0@, plain_cv(label, t, (v, v))))
    }
}

/// Known affixes with a stat and a non-zero value, labelled `<affix>
/// (<item>)`.
pub open spec fn affix_pendings(
    rolls: Seq<AffixRoll>,
    affixes: Map<Seq<char>, AffixDef>,
    name: Seq<char>,
    stars: bool,
) -> Seq<Pending>
    decreases rolls.len(),
{
    if rolls.len() == 0 {
        Seq::empty()
    } else {
        let prev = affix_pendings(rolls.drop_last(), affixes, name, stars);
        let e = rolls.last();
        if !affixes.contains_key(e.affix_id@) {
            prev
        } else {
            let a = affixes[e.affix_id@];
            let v = affix_value(e, stars);
            match a.stat_key {
                Some(sk) => if v == 0 {
                    prev
                } else {
                    prev.push((sk@, plain_cv(a.name@ + " ("@ + name + ")"@, SourceType::Item, (v, v))))
                },
                None => prev,
            }
        }
    }
}

/// Known crystal modifiers with a stat and a non-zero range, labelled by
/// the modifier and carrying their forge record.
pub open spec fn forged_pendings(
    mods: Seq<ForgedMod>,
    crystal: Map<Seq<char>, CrystalMod>,
    name: Seq<char>,
    kind: Seq<char>,
) -> Seq<Pending>
    decreases mods.len(),
{
    if mods.len() == 0 {
        Seq::empty()
    } else {
        let prev = forged_pendings(mods.drop_last(), crystal, name, kind);
        let e = mods.last();
        if !crystal.contains_key(e.affix_id@) {
            prev
        } else {
            let m = crystal[e.affix_id@];
            let v: Ranged = match e.custom_value {
                Some(c) => (c, c),
                None => m.range,
            };
            match m.stat_key {
                Some(sk) => if v == zero() {
                    prev
                } else {
                    prev.push((sk@, (m.name@, SourceType::Item, v, Some((name, m.name@, kind)))))
                },
                None => prev,
            }
        }
    }
}

/// `<gem> in <item> #<n>`, with ` (Rainbow)` and ` (Transform)` as they
/// apply.
pub open spec fn socket_label(src: Seq<char>, item: Seq<char>, n: nat, rainbow: bool, transform: bool) -> Seq<char> {
    src + " in "@ + item + " #"@ + decimal(n) + (if rainbow {
        " (Rainbow)"@
    } else {
        Seq::empty()
    }) + (if transform {
        " (Transform)"@
    } else {
        Seq::empty()
    })
}

/// Socket `i` is rainbow by the item's socket types or by the base.
pub open spec fn is_rainbow(types: Seq<SocketType>, base: ItemBase, i: int) -> bool {
    (i < types.len() && types[i] == SocketType::Rainbow) || base.rainbow_sockets@.contains((i + 1) as u32)
}

/// What the socketed gems and runes give, socket by socket: the base's
/// transform of a socketable replaces its own stats, and a rainbow socket
/// gives one and a half times.
pub open spec fn socket_pendings(
    socketed: Seq<Option<String>>,
    types: Seq<SocketType>,
    base: ItemBase,
    socketables: Map<Seq<char>, Socketable>,
    name: Seq<char>,
) -> Seq<Pending>
    decreases socketed.len(),
{
    if socketed.len() == 0 {
        Seq::empty()
    } else {
        let prev = socket_pendings(socketed.drop_last(), types, base, socketables, name);
        let i = socketed.len() - 1;
        match socketed.last() {
            None => prev,
            Some(id) => if !socketables.contains_key(id@) {
                prev
            } else {
                let src = socketables[id@];
                let rainbow = is_rainbow(types, base, i);
                let transform = base.socket_transforms@.contains_key(id@);
                let stats = if transform {
                    base.socket_transforms@[id@]
                } else {
                    src.stats
                };
                prev + fixed_pendings(
                    stats.entries@,
                    socket_label(src.name@, name, (i + 1) as nat, rainbow, transform),
                    SourceType::Socket,
                    rainbow,
                )
            },
        }
    }
}

/// The augment level used: the item's level held to `1 ..= levels`.
pub open spec fn augment_level(level: u32, levels: nat) -> nat {
    if level < 1 {
        1
    } else if level > levels {
        levels
    } else {
        level as nat
    }
}

/// A known augment with levels gives the stats of its level, labelled
/// `Augment: <name> Lv <level> (<item>)`.
pub open spec fn augment_pendings(item: EquippedItem, augments: Map<Seq<char>, Augment>, name: Seq<char>) -> Seq<
    Pending,
> {
    match item.augment {
        None => Seq::empty(),
        Some(r) => if !augments.contains_key(r.id@) || augments[r.id@].levels@.len() == 0 {
            Seq::empty()
        } else {
            let a = augments[r.id@];
            let lvl = augment_level(r.level, a.levels@.len());
            fixed_pendings(
                a.levels@[lvl - 1].entries@,
                "Augment: "@ + a.name@ + " Lv "@ + decimal(lvl) + " ("@ + name + ")"@,
                SourceType::Item,
                false,
            )
        },
    }
}

pub open spec fn implicit_map(o: Option<KeyMap<Ranged>>) -> Map<Seq<char>, Ranged> {
    match o {
        Some(m) => m@,
        None => Map::empty(),
    }
}

pub open spec fn base_implicit(base: ItemBase) -> Map<Seq<char>, Ranged> {
    implicit_map(base.implicit)
}

pub open spec fn base_implicit_entries(base: ItemBase) -> Seq<(String, Ranged)> {
    match base.implicit {
        Some(m) => m.entries@,
        None => Seq::empty(),
    }
}

/// Everything an item gives besides its defense, in order: implicits,
/// overrides, the main hand's own attack rate, affixes (valued at the
/// item's stars only when the slot can be star-forged), forged modifiers
/// (only when the slot can be star-forged and the base has a forge kind),
/// the runeword or else the sockets, and the augment.
pub open spec fn item_pendings(slot: Seq<char>, item: EquippedItem, base: ItemBase, data: ItemData) -> Seq<Pending> {
    let name = base.name@;
    let scale = implicits_scale(item, slot, data);
    let can_sf = data.star_forge_slots@.contains_key(slot);
    let aps_in = base_implicit(base).contains_key("attacks_per_second"@);
    let implicit = implicit_pendings(base_implicit_entries(base), slot, item, name, scale);
    let overrides = override_pendings(item.implicit_overrides.entries@, slot, base_implicit(base), name);
    let rate = if slot == "weapon"@ && !aps_in && base.attack_speed is Some {
        seq![("attacks_per_second"@, plain_cv(name, SourceType::Item, base.attack_speed.unwrap()))]
    } else {
        Seq::empty()
    };
    let affixes = affix_pendings(item.affixes@, data.affixes@, name, can_sf);
    let forged = if can_sf && base.forge_kind is Some {
        forged_pendings(item.forged_mods@, data.crystal_mods@, name, base.forge_kind.unwrap()@)
    } else {
        Seq::empty()
    };
    let sockets = match item.runeword {
        Some(rw) => fixed_pendings(rw.stats.entries@, rw.name@ + " ("@ + name + ")"@, SourceType::Item, false),
        None => socket_pendings(item.socketed@, item.socket_types@, base, data.socketables@, name),
    };
    implicit + overrides + rate + affixes + forged + sockets + augment_pendings(item, data.augments@, name)
}

/// The enhanced-defense percent that scales the base defense: an override,
/// else the implicit (star-scaled when `scale` and a value is given).
pub open spec fn enhanced_defense_spec(item: EquippedItem, base: ItemBase, scale: bool) -> Option<Ranged> {
    let k = "enhanced_defense"@;
    if item.implicit_overrides@.contains_key(k) {
        Some((item.implicit_overrides@[k], item.implicit_overrides@[k]))
    } else if base_implicit(base).contains_key(k) {
        Some(implicit_value(item, k, base_implicit(base)[k], scale))
    } else {
        None
    }
}

/// The item's effective defense: both base endpoints scaled by the
/// enhanced-defense percent and rounded down; none without both.
pub open spec fn defense_spec(item: EquippedItem, base: ItemBase, scale: bool) -> Option<Ranged> {
    match (base.defense_min, base.defense_max) {
        (Some(lo), Some(hi)) => {
            let ed = match enhanced_defense_spec(item, base, scale) {
                Some(e) => e,
                None => zero(),
            };
            Some(
                (
                    exact_multiplied_end(lo as int, ed.0 as int, 0, true) as i64,
                    exact_multiplied_end(hi as int, ed.1 as int, 0, true) as i64,
                ),
            )
        },
        _ => None,
    }
}

/// Attribute sources, stat sources and whether the main hand has its own
/// attack rate.
pub type InventoryState = (Lists, Lists, bool);

/// One equipped item: nothing when its base is unknown; otherwise its
/// non-zero defense as a stat source, then everything else routed, and the
/// main-hand flag raised when the weapon slot's base has an attack rate.
pub open spec fn item_step(
    st: InventoryState,
    slot: Seq<char>,
    item: EquippedItem,
    data: ItemData,
    defs: Map<Seq<char>, StatDef>,
) -> InventoryState {
    if !data.items@.contains_key(item.base_id@) {
        st
    } else {
        let base = data.items@[item.base_id@];
        let aps_in = base_implicit(base).contains_key("attacks_per_second"@);
        let flag = st.2 || (slot == "weapon"@ && (aps_in || base.attack_speed is Some));
        let stats1 = match defense_spec(item, base, implicits_scale(item, slot, data)) {
            Some(eff) => if eff == zero() {
                st.1
            } else {
                push_view(st.1, "defense"@, plain_cv(base.name@, SourceType::Item, eff))
            },
            None => st.1,
        };
        let routed = contribute_all_spec((st.0, stats1), defs, item_pendings(slot, item, base, data));
        (routed.0, routed.1, flag)
    }
}

pub open spec fn inventory_spec(
    st: InventoryState,
    entries: Seq<(String, EquippedItem)>,
    data: ItemData,
    defs: Map<Seq<char>, StatDef>,
) -> InventoryState
    decreases entries.len(),
{
    if entries.len() == 0 {
        st
    } else {
        let prev = inventory_spec(st, entries.drop_last(), data, defs);
        item_step(prev, entries.last().0@, entries.last().1, data, defs)
    }
}

// ---------- building an item's contributions ----------

fn plain_pending(k: &String, label: &String, t: SourceType, v: Ranged) -> (p: PendingContribution)
    ensures
        pending_view(p) == (k@, plain_cv(label@, t, v)),
{
    PendingContribution {
        key: k.clone(),
        contribution: SourceContribution { label: label.clone(), source_type: t, value: v, forge: None },
    }
}

proof fn lemma_push_view(out: Seq<PendingContribution>, p: PendingContribution)
    ensures
        pendings_view(out.push(p)) == pendings_view(out).push(pending_view(p)),
{
    assert(pendings_view(out.push(p)) =~= pendings_view(out).push(pending_view(p)));
}

proof fn lemma_append_push(a: Seq<Pending>, b: Seq<Pending>, x: Pending)
    ensures
        (a + b).push(x) == a + b.push(x),
{
    assert((a + b).push(x) =~= a + b.push(x));
}

fn push_implicit(
    out: &mut Vec<PendingContribution>,
    entries: &Vec<(String, Ranged)>,
    slot: &String,
    item: &EquippedItem,
    name: &String,
    scale: bool,
)
    requires
        item.wf(),
    ensures
        pendings_view(final(out)@) == pendings_view(old(out)@) + implicit_pendings(entries@, slot@, *item, name@, scale),
{
    let ghost start = pendings_view(out@);
    let n = entries.len();
    let mut i: usize = 0;
    proof {
        assert(start + Seq::<Pending>::empty() =~= start);
    }
    while i < n
        invariant
            n == entries@.len(),
            i <= n,
            item.wf(),
            pendings_view(out@) == start + implicit_pendings(entries@.take(i as int), slot@, *item, name@, scale),
        decreases n - i,
    {
        proof {
            assert(entries@.take(i + 1).drop_last() =~= entries@.take(i as int));
        }
        let k = &entries[i].0;
        let skip = *slot == key("offhand") && *k == key("attacks_per_second");
        if !skip {
            let v: Ranged = match item.implicit_overrides.get(k) {
                Some(ov) => (*ov, *ov),
                None => if scale {
                    match item.star_scaled_implicit.get(k) {
                        Some(sv) => *sv,
                        None => entries[i].1,
                    }
                } else {
                    entries[i].1
                },
            };
            let p = plain_pending(k, name, SourceType::Item, v);
            let ghost before = out@;
            out.push(p);
            proof {
                lemma_push_view(before, p);
                lemma_append_push(
                    start,
                    implicit_pendings(entries@.take(i as int), slot@, *item, name@, scale),
                    pending_view(p),
                );
            }
        }
        i = i + 1;
    }
    proof {
        assert(entries@.take(n as int) =~= entries@);
    }
}

fn push_overrides(
    out: &mut Vec<PendingContribution>,
    item: &EquippedItem,
    slot: &String,
    implicit: &Option<KeyMap<Ranged>>,
    name: &String,
)
    requires
        item.wf(),
        implicit matches Some(m) ==> m.wf(),
    ensures
        pendings_view(final(out)@) == pendings_view(old(out)@) + override_pendings(
            item.implicit_overrides.entries@,
            slot@,
            implicit_map(*implicit),
            name@,
        ),
{
    let ghost imp = implicit_map(*implicit);
    let ghost start = pendings_view(out@);
    let entries = &item.implicit_overrides.entries;
    let n = entries.len();
    let mut i: usize = 0;
    proof {
        assert(start + Seq::<Pending>::empty() =~= start);
    }
    while i < n
        invariant
            n == entries@.len(),
            entries == &item.implicit_overrides.entries,
            i <= n,
            implicit matches Some(m) ==> m.wf(),
            imp == implicit_map(*implicit),
            pendings_view(out@) == start + override_pendings(entries@.take(i as int), slot@, imp, name@),
        decreases n - i,
    {
        proof {
            assert(entries@.take(i + 1).drop_last() =~= entries@.take(i as int));
        }
        let k = &entries[i].0;
        let in_implicit = match implicit {
            Some(m) => m.contains_key(k),
            None => false,
        };
        let skip = in_implicit || *k == key("enhanced_defense") || (*slot == key("offhand") && *k == key(
            "attacks_per_second",
        ));
        if !skip {
            let v = entries[i].1;
            let p = plain_pending(k, name, SourceType::Item, (v, v));
            let ghost before = out@;
            out.push(p);
            proof {
                lemma_push_view(before, p);
                lemma_append_push(start, override_pendings(entries@.take(i as int), slot@, imp, name@), pending_view(p));
            }
        }
        i = i + 1;
    }
    proof {
        assert(entries@.take(n as int) =~= entries@);
    }
}

fn push_fixed(
    out: &mut Vec<PendingContribution>,
    entries: &Vec<(String, i64)>,
    label: &String,
    t: SourceType,
    rainbow: bool,
)
    ensures
        pendings_view(final(out)@) == pendings_view(old(out)@) + fixed_pendings(entries@, label@, t, rainbow),
{
    let ghost start = pendings_view(out@);
    let n = entries.len();
    let mut i: usize = 0;
    proof {
        assert(start + Seq::<Pending>::empty() =~= start);
    }
    while i < n
        invariant
            n == entries@.len(),
            i <= n,
            pendings_view(out@) == start + fixed_pendings(entries@.take(i as int), label@, t, rainbow),
        decreases n - i,
    {
        proof {
            assert(entries@.take(i + 1).drop_last() =~= entries@.take(i as int));
        }
        let raw = entries[i].1;
        let v: i64 = if rainbow {
            scale_endpoint(raw, 50_000_000)
        } else {
            raw
        };
        let p = plain_pending(&entries[i].0, label, t, (v, v));
        let ghost before = out@;
        out.push(p);
        proof {
            lemma_push_view(before, p);
            lemma_append_push(start, fixed_pendings(entries@.take(i as int), label@, t, rainbow), pending_view(p));
        }
        i = i + 1;
    }
    proof {
        assert(entries@.take(n as int) =~= entries@);
    }
}

fn push_affixes(
    out: &mut Vec<PendingContribution>,
    rolls: &Vec<AffixRoll>,
    affixes: &KeyMap<AffixDef>,
    name: &String,
    stars: bool,
)
    requires
        affixes.wf(),
    ensures
        pendings_view(final(out)@) == pendings_view(old(out)@) + affix_pendings(rolls@, affixes@, name@, stars),
{
    let ghost start = pendings_view(out@);
    let n = rolls.len();
    let mut i: usize = 0;
    proof {
        assert(start + Seq::<Pending>::empty() =~= start);
    }
    while i < n
        invariant
            n == rolls@.len(),
            i <= n,
            affixes.wf(),
            pendings_view(out@) == start + affix_pendings(rolls@.take(i as int), affixes@, name@, stars),
        decreases n - i,
    {
        proof {
            assert(rolls@.take(i + 1).drop_last() =~= rolls@.take(i as int));
        }
        let e = &rolls[i];
        if let Some(a) = affixes.get(&e.affix_id) {
            if let Some(sk) = &a.stat_key {
                let v = match e.custom_value {
                    Some(c) => c,
                    None => if stars {
                        e.rolled
                    } else {
                        e.rolled_base
                    },
                };
                if v != 0 {
                    let mut label = a.name.clone();
                    label.append(" (");
                    label.append(name.as_str());
                    label.append(")");
                    let p = plain_pending(sk, &label, SourceType::Item, (v, v));
                    let ghost before = out@;
                    out.push(p);
                    proof {
                        lemma_push_view(before, p);
                        lemma_append_push(start, affix_pendings(rolls@.take(i as int), affixes@, name@, stars), pending_view(p));
                    }
                }
            }
        }
        i = i + 1;
    }
    proof {
        assert(rolls@.take(n as int) =~= rolls@);
    }
}

fn push_forged(
    out: &mut Vec<PendingContribution>,
    mods: &Vec<ForgedMod>,
    crystal: &KeyMap<CrystalMod>,
    name: &String,
    kind: &String,
)
    requires
        crystal.wf(),
    ensures
        pendings_view(final(out)@) == pendings_view(old(out)@) + forged_pendings(mods@, crystal@, name@, kind@),
{
    let ghost start = pendings_view(out@);
    let n = mods.len();
    let mut i: usize = 0;
    proof {
        assert(start + Seq::<Pending>::empty() =~= start);
    }
    while i < n
        invariant
            n == mods@.len(),
            i <= n,
            crystal.wf(),
            pendings_view(out@) == start + forged_pendings(mods@.take(i as int), crystal@, name@, kind@),
        decreases n - i,
    {
        proof {
            assert(mods@.take(i + 1).drop_last() =~= mods@.take(i as int));
        }
        let e = &mods[i];
        if let Some(m) = crystal.get(&e.affix_id) {
            if let Some(sk) = &m.stat_key {
                let v: Ranged = match e.custom_value {
                    Some(c) => (c, c),
                    None => m.range,
                };
                if !(v.0 == 0 && v.1 == 0) {
                    let forge = Forge { item_name: name.clone(), mod_name: m.name.clone(), kind: kind.clone() };
                    let p = PendingContribution {
                        key: sk.clone(),
                        contribution: SourceContribution {
                            label: m.name.clone(),
                            source_type: SourceType::Item,
                            value: v,
                            forge: Some(forge),
                        },
                    };
                    let ghost before = out@;
                    out.push(p);
                    proof {
                        lemma_push_view(before, p);
                        lemma_append_push(start, forged_pendings(mods@.take(i as int), crystal@, name@, kind@), pending_view(p));
                    }
                }
            }
        }
        i = i + 1;
    }
    proof {
        assert(mods@.take(n as int) =~= mods@);
    }
}

fn contains_number(v: &Vec<u32>, x: u32) -> (b: bool)
    ensures
        b == v@.contains(x),
{
    let n = v.len();
    let mut i: usize = 0;
    while i < n
        invariant
            n == v@.len(),
            i <= n,
            forall|j: int| 0 <= j < i ==> v@[j] != x,
        decreases n - i,
    {
        if v[i] == x {
            return true;
        }
        i = i + 1;
    }
    false
}

fn push_sockets(
    out: &mut Vec<PendingContribution>,
    item: &EquippedItem,
    base: &ItemBase,
    socketables: &KeyMap<Socketable>,
    name: &String,
)
    requires
        socketables.wf(),
        base.socket_transforms.wf(),
    ensures
        pendings_view(final(out)@) == pendings_view(old(out)@) + socket_pendings(
            item.socketed@,
            item.socket_types@,
            *base,
            socketables@,
            name@,
        ),
{
    proof {
        reveal_strlit(" (Rainbow)");
        reveal_strlit(" (Transform)");
    }
    let ghost start = pendings_view(out@);
    let n = item.socketed.len();
    let mut i: usize = 0;
    proof {
        assert(start + Seq::<Pending>::empty() =~= start);
    }
    while i < n
        invariant
            n == item.socketed@.len(),
            i <= n,
            socketables.wf(),
            base.socket_transforms.wf(),
            pendings_view(out@) == start + socket_pendings(
                item.socketed@.take(i as int),
                item.socket_types@,
                *base,
                socketables@,
                name@,
            ),
        decreases n - i,
    {
        let ghost prev = socket_pendings(item.socketed@.take(i as int), item.socket_types@, *base, socketables@, name@);
        proof {
            assert(item.socketed@.take(i + 1).drop_last() =~= item.socketed@.take(i as int));
            assert(item.socketed@.take(i + 1).last() == item.socketed@[i as int]);
        }
        match &item.socketed[i] {
            None => {},
            Some(id) => match socketables.get(id) {
                None => {},
                Some(src) => {
                    let rainbow = (i < item.socket_types.len() && item.socket_types[i] == SocketType::Rainbow)
                        || contains_number(&base.rainbow_sockets, (i + 1) as u32);
                    let transform = base.socket_transforms.get(id);
                    let mut label = src.name.clone();
                    label.append(" in ");
                    label.append(name.as_str());
                    label.append(" #");
                    label.append(decimal_text((i + 1) as u64).as_str());
                    if rainbow {
                        label.append(" (Rainbow)");
                    }
                    if transform.is_some() {
                        label.append(" (Transform)");
                    }
                    proof {
                        assert(label@ =~= socket_label(src.name@, name@, (i + 1) as nat, rainbow, transform is Some));
                    }
                    let ghost mid = pendings_view(out@);
                    match transform {
                        Some(t) => push_fixed(out, &t.entries, &label, SourceType::Socket, rainbow),
                        None => push_fixed(out, &src.stats.entries, &label, SourceType::Socket, rainbow),
                    }
                    proof {
                        let f = fixed_pendings(
                            (if transform is Some {
                                base.socket_transforms@[id@]
                            } else {
                                src.stats
                            }).entries@,
                            label@,
                            SourceType::Socket,
                            rainbow,
                        );
                        assert(start + prev + f =~= start + (prev + f));
                    }
                },
            },
        }
        i = i + 1;
    }
    proof {
        assert(item.socketed@.take(n as int) =~= item.socketed@);
    }
}

fn enhanced_defense_of(item: &EquippedItem, base: &ItemBase, scale: bool) -> (r: Option<Ranged>)
    requires
        item.wf(),
        base.implicit matches Some(m) ==> m.wf(),
    ensures
        r == enhanced_defense_spec(*item, *base, scale),
{
    let k = key("enhanced_defense");
    if let Some(ov) = item.implicit_overrides.get(&k) {
        return Some((*ov, *ov));
    }
    match &base.implicit {
        Some(m) => match m.get(&k) {
            Some(raw) => {
                if scale {
                    if let Some(sv) = item.star_scaled_implicit.get(&k) {
                        return Some(*sv);
                    }
                }
                Some(*raw)
            },
            None => None,
        },
        None => None,
    }
}

#[verifier::rlimit(40)]
fn item_pending_list(slot: &String, item: &EquippedItem, base: &ItemBase, data: &ItemData) -> (v: Vec<
    PendingContribution,
>)
    requires
        item.wf(),
        data.wf(),
        base.implicit matches Some(m) ==> m.wf(),
        base.socket_transforms.wf(),
    ensures
        pendings_view(v@) == item_pendings(slot@, *item, *base, *data),
{
    let name = &base.name;
    let can_sf = data.star_forge_slots.contains_key(slot);
    let scale = item.runeword.is_none() && can_sf;
    let mut out: Vec<PendingContribution> = Vec::new();
    proof {
        assert(pendings_view(out@) =~= Seq::<Pending>::empty());
    }
    match &base.implicit {
        Some(m) => push_implicit(&mut out, &m.entries, slot, item, name, scale),
        None => {},
    }
    let ghost p1 = pendings_view(out@);
    proof {
        assert(p1 =~= implicit_pendings(base_implicit_entries(*base), slot@, *item, name@, scale));
    }
    push_overrides(&mut out, item, slot, &base.implicit, name);
    let ghost p2 = pendings_view(out@);
    let aps_in = match &base.implicit {
        Some(m) => m.contains_key(&key("attacks_per_second")),
        None => false,
    };
    if *slot == key("weapon") && !aps_in {
        if let Some(aps) = base.attack_speed {
            let p = plain_pending(&key("attacks_per_second"), name, SourceType::Item, aps);
            let ghost before = out@;
            out.push(p);
            proof {
                lemma_push_view(before, p);
            }
        }
    }
    let ghost p3 = pendings_view(out@);
    push_affixes(&mut out, &item.affixes, &data.affixes, name, can_sf);
    let ghost p4 = pendings_view(out@);
    if can_sf {
        if let Some(kind) = &base.forge_kind {
            push_forged(&mut out, &item.forged_mods, &data.crystal_mods, name, kind);
        }
    }
    let ghost p5 = pendings_view(out@);
    match &item.runeword {
        Some(rw) => {
            let mut label = rw.name.clone();
            label.append(" (");
            label.append(name.as_str());
            label.append(")");
            push_fixed(&mut out, &rw.stats.entries, &label, SourceType::Item, false);
        },
        None => push_sockets(&mut out, item, base, &data.socketables, name),
    }
    let ghost p6 = pendings_view(out@);
    match &item.augment {
        Some(r) => match data.augments.get(&r.id) {
            Some(a) => {
                let len = a.levels.len();
                if len > 0 {
                    let lvl: usize = if r.level < 1 {
                        1
                    } else if (r.level as u64) > (len as u64) {
                        len
                    } else {
                        r.level as usize
                    };
                    let mut label = key("Augment: ");
                    label.append(a.name.as_str());
                    label.append(" Lv ");
                    label.append(decimal_text(lvl as u64).as_str());
                    label.append(" (");
                    label.append(name.as_str());
                    label.append(")");
                    proof {
                        assert(lvl == augment_level(r.level, a.levels@.len()));
                    }
                    push_fixed(&mut out, &a.levels[lvl - 1].entries, &label, SourceType::Item, false);
                }
            },
            None => {},
        },
        None => {},
    }
    proof {
        assert(pendings_view(out@) =~= item_pendings(slot@, *item, *base, *data));
    }
    out
}

fn apply_item(
    slot: &String,
    item: &EquippedItem,
    data: &ItemData,
    attr_sources: &mut SourceMap,
    stat_sources: &mut SourceMap,
    defs: &StatDefs,
    flag: bool,
) -> (r: bool)
    requires
        item.wf(),
        data.wf(),
        old(attr_sources).wf(),
        old(stat_sources).wf(),
        defs.wf(),
    ensures
        final(attr_sources).wf(),
        final(stat_sources).wf(),
        (lists_view(final(attr_sources)), lists_view(final(stat_sources)), r) == item_step(
            (lists_view(old(attr_sources)), lists_view(old(stat_sources)), flag),
            slot@,
            *item,
            *data,
            defs@,
        ),
{
    let base = match data.items.get(&item.base_id) {
        Some(b) => b,
        None => {
            return flag;
        },
    };
    let aps_in = match &base.implicit {
        Some(m) => m.contains_key(&key("attacks_per_second")),
        None => false,
    };
    let new_flag = flag || (*slot == key("weapon") && (aps_in || base.attack_speed.is_some()));
    let scale = item.runeword.is_none() && data.star_forge_slots.contains_key(slot);
    let ed = enhanced_defense_of(item, base, scale);
    match compute_item_effective_defense(base.defense_min, base.defense_max, ed) {
        Some(eff) => {
            if !(eff.0 == 0 && eff.1 == 0) {
                let c = SourceContribution { label: base.name.clone(), source_type: SourceType::Item, value: eff, forge: None };
                push_labelled(stat_sources, &key("defense"), c);
            }
        },
        None => {},
    }
    let pending = item_pending_list(slot, item, base, data);
    apply_all(attr_sources, stat_sources, pending, defs);
    new_flag
}

/// Pushes what every equipped item gives, slot by slot in entry order:
/// an item whose base is unknown gives nothing; otherwise its defense
/// (scaled by enhanced defense and rounded down) when non-zero, then its
/// implicits (a user override wins; star-scaled only in a slot that can be
/// star-forged and unless a runeword forms), overrides of keys the base
/// lacks, the weapon's own attack rate when its implicits have none,
/// affixes (at the item's stars only in a slot that can be star-forged),
/// star-forged modifiers (only in a slot that
/// can be star-forged, for a base with a forge kind), the runeword's stats
/// or else each socket's (a base transform replaces the socketable's
/// stats; a rainbow socket gives one and a half times), and the augment's
/// level stats (the level held to the augment's levels).  Every
/// contribution is routed by `apply_contribution`.  An offhand's own attack
/// rate never counts.  Returns whether the weapon slot's base has an attack
/// rate; without one the caller uses the default rate.
pub fn apply_inventory(
    inventory: &KeyMap<EquippedItem>,
    items: &ItemData,
    attr_sources: &mut SourceMap,
    stat_sources: &mut SourceMap,
    defs: &StatDefs,
) -> (weapon_has_attack_speed: bool)
    requires
        forall|i: int| 0 <= i < inventory.entries@.len() ==> (#[trigger] inventory.entries@[i]).1.wf(),
        items.wf(),
        old(attr_sources).wf(),
        old(stat_sources).wf(),
        defs.wf(),
    ensures
        final(attr_sources).wf(),
        final(stat_sources).wf(),
        (lists_view(final(attr_sources)), lists_view(final(stat_sources)), weapon_has_attack_speed)
            == inventory_spec(
            (lists_view(old(attr_sources)), lists_view(old(stat_sources)), false),
            inventory.entries@,
            *items,
            defs@,
        ),
{
    let ghost start: InventoryState = (lists_view(attr_sources), lists_view(stat_sources), false);
    let mut flag = false;
    let n = inventory.entries.len();
    let mut i: usize = 0;
    while i < n
        invariant
            n == inventory.entries@.len(),
            i <= n,
            forall|j: int| 0 <= j < inventory.entries@.len() ==> (#[trigger] inventory.entries@[j]).1.wf(),
            items.wf(),
            attr_sources.wf(),
            stat_sources.wf(),
            defs.wf(),
            (lists_view(attr_sources), lists_view(stat_sources), flag) == inventory_spec(
                start,
                inventory.entries@.take(i as int),
                *items,
                defs@,
            ),
        decreases n - i,
    {
        proof {
            assert(inventory.entries@.take(i + 1).drop_last() =~= inventory.entries@.take(i as int));
            assert(inventory.entries@[i as int].1.wf());
        }
        flag = apply_item(
            &inventory.entries[i].0,
            &inventory.entries[i].1,
            items,
            attr_sources,
            stat_sources,
            defs,
            flag,
        );
        i = i + 1;
    }
    proof {
        assert(inventory.entries@.take(n as int) =~= inventory.entries@);
    }
    flag
}

} // verus!
