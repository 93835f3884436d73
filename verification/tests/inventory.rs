use engine::inventory::{
    apply_contribution, apply_inventory, AffixDef, AffixRoll, Augment, AugmentRef, CrystalMod, EquippedItem, ForgedMod,
    ItemBase, ItemData, Runeword, SocketType, Socketable,
};
use engine::keymap::KeyMap;
use engine::ranged::Ranged;
use engine::sources::{sum_contributions, SourceContribution, SourceMap, SourceType};
use engine::stat_defs::{StatDef, StatDefs};
use engine::stat_map::KeySet;

fn p(x: f64) -> i64 {
    (x * 1_000_000.0).round() as i64
}

fn r(a: f64, b: f64) -> Ranged {
    (p(a), p(b))
}

fn k(s: &str) -> String {
    s.to_string()
}

fn defs() -> StatDefs {
    let mut d: StatDefs = KeyMap::new();
    d.insert(
        k("to_strength"),
        StatDef { key: k("to_strength"), name: k("Strength"), format: None, modifies_attribute: Some(k("strength")) },
    );
    d
}

fn contrib(label: &str, v: Ranged) -> SourceContribution {
    SourceContribution { label: k(label), source_type: SourceType::Item, value: v, forge: None }
}

fn fixed(pairs: &[(&str, f64)]) -> KeyMap<i64> {
    let mut m: KeyMap<i64> = KeyMap::new();
    for (key, v) in pairs {
        m.insert(k(key), p(*v));
    }
    m
}

fn ranges(pairs: &[(&str, Ranged)]) -> KeyMap<Ranged> {
    let mut m: KeyMap<Ranged> = KeyMap::new();
    for (key, v) in pairs {
        m.insert(k(key), *v);
    }
    m
}

fn base(name: &str) -> ItemBase {
    ItemBase {
        name: k(name),
        implicit: None,
        attack_speed: None,
        defense_min: None,
        defense_max: None,
        forge_kind: None,
        rainbow_sockets: Vec::new(),
        socket_transforms: KeyMap::new(),
    }
}

fn equip(base_id: &str) -> EquippedItem {
    EquippedItem {
        base_id: k(base_id),
        implicit_overrides: KeyMap::new(),
        star_scaled_implicit: KeyMap::new(),
        affixes: Vec::new(),
        forged_mods: Vec::new(),
        runeword: None,
        socketed: Vec::new(),
        socket_types: Vec::new(),
        augment: None,
    }
}

fn data(items: Vec<(&str, ItemBase)>) -> ItemData {
    let mut m: KeyMap<ItemBase> = KeyMap::new();
    for (id, b) in items {
        m.insert(k(id), b);
    }
    ItemData {
        items: m,
        affixes: KeyMap::new(),
        crystal_mods: KeyMap::new(),
        socketables: KeyMap::new(),
        augments: KeyMap::new(),
        star_forge_slots: KeyMap::new(),
    }
}

fn run(inv: &KeyMap<EquippedItem>, d: &ItemData) -> (SourceMap, SourceMap, bool) {
    let mut attrs: SourceMap = KeyMap::new();
    let mut stats: SourceMap = KeyMap::new();
    let aps = apply_inventory(inv, d, &mut attrs, &mut stats, &defs());
    (attrs, stats, aps)
}

fn sum_of(m: &SourceMap, key: &str) -> Ranged {
    sum_contributions(m.get(&k(key)).map(|v| v.as_slice()).unwrap_or(&[]))
}

#[test]
fn apply_contribution_zero_value_is_noop() {
    let mut attrs: SourceMap = KeyMap::new();
    let mut stats: SourceMap = KeyMap::new();
    apply_contribution(&mut attrs, &mut stats, &k("life"), contrib("src", r(0.0, 0.0)), &defs());
    assert_eq!(attrs.len(), 0);
    assert_eq!(stats.len(), 0);
}

#[test]
fn apply_contribution_routes_modifies_attribute_to_attrs() {
    let mut attrs: SourceMap = KeyMap::new();
    let mut stats: SourceMap = KeyMap::new();
    apply_contribution(&mut attrs, &mut stats, &k("to_strength"), contrib("ring", r(5.0, 5.0)), &defs());
    assert!(attrs.contains_key(&k("strength")), "should route to strength bucket");
    assert_eq!(stats.len(), 0);
}

#[test]
fn apply_contribution_normal_key_routes_to_stats() {
    let mut attrs: SourceMap = KeyMap::new();
    let mut stats: SourceMap = KeyMap::new();
    apply_contribution(&mut attrs, &mut stats, &k("fire_resistance"), contrib("ring", r(30.0, 30.0)), &defs());
    assert_eq!(attrs.len(), 0);
    let entries = stats.get(&k("fire_resistance")).unwrap();
    assert_eq!(entries.len(), 1);
    assert_eq!(entries[0].source_type, SourceType::Item);
    assert_eq!(entries[0].value, r(30.0, 30.0));
}

#[test]
fn apply_inventory_empty_is_noop() {
    let inv: KeyMap<EquippedItem> = KeyMap::new();
    let (attrs, stats, aps) = run(&inv, &data(Vec::new()));
    assert!(!aps);
    assert_eq!(attrs.len(), 0);
    assert_eq!(stats.len(), 0);
}

#[test]
fn apply_inventory_unknown_base_is_skipped() {
    let mut inv: KeyMap<EquippedItem> = KeyMap::new();
    inv.insert(k("weapon"), equip("definitely_not_a_real_item"));
    let (attrs, stats, aps) = run(&inv, &data(Vec::new()));
    assert!(!aps);
    assert_eq!(attrs.len(), 0);
    assert_eq!(stats.len(), 0);
}

#[test]
fn apply_inventory_pushes_defense_source_for_armor_with_defense_range() {
    let mut plate = base("Plate");
    plate.defense_min = Some(p(40.5));
    plate.defense_max = Some(p(60.0));
    let mut inv: KeyMap<EquippedItem> = KeyMap::new();
    inv.insert(k("armor"), equip("plate"));
    let (_, stats, _) = run(&inv, &data(vec![("plate", plate)]));
    let def_entries = stats.get(&k("defense")).expect("expected defense source");
    assert_eq!(def_entries.len(), 1);
    assert_eq!(def_entries[0].value, r(40.0, 60.0));
    assert_eq!(def_entries[0].source_type, SourceType::Item);
}

#[test]
fn apply_inventory_weapon_slot_with_weapon_item_flags_attack_speed() {
    let mut sword = base("Sword");
    sword.attack_speed = Some(r(1.2, 1.2));
    let mut inv: KeyMap<EquippedItem> = KeyMap::new();
    inv.insert(k("weapon"), equip("sword"));
    let (_, stats, aps) = run(&inv, &data(vec![("sword", sword)]));
    assert!(aps, "weapon item with APS should flip weapon_has_attack_speed");
    assert_eq!(sum_of(&stats, "attacks_per_second"), r(1.2, 1.2));
}

#[test]
fn apply_inventory_implicit_overrides_replace_base_implicits() {
    let mut ring = base("Ring");
    ring.implicit = Some(ranges(&[("fire_resistance", r(10.0, 20.0)), ("to_strength", r(3.0, 3.0))]));
    let mut item = equip("ring");
    item.implicit_overrides = fixed(&[("fire_resistance", 999.0), ("to_strength", 7.0), ("cold_resistance", 5.0)]);
    let mut inv: KeyMap<EquippedItem> = KeyMap::new();
    inv.insert(k("ring_1"), item);
    let (attrs, stats, _) = run(&inv, &data(vec![("ring", ring)]));
    assert_eq!(sum_of(&stats, "fire_resistance"), r(999.0, 999.0));
    assert_eq!(sum_of(&attrs, "strength"), r(7.0, 7.0));
    // an override of a key the base lacks is added too
    assert_eq!(sum_of(&stats, "cold_resistance"), r(5.0, 5.0));
}

#[test]
fn offhand_weapon_does_not_add_its_attacks_per_second() {
    let mut main = base("Ashbringer");
    main.implicit = Some(ranges(&[("attacks_per_second", r(1.4, 1.4))]));
    let mut off = base("Gut Ripper");
    off.implicit = Some(ranges(&[("attacks_per_second", r(1.1, 1.1)), ("life_steal", r(5.0, 5.0))]));
    let mut inv: KeyMap<EquippedItem> = KeyMap::new();
    inv.insert(k("weapon"), equip("main"));
    inv.insert(k("offhand"), equip("off"));
    let (_, stats, aps) = run(&inv, &data(vec![("main", main), ("off", off)]));
    assert!(aps);
    assert_eq!(sum_of(&stats, "attacks_per_second"), r(1.4, 1.4), "offhand base rate must not stack");
    assert!(
        stats.get(&k("life_steal")).is_some_and(|list| list.iter().any(|c| c.label == "Gut Ripper")),
        "offhand implicit must still be applied"
    );
}

#[test]
fn offhand_attacks_per_second_override_does_not_add_a_base_rate() {
    let mut main = base("Blade");
    main.implicit = Some(ranges(&[("attacks_per_second", r(1.3, 1.3))]));
    let shield = base("Shield");
    let mut off = equip("shield");
    off.implicit_overrides = fixed(&[("attacks_per_second", 9.0)]);
    let mut inv: KeyMap<EquippedItem> = KeyMap::new();
    inv.insert(k("weapon"), equip("main"));
    inv.insert(k("offhand"), off);
    let (_, stats, _) = run(&inv, &data(vec![("main", main), ("shield", shield)]));
    let aps = stats.get(&k("attacks_per_second")).expect("aps sources");
    assert!(aps.iter().all(|c| c.label != "Shield"));
    assert_eq!(sum_contributions(aps), r(1.3, 1.3));
}

#[test]
fn star_scaled_implicits_yield_to_a_runeword() {
    let mut helm = base("Helm");
    helm.implicit = Some(ranges(&[("enhanced_defense", r(20.0, 20.0))]));
    helm.defense_min = Some(p(100.0));
    helm.defense_max = Some(p(100.0));
    let mut item = equip("helm");
    item.star_scaled_implicit = ranges(&[("enhanced_defense", r(30.0, 30.0))]);
    let mut inv: KeyMap<EquippedItem> = KeyMap::new();
    inv.insert(k("helm"), item);
    let mut d = data(vec![("helm", helm)]);
    // a slot that cannot be star-forged keeps the base value: 120 defense
    let (_, stats, _) = run(&inv, &d);
    assert_eq!(stats.get(&k("defense")).unwrap()[0].value, r(120.0, 120.0));
    assert_eq!(sum_of(&stats, "enhanced_defense"), r(20.0, 20.0));

    let mut slots: KeySet = KeyMap::new();
    slots.insert(k("helm"), ());
    d.star_forge_slots = slots;
    let (_, stats, _) = run(&inv, &d);
    // star-scaled 30% enhanced defense: 130 defense
    assert_eq!(stats.get(&k("defense")).unwrap()[0].value, r(130.0, 130.0));
    assert_eq!(sum_of(&stats, "enhanced_defense"), r(30.0, 30.0));

    let mut rw_item = equip("helm");
    rw_item.star_scaled_implicit = ranges(&[("enhanced_defense", r(30.0, 30.0))]);
    rw_item.runeword = Some(Runeword { name: k("Lore"), stats: fixed(&[("all_skills", 1.0)]) });
    rw_item.socketed = vec![Some(k("ort")), Some(k("sol"))];
    let mut inv: KeyMap<EquippedItem> = KeyMap::new();
    inv.insert(k("helm"), rw_item);
    let (_, stats, _) = run(&inv, &d);
    // a runeword keeps the base value and its stats replace the sockets
    assert_eq!(stats.get(&k("defense")).unwrap()[0].value, r(120.0, 120.0));
    let skills = stats.get(&k("all_skills")).unwrap();
    assert_eq!(skills[0].label, "Lore (Helm)");
}

#[test]
fn sockets_rainbow_and_transforms() {
    let mut amulet = base("Amulet");
    amulet.rainbow_sockets = vec![2];
    amulet.socket_transforms.insert(k("ruby"), fixed(&[("life", 40.0)]));
    let mut d = data(vec![("amulet", amulet)]);
    d.socketables.insert(k("ruby"), Socketable { name: k("Ruby"), stats: fixed(&[("fire_resistance", 10.0)]) });
    d.socketables.insert(k("topaz"), Socketable { name: k("Topaz"), stats: fixed(&[("magic_find", 10.0)]) });
    let mut item = equip("amulet");
    item.socketed = vec![Some(k("topaz")), Some(k("topaz")), Some(k("ruby")), None, Some(k("unknown"))];
    item.socket_types = vec![SocketType::Normal, SocketType::Normal, SocketType::Rainbow];
    let mut inv: KeyMap<EquippedItem> = KeyMap::new();
    inv.insert(k("amulet"), item);
    let (_, stats, _) = run(&inv, &d);
    let mf = stats.get(&k("magic_find")).unwrap();
    assert_eq!(mf[0].label, "Topaz in Amulet #1");
    assert_eq!(mf[0].source_type, SourceType::Socket);
    assert_eq!(mf[0].value, r(10.0, 10.0));
    assert_eq!(mf[1].label, "Topaz in Amulet #2 (Rainbow)");
    assert_eq!(mf[1].value, r(15.0, 15.0));
    let life = stats.get(&k("life")).unwrap();
    assert_eq!(life[0].label, "Ruby in Amulet #3 (Rainbow) (Transform)");
    assert_eq!(life[0].value, r(60.0, 60.0));
    assert!(!stats.contains_key(&k("fire_resistance")));
}

#[test]
fn affixes_forged_mods_and_augments() {
    let mut boots = base("Boots");
    boots.forge_kind = Some(k("satanic"));
    let mut d = data(vec![("boots", boots)]);
    d.affixes.insert(k("fast"), AffixDef { name: k("Swift"), stat_key: Some(k("movement_speed")) });
    d.affixes.insert(k("blank"), AffixDef { name: k("Blank"), stat_key: None });
    d.crystal_mods.insert(
        k("c1"),
        CrystalMod { name: k("Crystal Might"), stat_key: Some(k("enhanced_damage")), range: r(5.0, 10.0) },
    );
    d.augments.insert(
        k("dodger"),
        Augment { name: k("Artful Dodger"), levels: vec![fixed(&[("dodge", 1.0)]), fixed(&[("dodge", 3.0)])] },
    );
    let mut item = equip("boots");
    item.affixes = vec![
        AffixRoll { affix_id: k("fast"), custom_value: None, rolled: p(12.0), rolled_base: p(10.0) },
        AffixRoll { affix_id: k("fast"), custom_value: Some(0), rolled: p(12.0), rolled_base: p(10.0) },
        AffixRoll { affix_id: k("blank"), custom_value: None, rolled: p(3.0), rolled_base: p(2.0) },
    ];
    item.forged_mods = vec![ForgedMod { affix_id: k("c1"), custom_value: None }];
    item.augment = Some(AugmentRef { id: k("dodger"), level: 99 });
    let mut inv: KeyMap<EquippedItem> = KeyMap::new();
    inv.insert(k("boots"), item);

    // boots cannot be star-forged this season: no forged modifier
    let (_, stats, _) = run(&inv, &d);
    let ms = stats.get(&k("movement_speed")).unwrap();
    assert_eq!(ms.len(), 1);
    assert_eq!(ms[0].label, "Swift (Boots)");
    // and the affix is valued without the item's stars
    assert_eq!(ms[0].value, r(10.0, 10.0));
    assert!(!stats.contains_key(&k("enhanced_damage")));
    // level 99 is held to the last level
    let dodge = stats.get(&k("dodge")).unwrap();
    assert_eq!(dodge[0].label, "Augment: Artful Dodger Lv 2 (Boots)");
    assert_eq!(dodge[0].value, r(3.0, 3.0));

    let mut slots: KeySet = KeyMap::new();
    slots.insert(k("boots"), ());
    d.star_forge_slots = slots;
    let (_, stats, _) = run(&inv, &d);
    // a slot that can be star-forged values the affix at the item's stars
    assert_eq!(stats.get(&k("movement_speed")).unwrap()[0].value, r(12.0, 12.0));
    let ed = stats.get(&k("enhanced_damage")).unwrap();
    assert_eq!(ed[0].label, "Crystal Might");
    assert_eq!(ed[0].value, r(5.0, 10.0));
    let forge = ed[0].forge.as_ref().unwrap();
    assert_eq!(forge.item_name, "Boots");
    assert_eq!(forge.kind, "satanic");
}

#[test]
fn augment_stats_apply_and_level_clamps() {
    let mut armor = base("Chain Mail");
    armor.implicit = Some(ranges(&[("dodge_chance", r(2.0, 2.0))]));
    let mut d = data(vec![("chain_mail", armor)]);
    d.augments.insert(
        k("artful_dodger"),
        Augment {
            name: k("Artful Dodger"),
            levels: vec![fixed(&[("dodge_chance", 1.0)]), fixed(&[("dodge_chance", 2.5)]), fixed(&[("dodge_chance", 4.0)])],
        },
    );
    let last_tier = d.augments.get(&k("artful_dodger")).unwrap().levels.last().unwrap();
    let (key, expected) = {
        let (key, v) = &last_tier.entries[0];
        (key.clone(), *v)
    };
    let sum_for = |aug_ref: Option<AugmentRef>| {
        let mut item = equip("chain_mail");
        item.augment = aug_ref;
        let mut inv: KeyMap<EquippedItem> = KeyMap::new();
        inv.insert(k("armor"), item);
        let (_, stats, _) = run(&inv, &d);
        sum_of(&stats, &key)
    };

    let max_level = d.augments.get(&k("artful_dodger")).unwrap().levels.len() as u32;
    let without = sum_for(None);
    let with_max = sum_for(Some(AugmentRef { id: k("artful_dodger"), level: max_level }));
    assert_eq!(with_max.0 - without.0, expected);
    assert_eq!(with_max.1 - without.1, expected);

    let with_overflow = sum_for(Some(AugmentRef { id: k("artful_dodger"), level: 99 }));
    assert_eq!(with_overflow, with_max);
}
