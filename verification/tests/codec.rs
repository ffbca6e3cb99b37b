use rusted_shut::block::Block;
use rusted_shut::component::{
    decode_component, Component, ComponentError, ComponentKind, FormattedComponentRegister,
    UnknownComponent, VersionRestriction,
};
use rusted_shut::item::Item;
use rusted_shut::keyed::keyed_get;
use rusted_shut::menu_category::Category;
use rusted_shut::state::{IntRange, StateData};
use rusted_shut::store::ComponentStore;
use rusted_shut::value::JsonValue;
use rusted_shut::version::FormatVersion;

fn obj(entries: Vec<(&str, JsonValue)>) -> JsonValue {
    JsonValue::Obj(entries.into_iter().map(|(k, v)| (k.to_string(), v)).collect())
}

fn arr(items: Vec<JsonValue>) -> JsonValue {
    JsonValue::Arr(items)
}

fn st(v: &str) -> JsonValue {
    JsonValue::Str(v.to_string())
}

fn num(v: i64) -> JsonValue {
    JsonValue::Int(v)
}

fn unknown_ref<'a>(store: &'a ComponentStore, id: &str) -> Option<&'a UnknownComponent> {
    match store.get_component_ref(id) {
        Some(Component::Unknown(u)) => Some(u),
        _ => None,
    }
}

fn block_doc() -> JsonValue {
    obj(vec![
        ("format_version", st("1.21.40")),
        (
            "minecraft:block",
            obj(vec![
                (
                    "description",
                    obj(vec![
                        ("identifier", st("azur:star_moss_emitter")),
                        (
                            "states",
                            obj(vec![(
                                "azur:growth",
                                arr(vec![num(0), num(1), num(2)]),
                            )]),
                        ),
                    ]),
                ),
                (
                    "components",
                    obj(vec![
                        (
                            "minecraft:material_instances",
                            obj(vec![(
                                "*",
                                obj(vec![
                                    ("texture", st("azur:nothing")),
                                    ("render_method", st("alpha_test")),
                                ]),
                            )]),
                        ),
                        ("minecraft:geometry", st("minecraft:geometry.full_block")),
                        ("minecraft:collision_box", JsonValue::Bool(false)),
                        (
                            "minecraft:selection_box",
                            obj(vec![
                                ("origin", arr(vec![num(-8), num(0), num(-8)])),
                                ("size", arr(vec![num(16), num(16), num(16)])),
                            ]),
                        ),
                        (
                            "minecraft:liquid_detection",
                            obj(vec![(
                                "detection_rules",
                                arr(vec![obj(vec![
                                    ("can_contain_liquid", JsonValue::Bool(true)),
                                    ("on_liquid_touches", st("no_reaction")),
                                ])]),
                            )]),
                        ),
                    ]),
                ),
                (
                    "permutations",
                    arr(vec![
                        perm_doc("q.block_state('azur:growth') == 0", 120, 150, 1),
                        perm_doc("q.block_state('azur:growth') == 1", 100, 130, 2),
                        perm_doc("q.block_state('azur:growth') == 2", 80, 110, 3),
                    ]),
                ),
            ]),
        ),
    ])
}

fn perm_doc(condition: &str, lo: i64, hi: i64, growth: i64) -> JsonValue {
    obj(vec![
        ("condition", st(condition)),
        (
            "components",
            obj(vec![
                (
                    "minecraft:tick",
                    obj(vec![
                        ("looping", JsonValue::Bool(true)),
                        ("interval_range", arr(vec![num(lo), num(hi)])),
                    ]),
                ),
                (
                    "azur:particle_emitter",
                    obj(vec![
                        ("particleId", st("azur:star_moss")),
                        (
                            "molangVariables",
                            arr(vec![arr(vec![st("growth"), num(growth)])]),
                        ),
                    ]),
                ),
            ]),
        ),
    ])
}

#[test]
fn block_de_test() {
    let register = FormattedComponentRegister::new();
    let json = block_doc();

    let blk = Block::from_json(&json, &register).unwrap();

    assert_eq!(blk.format_version, FormatVersion::parse("1.21.40").unwrap());
    assert_eq!(blk.description.identifier, "azur:star_moss_emitter");

    let growth_state = keyed_get(&blk.description.states, "azur:growth").unwrap();
    if let StateData::IntRange(IntRange(ref values)) = growth_state {
        assert_eq!(values, &vec![0, 1, 2]);
    } else {
        panic!("Expected IntRange for azur:growth state");
    }

    assert!(blk.description.traits.is_empty());

    let material_instances = unknown_ref(&blk.components, "minecraft:material_instances");
    assert!(material_instances.is_some());
    assert_eq!(
        material_instances.unwrap().id,
        "minecraft:material_instances"
    );

    let geometry = unknown_ref(&blk.components, "minecraft:geometry");
    assert!(geometry.is_some());
    assert_eq!(geometry.unwrap().id, "minecraft:geometry");

    let collision_box = unknown_ref(&blk.components, "minecraft:collision_box");
    assert!(collision_box.is_some());
    assert_eq!(collision_box.unwrap().id, "minecraft:collision_box");

    let selection_box = unknown_ref(&blk.components, "minecraft:selection_box");
    assert!(selection_box.is_some());
    assert_eq!(selection_box.unwrap().id, "minecraft:selection_box");

    let liquid_detection = unknown_ref(&blk.components, "minecraft:liquid_detection");
    assert!(liquid_detection.is_some());
    assert_eq!(liquid_detection.unwrap().id, "minecraft:liquid_detection");

    assert_eq!(blk.permutations.len(), 3);

    let first_perm = &blk.permutations[0];
    assert_eq!(first_perm.condition, "q.block_state('azur:growth') == 0");
    assert!(unknown_ref(&first_perm.components, "minecraft:tick").is_some());
    assert_eq!(
        unknown_ref(&first_perm.components, "minecraft:tick").unwrap().id,
        "minecraft:tick"
    );
    assert!(unknown_ref(&first_perm.components, "azur:particle_emitter").is_some());
    assert_eq!(
        unknown_ref(&first_perm.components, "azur:particle_emitter").unwrap().id,
        "azur:particle_emitter"
    );

    let second_perm = &blk.permutations[1];
    assert_eq!(second_perm.condition, "q.block_state('azur:growth') == 1");
    assert!(unknown_ref(&second_perm.components, "minecraft:tick").is_some());
    assert!(unknown_ref(&second_perm.components, "azur:particle_emitter").is_some());

    let third_perm = &blk.permutations[2];
    assert_eq!(third_perm.condition, "q.block_state('azur:growth') == 2");
    assert!(unknown_ref(&third_perm.components, "minecraft:tick").is_some());
    assert!(unknown_ref(&third_perm.components, "azur:particle_emitter").is_some());

    for (perm, growth) in blk.permutations.iter().zip([1i64, 2, 3]) {
        let particle = unknown_ref(&perm.components, "azur:particle_emitter").unwrap();
        let molang = particle.data.get("molangVariables").unwrap();
        assert!(molang.deep_eq(&arr(vec![arr(vec![st("growth"), num(growth)])])));
    }
}

fn item_doc() -> JsonValue {
    obj(vec![
        ("format_version", st("1.21.40")),
        (
            "minecraft:item",
            obj(vec![
                (
                    "description",
                    obj(vec![
                        ("identifier", st("azur:bottle_star_moss")),
                        (
                            "menu_category",
                            obj(vec![
                                ("category", st("equipment")),
                                ("group", st("itemGroup.name.potion")),
                                ("is_hidden_in_commands", JsonValue::Bool(false)),
                            ]),
                        ),
                    ]),
                ),
                (
                    "components",
                    obj(vec![
                        ("minecraft:icon", st("azur:bottle_star_moss")),
                        ("minecraft:max_stack_size", num(1)),
                        (
                            "azur:transformable_item",
                            obj(vec![
                                ("initial_item", st("minecraft:glass_bottle")),
                                ("interact_on", st("azur:star_moss_emitter")),
                                ("transform_block", st("minecraft:flowing_water")),
                                ("consume_item", JsonValue::Bool(true)),
                                ("sound", obj(vec![("id", st("bottle.fill"))])),
                            ]),
                        ),
                        (
                            "azur:placeable",
                            obj(vec![
                                ("block", st("azur:star_moss_emitter")),
                                (
                                    "consume_item",
                                    obj(vec![("transform_item", st("minecraft:glass_bottle"))]),
                                ),
                                ("replace_blocks", arr(vec![st("minecraft:water")])),
                                ("sound", obj(vec![("id", st("bucket.empty_water"))])),
                            ]),
                        ),
                    ]),
                ),
            ]),
        ),
    ])
}

#[test]
fn item_de_test() {
    let register = FormattedComponentRegister::new();
    let json = item_doc();

    let item = Item::from_json(&json, &register).unwrap();

    assert_eq!(item.format_version, FormatVersion::parse("1.21.40").unwrap());
    assert_eq!(item.description.identifier, "azur:bottle_star_moss");
    assert_eq!(item.description.menu_category.category, Category::Equipment);
    assert_eq!(
        item.description.menu_category.group,
        "itemGroup.name.potion"
    );
    assert_eq!(item.description.menu_category.is_hidden_in_commands, false);

    let components = &item.components;

    let icon = unknown_ref(components, "minecraft:icon");
    assert!(icon.is_some());
    assert!(icon.unwrap().data.deep_eq(&st("azur:bottle_star_moss")));

    let max_stack_size = unknown_ref(components, "minecraft:max_stack_size");
    assert!(max_stack_size.is_some());
    assert!(max_stack_size.unwrap().data.deep_eq(&num(1)));

    let transformable_item = unknown_ref(components, "azur:transformable_item");
    assert!(transformable_item.is_some());
    let transformable_data = &transformable_item.unwrap().data;
    assert!(transformable_data
        .get("initial_item")
        .unwrap()
        .deep_eq(&st("minecraft:glass_bottle")));
    assert!(transformable_data
        .get("interact_on")
        .unwrap()
        .deep_eq(&st("azur:star_moss_emitter")));
    assert!(transformable_data
        .get("transform_block")
        .unwrap()
        .deep_eq(&st("minecraft:flowing_water")));
    assert!(transformable_data
        .get("consume_item")
        .unwrap()
        .deep_eq(&JsonValue::Bool(true)));
    assert!(transformable_data
        .get("sound")
        .unwrap()
        .get("id")
        .unwrap()
        .deep_eq(&st("bottle.fill")));

    let placeable = unknown_ref(components, "azur:placeable");
    assert!(placeable.is_some());
    let placeable_data = &placeable.unwrap().data;
    assert!(placeable_data
        .get("block")
        .unwrap()
        .deep_eq(&st("azur:star_moss_emitter")));
    assert!(placeable_data
        .get("consume_item")
        .unwrap()
        .get("transform_item")
        .unwrap()
        .deep_eq(&st("minecraft:glass_bottle")));
    assert!(placeable_data
        .get("replace_blocks")
        .unwrap()
        .deep_eq(&arr(vec![st("minecraft:water")])));
    assert!(placeable_data
        .get("sound")
        .unwrap()
        .get("id")
        .unwrap()
        .deep_eq(&st("bucket.empty_water")));
}

#[test]
fn version_containment_checks_closed_intervals() {
    let v = |s: &str| FormatVersion::parse(s).unwrap();
    assert!(VersionRestriction::Min(v("1.2.3")).contains(&v("1.2.3")));
    assert!(VersionRestriction::Min(v("1.2.3")).contains(&v("2.0.0")));
    assert!(!VersionRestriction::Min(v("1.2.3")).contains(&v("1.2.2")));
    assert!(VersionRestriction::Max(v("1.2.3")).contains(&v("1.2.3")));
    assert!(VersionRestriction::Max(v("1.2.3")).contains(&v("0.9.9")));
    assert!(!VersionRestriction::Max(v("1.2.3")).contains(&v("1.3.0")));
    assert!(VersionRestriction::MinMax(v("1.0.0"), v("2.0.0")).contains(&v("1.5.0")));
    assert!(VersionRestriction::MinMax(v("1.0.0"), v("2.0.0")).contains(&v("1.0.0")));
    assert!(VersionRestriction::MinMax(v("1.0.0"), v("2.0.0")).contains(&v("2.0.0")));
    assert!(!VersionRestriction::MinMax(v("1.0.0"), v("2.0.0")).contains(&v("2.0.1")));
}

#[test]
fn version_parse_rejects_malformed_texts() {
    assert!(FormatVersion::parse("1.21.40").is_some());
    assert!(FormatVersion::parse("0.0.0").is_some());
    assert!(FormatVersion::parse("1.21").is_none());
    assert!(FormatVersion::parse("1.21.40.5").is_none());
    assert!(FormatVersion::parse("1.x.0").is_none());
    assert!(FormatVersion::parse("").is_none());
    assert!(FormatVersion::parse("..").is_none());
}

#[test]
fn registry_fallback_keeps_payload_byte_for_byte() {
    let register = FormattedComponentRegister::new();
    let version = FormatVersion::parse("1.21.40").unwrap();
    let payload = obj(vec![
        ("anything", arr(vec![num(1), st("two"), JsonValue::Null])),
    ]);
    let comp = decode_component(&register, &version, "azur:mystery", &payload).unwrap();
    match &comp {
        Component::Unknown(u) => {
            assert_eq!(u.id, "azur:mystery");
            assert!(u.data.deep_eq(&payload));
        }
        _ => panic!("expected the opaque fallback"),
    }
    assert!(comp.to_json().deep_eq(&payload));
}

#[test]
fn registry_resolves_first_applicable_restriction() {
    let mut register = FormattedComponentRegister::new();
    let v = |s: &str| FormatVersion::parse(s).unwrap();
    register.bind_component(VersionRestriction::Min(v("2.0.0")), ComponentKind::DisplayNameBlock);
    register.bind_component(VersionRestriction::Min(v("1.0.0")), ComponentKind::DisplayNameItem);
    assert_eq!(
        register.get_component(&v("2.5.0"), "minecraft:display_name"),
        Some(ComponentKind::DisplayNameBlock)
    );
    assert_eq!(
        register.get_component(&v("1.5.0"), "minecraft:display_name"),
        Some(ComponentKind::DisplayNameItem)
    );
    assert_eq!(register.get_component(&v("0.5.0"), "minecraft:display_name"), None);
    assert_eq!(register.get_component(&v("2.5.0"), "minecraft:other"), None);
}

#[test]
fn blandness_flips_on_a_custom_id() {
    let register = FormattedComponentRegister::new();
    let blk = Block::from_json(&block_doc(), &register).unwrap();
    assert!(!blk.is_bland());

    let mut bland = Block::from_json(&block_doc(), &register).unwrap();
    for perm in bland.permutations.iter_mut() {
        perm.components.remove_component("azur:particle_emitter");
    }
    assert!(bland.is_bland());

    bland.components.set_component_custom(
        Component::Unknown(UnknownComponent::new(JsonValue::Null, "custom:x".to_string())),
        "custom:x".to_string(),
    );
    assert!(!bland.is_bland());
}

#[test]
fn item_round_trip_reproduces_the_document() {
    let register = FormattedComponentRegister::new();
    let json = item_doc();
    let item = Item::from_json(&json, &register).unwrap();
    let encoded = item.to_json();
    let reparsed = Item::from_json(&encoded, &register).unwrap();
    assert!(reparsed.to_json().deep_eq(&encoded));
}

#[test]
fn block_round_trip_reproduces_the_encoding() {
    let register = FormattedComponentRegister::new();
    let json = block_doc();
    let blk = Block::from_json(&json, &register).unwrap();
    let encoded = blk.to_json();
    let reparsed = Block::from_json(&encoded, &register).unwrap();
    assert!(reparsed.to_json().deep_eq(&encoded));
}

#[test]
fn decode_errors_name_the_missing_members() {
    let register = FormattedComponentRegister::new();
    assert!(matches!(
        Block::from_json(&obj(vec![]), &register),
        Err(ComponentError::MissingMember("format_version", "a block"))
    ));
    assert!(matches!(
        Block::from_json(&obj(vec![("format_version", st("oops"))]), &register),
        Err(ComponentError::MemberNotType("format_version", "a version"))
    ));
    assert!(matches!(
        Block::from_json(&obj(vec![("format_version", st("1.0.0"))]), &register),
        Err(ComponentError::MissingMember("minecraft:block", "a block"))
    ));
    let no_desc = obj(vec![
        ("format_version", st("1.0.0")),
        ("minecraft:block", obj(vec![])),
    ]);
    assert!(matches!(
        Block::from_json(&no_desc, &register),
        Err(ComponentError::MissingMember("description", "a block"))
    ));
    let bad_perms = obj(vec![
        ("format_version", st("1.0.0")),
        (
            "minecraft:block",
            obj(vec![
                ("description", obj(vec![("identifier", st("a:b"))])),
                ("components", obj(vec![])),
                ("permutations", st("nope")),
            ]),
        ),
    ]);
    assert!(matches!(
        Block::from_json(&bad_perms, &register),
        Err(ComponentError::MemberNotType("permutations", "an array"))
    ));
    let bad_components = obj(vec![
        ("format_version", st("1.0.0")),
        (
            "minecraft:block",
            obj(vec![
                ("description", obj(vec![("identifier", st("a:b"))])),
                ("components", st("nope")),
            ]),
        ),
    ]);
    assert!(matches!(
        Block::from_json(&bad_components, &register),
        Err(ComponentError::NotObject("components"))
    ));
}

#[test]
fn state_range_form_expands_to_the_explicit_list() {
    let range = obj(vec![(
        "values",
        obj(vec![("min", num(2)), ("max", num(5))]),
    )]);
    match StateData::from_json(&range) {
        Some(StateData::IntRange(IntRange(values))) => assert_eq!(values, vec![2, 3, 4, 5]),
        _ => panic!("expected an integer range"),
    }
    match StateData::from_json(&arr(vec![JsonValue::Bool(true), JsonValue::Bool(false)])) {
        Some(StateData::Boolean(values)) => assert_eq!(values, vec![true, false]),
        _ => panic!("expected booleans"),
    }
    match StateData::from_json(&arr(vec![st("a"), st("b")])) {
        Some(StateData::Strings(values)) => assert_eq!(values, vec!["a", "b"]),
        _ => panic!("expected strings"),
    }
    assert!(StateData::from_json(&st("nope")).is_none());
}

#[test]
fn menu_category_defaults_when_absent() {
    let register = FormattedComponentRegister::new();
    let doc = obj(vec![
        ("format_version", st("1.0.0")),
        (
            "minecraft:item",
            obj(vec![
                ("description", obj(vec![("identifier", st("a:b"))])),
                ("components", obj(vec![])),
            ]),
        ),
    ]);
    let item = Item::from_json(&doc, &register).unwrap();
    assert_eq!(item.description.menu_category.category, Category::NoneCategory);
    assert_eq!(item.description.menu_category.is_hidden_in_commands, false);
    assert_eq!(item.description.menu_category.group, "");
    assert_eq!(item.description.is_experimental, false);
}


#[test]
fn version_parse_carries_suffixes() {
    let with_pre = FormatVersion::parse("1.20.80-beta").unwrap();
    let plain = FormatVersion::parse("1.20.80").unwrap();
    assert!(VersionRestriction::Min(plain.clone()).contains(&with_pre));
    assert!(VersionRestriction::Max(with_pre.clone()).contains(&FormatVersion::parse("1.20.80").unwrap()));
    assert!(FormatVersion::parse("1.0.0+build.5").is_some());
    assert!(FormatVersion::parse("1.0-beta.0").is_none());
    assert_ne!(with_pre, plain);
}

#[test]
fn get_or_default_inserts_once() {
    let mut store = ComponentStore::new();
    let fresh = store.get_component_mut_default(
        "minecraft:custom_components",
        Component::CustomComponents(rusted_shut::component::MinecraftCustomComponents {
            component_ids: Vec::new(),
        }),
    );
    let mut cc = match fresh {
        Component::CustomComponents(cc) => cc,
        _ => panic!("expected the fresh default"),
    };
    assert!(cc.component_ids.is_empty());
    cc.component_ids.push("azur:emitter_1".to_string());
    store.set_component_custom(
        Component::CustomComponents(cc),
        "minecraft:custom_components".to_string(),
    );
    let again = store.get_component_mut_default(
        "minecraft:custom_components",
        Component::CustomComponents(rusted_shut::component::MinecraftCustomComponents {
            component_ids: Vec::new(),
        }),
    );
    match again {
        Component::CustomComponents(cc) => {
            assert_eq!(cc.component_ids, vec!["azur:emitter_1".to_string()]);
        }
        _ => panic!("expected the stored list"),
    }
    assert_eq!(store.len(), 1);
}
