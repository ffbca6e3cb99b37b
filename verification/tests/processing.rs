use rusted_shut::addon::Addon;
use rusted_shut::block::{Block, Trait};
use rusted_shut::component::{Component, FormattedComponentRegister};
use rusted_shut::config::TetanusConfig;
use rusted_shut::custom::{EmptyBlockState, InertItemHandler};
use rusted_shut::item::Item;
use rusted_shut::keyed::keyed_get;
use rusted_shut::manifest::{Header, Manifest, Module, ModuleType, Subpack, Dependency, Version};
use rusted_shut::office::{
    register_component_types, ComponentInformation, ComponentStaticInformation, ComponentType,
    CustomComponentRegistry,
};
use rusted_shut::parser::{AddonParser, ParserConfig};
use rusted_shut::processor::AddonProcessor;
use rusted_shut::rotation::Rotation;
use rusted_shut::translation::TranslationManager;
use rusted_shut::paths::{AddonPathResolver, BaseResolver, ParsedAddonResolver};
use rusted_shut::value::{u64_to_string, JsonValue};

fn obj(entries: Vec<(&str, JsonValue)>) -> JsonValue {
    JsonValue::Obj(entries.into_iter().map(|(k, v)| (k.to_string(), v)).collect())
}

fn arr(items: Vec<JsonValue>) -> JsonValue {
    JsonValue::Arr(items)
}

fn st(v: &str) -> JsonValue {
    JsonValue::Str(v.to_string())
}

fn num(v: i64) -> JsonValue {
    JsonValue::Int(v)
}

fn sea_shells_doc(rotation_payload: JsonValue) -> JsonValue {
    obj(vec![
        ("format_version", st("1.21.40")),
        (
            "minecraft:block",
            obj(vec![
                (
                    "description",
                    obj(vec![
                        ("identifier", st("azur:sea_shells")),
                        (
                            "menu_category",
                            obj(vec![
                                ("category", st("none")),
                                ("is_hidden_in_commands", JsonValue::Bool(true)),
                            ]),
                        ),
                        (
                            "states",
                            obj(vec![(
                                "azur:sea_shell_state",
                                arr(vec![num(0), num(1), num(2), num(3)]),
                            )]),
                        ),
                    ]),
                ),
                (
                    "components",
                    obj(vec![
                        (
                            "minecraft:material_instances",
                            obj(vec![(
                                "*",
                                obj(vec![
                                    ("texture", st("azur:sea_shells_texture")),
                                    ("render_method", st("alpha_test_single_sided")),
                                ]),
                            )]),
                        ),
                        (
                            "minecraft:geometry",
                            obj(vec![
                                ("identifier", st("geometry.azur.seashells")),
                                (
                                    "bone_visibility",
                                    obj(vec![
                                        ("2", st("q.block_state('azur:sea_shell_state') >= 1")),
                                        ("3", st("q.block_state('azur:sea_shell_state') >= 2")),
                                        ("4", st("q.block_state('azur:sea_shell_state') == 3")),
                                    ]),
                                ),
                            ]),
                        ),
                        ("azur:rotation", rotation_payload),
                    ]),
                ),
            ]),
        ),
    ])
}

#[test]
fn rotation_test() {
    let json = sea_shells_doc(obj(vec![]));
    let blk = Block::from_json(&json, &FormattedComponentRegister::new()).unwrap();

    let mut addon = Addon::new();
    addon.push_block(blk);

    let mut process =
        AddonProcessor::<Rotation, InertItemHandler, EmptyBlockState>::new(EmptyBlockState);
    process.bind_block_component(Rotation);

    let _ = process.process_addon(addon).unwrap();
}

fn rotation_vectors(blk: &Block) -> Vec<(String, Vec<i64>)> {
    blk.permutations
        .iter()
        .map(|perm| {
            let data = match perm.components.get_component_ref("minecraft:transformation") {
                Some(Component::Unknown(u)) => &u.data,
                _ => panic!("expected a transformation component"),
            };
            let rotation = match data.get("rotation") {
                Some(JsonValue::Arr(items)) => items
                    .iter()
                    .map(|v| match v {
                        JsonValue::Int(n) => *n,
                        _ => panic!("expected an integer"),
                    })
                    .collect(),
                _ => panic!("expected a rotation vector"),
            };
            (perm.condition.clone(), rotation)
        })
        .collect()
}

#[test]
fn rotation_with_y_rotation_gives_six_facing_permutations() {
    let json = sea_shells_doc(obj(vec![("y_rotation", JsonValue::Bool(true))]));
    let blk = Block::from_json(&json, &FormattedComponentRegister::new()).unwrap();
    let mut addon = Addon::new();
    addon.push_block(blk);

    let mut process =
        AddonProcessor::<Rotation, InertItemHandler, EmptyBlockState>::new(EmptyBlockState);
    process.bind_block_component(Rotation);

    let done = process.process_addon(addon).unwrap();
    let blk = &done.blocks_ref()[0];

    assert!(blk.components.get_component_ref("azur:rotation").is_none());
    assert_eq!(blk.permutations.len(), 6);

    let expected = vec![
        ("q.block_state('minecraft:facing_direction') == 'north'", vec![0, 0, 0]),
        ("q.block_state('minecraft:facing_direction') == 'west'", vec![0, 90, 0]),
        ("q.block_state('minecraft:facing_direction') == 'south'", vec![0, 180, 0]),
        ("q.block_state('minecraft:facing_direction') == 'east'", vec![0, -90, 0]),
        ("q.block_state('minecraft:facing_direction') == 'up'", vec![90, 0, 0]),
        ("q.block_state('minecraft:facing_direction') == 'down'", vec![-90, 0, 0]),
    ];
    let got = rotation_vectors(blk);
    assert_eq!(got.len(), expected.len());
    for ((cond, vector), (expected_cond, expected_vector)) in got.iter().zip(expected.iter()) {
        assert_eq!(cond, expected_cond);
        assert_eq!(vector, expected_vector);
    }

    match keyed_get(&blk.description.traits, "minecraft:placement_direction") {
        Some(Trait::PlacementDirection(d)) => {
            assert_eq!(d.enabled_states, vec!["minecraft:facing_direction".to_string()]);
            assert_eq!(d.y_rotation_offset, 180);
        }
        _ => panic!("expected the placement-direction trait"),
    }
}

#[test]
fn rotation_without_y_rotation_gives_four_cardinal_permutations() {
    for payload in [obj(vec![("y_rotation", JsonValue::Bool(false))]), obj(vec![])] {
        let json = sea_shells_doc(payload);
        let blk = Block::from_json(&json, &FormattedComponentRegister::new()).unwrap();
        let mut addon = Addon::new();
        addon.push_block(blk);

        let mut process =
            AddonProcessor::<Rotation, InertItemHandler, EmptyBlockState>::new(EmptyBlockState);
        process.bind_block_component(Rotation);

        let done = process.process_addon(addon).unwrap();
        let blk = &done.blocks_ref()[0];

        assert!(blk.components.get_component_ref("azur:rotation").is_none());
        assert_eq!(blk.permutations.len(), 4);
        let got = rotation_vectors(blk);
        for (cond, _) in &got {
            assert!(cond.contains("minecraft:cardinal_direction"));
            assert!(!cond.contains("'up'") && !cond.contains("'down'"));
        }
        assert_eq!(got[0].1, vec![0, 0, 0]);
        assert_eq!(got[1].1, vec![0, 90, 0]);
        assert_eq!(got[2].1, vec![0, 180, 0]);
        assert_eq!(got[3].1, vec![0, -90, 0]);

        match keyed_get(&blk.description.traits, "minecraft:placement_direction") {
            Some(Trait::PlacementDirection(d)) => {
                assert_eq!(d.enabled_states, vec!["minecraft:cardinal_direction".to_string()]);
            }
            _ => panic!("expected the placement-direction trait"),
        }
    }
}

#[test]
fn processing_leaves_an_unmatched_addon_unchanged() {
    let json = sea_shells_doc(obj(vec![]));
    let blk = Block::from_json(&json, &FormattedComponentRegister::new()).unwrap();
    let encoded_before = blk.to_json();
    let mut addon = Addon::new();
    addon.push_block(blk);

    let mut process =
        AddonProcessor::<Rotation, InertItemHandler, EmptyBlockState>::new(EmptyBlockState);
    process.bind_block_component_name(Rotation, "azur:unused");

    let done = process.process_addon(addon).unwrap();
    assert!(done.blocks_ref()[0].to_json().deep_eq(&encoded_before));
}

fn office_block_doc() -> JsonValue {
    obj(vec![
        ("format_version", st("1.21.40")),
        (
            "minecraft:block",
            obj(vec![
                ("description", obj(vec![("identifier", st("azur:emitting_block"))])),
                (
                    "components",
                    obj(vec![
                        ("minecraft:geometry", st("minecraft:geometry.full_block")),
                        ("azur:emitter", obj(vec![("strength", num(3))])),
                    ]),
                ),
            ]),
        ),
    ])
}

#[test]
fn office_pipeline_records_instances_and_rewrites_stores() {
    let info = ComponentInformation::new(
        vec![
            ("id".to_string(), "azur:emitter".to_string()),
            ("type".to_string(), "block".to_string()),
        ],
        ComponentStaticInformation {
            class_id: "Emitter".to_string(),
            relative_path: "emitter.ts".to_string(),
        },
    )
    .unwrap();
    assert_eq!(info.search_id, "azur:emitter");
    assert_eq!(info.component_type, ComponentType::Block);
    assert!(!info.is_pure_data);
    assert!(!info.pass_id);

    let registry = CustomComponentRegistry::build_from_list(vec![info]);
    let mut processor = register_component_types(registry);

    let blk = Block::from_json(&office_block_doc(), &FormattedComponentRegister::new()).unwrap();
    let mut addon = Addon::new();
    addon.push_block(blk);

    let done = processor.process_addon(addon).unwrap();
    let blk = &done.blocks_ref()[0];
    assert!(blk.components.get_component_ref("azur:emitter").is_none());
    match blk.components.get_component_ref("minecraft:custom_components") {
        Some(Component::CustomComponents(cc)) => {
            assert_eq!(cc.component_ids, vec!["azur:emitter_1".to_string()]);
        }
        _ => panic!("expected the custom component id list"),
    }

    let state = processor.disband();
    assert_eq!(state.registry.block_instances_iter().len(), 1);
    let instance = &state.registry.block_instances_iter()[0];
    assert_eq!(instance.instance_id, 1);
    assert_eq!(instance.static_information.search_id, "azur:emitter");
    assert!(instance.data.deep_eq(&obj(vec![("strength", num(3))])));
}

#[test]
fn office_rejects_incomplete_annotations() {
    let info = ComponentStaticInformation {
        class_id: "Nameless".to_string(),
        relative_path: "nameless.ts".to_string(),
    };
    assert!(ComponentInformation::new(vec![], info).is_err());
    let info = ComponentStaticInformation {
        class_id: "Typeless".to_string(),
        relative_path: "typeless.ts".to_string(),
    };
    assert!(ComponentInformation::new(
        vec![("id".to_string(), "azur:x".to_string())],
        info
    )
    .is_err());
    assert!(ComponentType::from_str("tool").is_err());
    assert_eq!(ComponentType::from_str("both").unwrap(), ComponentType::Both);
}

#[test]
fn parser_skips_bland_entities_when_asked() {
    let bland = obj(vec![
        ("format_version", st("1.0.0")),
        (
            "minecraft:block",
            obj(vec![
                ("description", obj(vec![("identifier", st("azur:plain"))])),
                (
                    "components",
                    obj(vec![("minecraft:geometry", st("minecraft:geometry.full_block"))]),
                ),
            ]),
        ),
    ]);
    let lively = sea_shells_doc(obj(vec![]));
    let config = ParserConfig {
        parse_block: true,
        parse_items: true,
        skip_bland: true,
        rp_from_base: None,
        bp_from_base: None,
        block_register: None,
        item_register: None,
    };
    let (addon, _resolver) = AddonParser::parse_addon(
        "./".to_string(),
        vec![
            ("plain.json".to_string(), bland),
            ("shells.json".to_string(), lively),
        ],
        vec![],
        config,
    )
    .unwrap();
    assert_eq!(addon.blocks_ref().len(), 1);
    assert_eq!(addon.blocks_ref()[0].description.identifier, "azur:sea_shells");
    assert_eq!(addon.items_ref().len(), 0);
}

#[test]
fn pushing_an_entity_replaces_by_identifier() {
    let register = FormattedComponentRegister::new();
    let doc = |ident: &str| {
        obj(vec![
            ("format_version", st("1.0.0")),
            (
                "minecraft:item",
                obj(vec![
                    ("description", obj(vec![("identifier", st(ident))])),
                    ("components", obj(vec![])),
                ]),
            ),
        ])
    };
    let mut addon = Addon::new();
    addon.push_item(Item::from_json(&doc("azur:a"), &register).unwrap());
    addon.push_item(Item::from_json(&doc("azur:b"), &register).unwrap());
    addon.push_item(Item::from_json(&doc("azur:a"), &register).unwrap());
    assert_eq!(addon.items_ref().len(), 2);
}

#[test]
fn translation_keys_carry_the_identifier() {
    let register = FormattedComponentRegister::new();
    let blk = Block::from_json(&sea_shells_doc(obj(vec![])), &register).unwrap();
    assert_eq!(TranslationManager::key_for_block(&blk), "block.azur:sea_shells");
    let item_doc = obj(vec![
        ("format_version", st("1.0.0")),
        (
            "minecraft:item",
            obj(vec![
                ("description", obj(vec![("identifier", st("azur:shell"))])),
                ("components", obj(vec![])),
            ]),
        ),
    ]);
    let item = Item::from_json(&item_doc, &register).unwrap();
    assert_eq!(TranslationManager::key_for_item(&item), "item.azur:shell");
}

#[test]
fn manifest_lists_grow_from_absent() {
    let mut manifest = Manifest::new(
        2,
        Header {
            description: "By theaddonn".to_string(),
            name: "Azuryth".to_string(),
            uuid: "134be210-dfe8-4714-8fa7-2857c8a30116".to_string(),
            version: Version {
                version_type: None,
                version: 1,
                minor_version: 0,
            },
        },
    );
    assert!(manifest.get_modules().is_none());
    manifest.add_module(Module {
        description: String::new(),
        module_type: ModuleType::Data,
        uuid: "e3741960-a214-493b-be75-67d91999a07a".to_string(),
        version: Version {
            version_type: None,
            version: 1,
            minor_version: 0,
        },
    });
    assert_eq!(manifest.get_modules().unwrap().len(), 1);
    assert!(manifest.get_subpack().is_none());
    manifest.add_subpack(Subpack {
        folder_name: "sub".to_string(),
        name: "Sub".to_string(),
        memory_tier: 1,
    });
    assert_eq!(manifest.get_subpack().unwrap().len(), 1);
    assert!(manifest.get_dependency().is_none());
    manifest.add_dependency(Dependency {
        uuid: "c4ba1ec1-ec16-44a2-b0ee-864fc2058895".to_string(),
        version: Version {
            version_type: None,
            version: 1,
            minor_version: 0,
        },
    });
    assert_eq!(manifest.get_dependency().unwrap().len(), 1);
}

#[test]
fn config_paths_follow_the_conventions() {
    let config = TetanusConfig {
        enable_rotation_filter: true,
        enable_office: true,
        rp_path: "RP".to_string(),
        bp_path: "BP".to_string(),
        data_path: "data".to_string(),
        script_path: "data/gametests/src".to_string(),
        base_path: "./".to_string(),
        main_file: "main".to_string(),
    };
    assert_eq!(config.real_script_dir(), ".//data/gametests/src");
    assert_eq!(config.real_main(), "main.ts");
}

#[test]
fn decimal_rendering_matches_the_usual_digits() {
    assert_eq!(u64_to_string(0), "0");
    assert_eq!(u64_to_string(7), "7");
    assert_eq!(u64_to_string(10), "10");
    assert_eq!(u64_to_string(90521), "90521");
    assert_eq!(u64_to_string(u64::MAX), "18446744073709551615");
}

#[test]
fn resolvers_derive_output_locations() {
    let mut base = BaseResolver::new("./out".to_string());
    assert_eq!(base.get_behaviour_base(), "./out/BP");
    assert_eq!(base.get_resource_base(), "./out/RP");
    assert_eq!(base.get_behaviour_block_base(), "./out/BP/blocks");
    assert_eq!(base.get_behaviour_item_base(), "./out/BP/items");
    assert_eq!(base.get_behaviour_block_output("azur:rock"), "./out/BP/azur_rock.json");

    let mut parsed = ParsedAddonResolver::new(
        "./out".to_string(),
        "BP".to_string(),
        "RP".to_string(),
    );
    assert_eq!(
        parsed.get_behaviour_block_output("azur:rock"),
        "./out/BP/azur_rock.json"
    );
    parsed.record_block_path("azur:rock".to_string(), "stones/rock.json".to_string());
    assert_eq!(
        parsed.get_behaviour_block_output("azur:rock"),
        "./out/BP/blocks/stones/rock.json"
    );
    parsed.record_item_path("azur:shell".to_string(), "shells/shell.json".to_string());
    assert_eq!(
        parsed.get_behaviour_item_output("azur:shell"),
        "./out/BP/items/shells/shell.json"
    );
    assert_eq!(
        parsed.get_behaviour_item_output("azur:other"),
        "./out/BP/azur_other.json"
    );
}


#[test]
fn annotation_arguments_take_the_last_value() {
    let info = ComponentInformation::new(
        vec![
            ("id".to_string(), "azur:first".to_string()),
            ("pureData".to_string(), "true".to_string()),
            ("passId".to_string(), "yes".to_string()),
            ("type".to_string(), "item".to_string()),
            ("id".to_string(), "azur:second".to_string()),
            ("colour".to_string(), "ignored".to_string()),
        ],
        ComponentStaticInformation {
            class_id: "Swapped".to_string(),
            relative_path: "swapped.ts".to_string(),
        },
    )
    .unwrap();
    assert_eq!(info.search_id, "azur:second");
    assert_eq!(info.component_type, ComponentType::Item);
    assert!(info.is_pure_data);
    assert!(!info.pass_id);
}

#[test]
fn instance_recording_passes_the_owner_when_asked() {
    let info = ComponentInformation::new(
        vec![
            ("id".to_string(), "azur:tagged".to_string()),
            ("type".to_string(), "block".to_string()),
            ("passId".to_string(), "true".to_string()),
        ],
        ComponentStaticInformation {
            class_id: "Tagged".to_string(),
            relative_path: "tagged.ts".to_string(),
        },
    )
    .unwrap();
    let mut registry = CustomComponentRegistry::build_from_list(vec![info]);
    let (name, pure) = registry
        .instance_component_block("azur:tagged", "azur:owner_block", JsonValue::Null)
        .unwrap();
    assert_eq!(name, "azur:tagged_1");
    assert!(!pure);
    let instance = &registry.block_instances_iter()[0];
    assert_eq!(instance.owner_id.as_deref(), Some("azur:owner_block"));
    assert!(registry
        .instance_component_block("azur:unbound", "azur:owner_block", JsonValue::Null)
        .is_none());
}
