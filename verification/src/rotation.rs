//! The rotation handler: a consumer of the extension contract that
//! compiles an `azur:rotation` custom component into placement-direction
//! permutations carrying `minecraft:transformation` components.
use vstd::prelude::*;

verus! {

use crate::addon::Addon;
use crate::block::{Block, BlockModel, DescModel, PlacementDirection, Trait, TraitModel};
use crate::component::{CompModel, Component, ComponentError, ErrModel, UnknownComponent};
use crate::custom::{tame_block_apply, CustomBlockComponent, CustomComponent};
use crate::keyed::{keyed_set_model, model_keys_unique, model_set};
use crate::permutation::PermModel;
use crate::store::{spec_is_builtin_id, store_all_builtin, ComponentStore, StoreModel};
use crate::value::{Json, JsonValue};

/// The rotation handler.
pub struct Rotation;

impl CustomComponent for Rotation {
    open spec fn spec_id(&self) -> Seq<char> {
        "azur:rotation"@
    }

    fn id(&self) -> (r: &str)
        ensures
            r@ == self.spec_id(),
    {
        "azur:rotation"
    }
}

/// The store of one placement permutation: a single
/// `minecraft:transformation` component carrying the rotation vector.
pub open spec fn spec_rotation_store(x: int, y: int, z: int) -> StoreModel {
    seq![
        (
            "minecraft:transformation"@,
            CompModel::Unknown {
                id: "minecraft:transformation"@,
                data: Json::Obj(
                    seq![
                        ("rotation"@, Json::Arr(seq![Json::Int(x), Json::Int(y), Json::Int(z)])),
                    ],
                ),
            },
        ),
    ]
}

pub open spec fn spec_rotation_perm(condition: Seq<char>, x: int, y: int, z: int) -> PermModel {
    PermModel { condition: condition, components: spec_rotation_store(x, y, z) }
}

/// The four cardinal placement permutations.
pub open spec fn spec_cardinal_perms() -> Seq<PermModel> {
    seq![
        spec_rotation_perm("q.block_state('minecraft:cardinal_direction') == 'north'"@, 0, 0, 0),
        spec_rotation_perm("q.block_state('minecraft:cardinal_direction') == 'west'"@, 0, 90, 0),
        spec_rotation_perm("q.block_state('minecraft:cardinal_direction') == 'south'"@, 0, 180, 0),
        spec_rotation_perm("q.block_state('minecraft:cardinal_direction') == 'east'"@, 0, -90, 0),
    ]
}

/// The six facing placement permutations: the cardinal four plus up and
/// down.
pub open spec fn spec_facing_perms() -> Seq<PermModel> {
    seq![
        spec_rotation_perm("q.block_state('minecraft:facing_direction') == 'north'"@, 0, 0, 0),
        spec_rotation_perm("q.block_state('minecraft:facing_direction') == 'west'"@, 0, 90, 0),
        spec_rotation_perm("q.block_state('minecraft:facing_direction') == 'south'"@, 0, 180, 0),
        spec_rotation_perm("q.block_state('minecraft:facing_direction') == 'east'"@, 0, -90, 0),
        spec_rotation_perm("q.block_state('minecraft:facing_direction') == 'up'"@, 90, 0, 0),
        spec_rotation_perm("q.block_state('minecraft:facing_direction') == 'down'"@, -90, 0, 0),
    ]
}

/// The state name the written trait enables.
pub open spec fn spec_rotation_mode(add_y: bool) -> Seq<char> {
    if add_y {
        "minecraft:facing_direction"@
    } else {
        "minecraft:cardinal_direction"@
    }
}

/// What the handler reads from its payload: the `y_rotation` flag,
/// defaulting to false, or the exact decode error.
pub open spec fn spec_rotation_flag(d: Json) -> Result<bool, ErrModel> {
    if !(d is Obj) {
        Err(ErrModel::NotObjectDynamic("azur:rotation"@))
    } else {
        match d.get("y_rotation"@) {
            None => Ok(false),
            Some(Json::Bool(b)) => Ok(b),
            Some(_) => Err(ErrModel::MemberNotType("y_rotation"@, "a boolean"@)),
        }
    }
}

/// The block after a successful application: the placement permutations
/// appended, and the placement-direction trait written.
pub open spec fn spec_rotated_block(b: BlockModel, add_y: bool) -> BlockModel {
    BlockModel {
        description: DescModel {
            traits: model_set(
                b.description.traits,
                "minecraft:placement_direction"@,
                TraitModel::Direction {
                    enabled_states: seq![spec_rotation_mode(add_y)],
                    y_rotation_offset: 180,
                },
            ),
            ..b.description
        },
        permutations: b.permutations + (if add_y {
            spec_facing_perms()
        } else {
            spec_cardinal_perms()
        }),
        ..b
    }
}

/// The permutation stores the handler appends are built-in-only, with
/// distinct ids.
pub proof fn lemma_rotation_store_builtin(x: int, y: int, z: int)
    ensures
        store_all_builtin(spec_rotation_store(x, y, z)),
        model_keys_unique(spec_rotation_store(x, y, z)),
{
    reveal_strlit("minecraft:transformation");
    reveal_strlit("minecraft:");
    assert(spec_is_builtin_id("minecraft:transformation"@)) by {
        assert("minecraft:transformation"@.subrange(0, 10) =~= "minecraft:"@);
    }
}

/// One placement permutation: the given condition, and a store holding a
/// single `minecraft:transformation` component with the rotation vector.
fn rotation_perm(condition: &str, x: i64, y: i64, z: i64) -> (r: crate::permutation::Permutation)
    ensures
        r@ == spec_rotation_perm(condition@, x as int, y as int, z as int),
{
    let mut vector: Vec<JsonValue> = Vec::new();
    vector.push(JsonValue::Int(x));
    vector.push(JsonValue::Int(y));
    vector.push(JsonValue::Int(z));
    proof {
        assert(crate::value::model_seq(vector@) =~= seq![
            Json::Int(x as int),
            Json::Int(y as int),
            Json::Int(z as int),
        ]);
    }
    let mut members: Vec<(String, JsonValue)> = Vec::new();
    members.push(("rotation".to_owned(), JsonValue::Arr(vector)));
    let data = JsonValue::Obj(members);
    proof {
        assert(data@ == Json::Obj(
            seq![
                (
                    "rotation"@,
                    Json::Arr(seq![Json::Int(x as int), Json::Int(y as int), Json::Int(z as int)]),
                ),
            ],
        )) by {
            assert(crate::value::model_entries(members@) =~= seq![
                (
                    "rotation"@,
                    Json::Arr(seq![Json::Int(x as int), Json::Int(y as int), Json::Int(z as int)]),
                ),
            ]);
        }
    }
    let comp = Component::Unknown(
        UnknownComponent { id: "minecraft:transformation".to_owned(), data },
    );
    let mut store = ComponentStore::new();
    store.set_component_custom(comp, "minecraft:transformation".to_owned());
    proof {
        assert(store@ =~= spec_rotation_store(x as int, y as int, z as int));
    }
    crate::permutation::Permutation::new(condition.to_owned(), store)
}

impl Rotation {
    /// Appends the placement permutations: the four cardinal ones, and
    /// for `add_y` the six facing ones, in the named order with the named
    /// rotation vectors.
    pub fn bind_perms(blk: &mut Block, add_y: bool)
        ensures
            final(blk).description == old(blk).description,
            final(blk).components == old(blk).components,
            final(blk).format_version == old(blk).format_version,
            final(blk)@.permutations =~= old(blk)@.permutations + (if add_y {
                spec_facing_perms()
            } else {
                spec_cardinal_perms()
            }),
    {
        let ghost perms0 = blk@.permutations;
        if add_y {
            blk.permutations.push(
                rotation_perm(
                    "q.block_state('minecraft:facing_direction') == 'north'",
                    0,
                    0,
                    0,
                ),
            );
            blk.permutations.push(
                rotation_perm(
                    "q.block_state('minecraft:facing_direction') == 'west'",
                    0,
                    90,
                    0,
                ),
            );
            blk.permutations.push(
                rotation_perm(
                    "q.block_state('minecraft:facing_direction') == 'south'",
                    0,
                    180,
                    0,
                ),
            );
            blk.permutations.push(
                rotation_perm(
                    "q.block_state('minecraft:facing_direction') == 'east'",
                    0,
                    -90,
                    0,
                ),
            );
            blk.permutations.push(
                rotation_perm("q.block_state('minecraft:facing_direction') == 'up'", 90, 0, 0),
            );
            blk.permutations.push(
                rotation_perm(
                    "q.block_state('minecraft:facing_direction') == 'down'",
                    -90,
                    0,
                    0,
                ),
            );
            proof {
                assert(blk@.permutations =~= perms0 + spec_facing_perms());
            }
        } else {
            blk.permutations.push(
                rotation_perm(
                    "q.block_state('minecraft:cardinal_direction') == 'north'",
                    0,
                    0,
                    0,
                ),
            );
            blk.permutations.push(
                rotation_perm(
                    "q.block_state('minecraft:cardinal_direction') == 'west'",
                    0,
                    90,
                    0,
                ),
            );
            blk.permutations.push(
                rotation_perm(
                    "q.block_state('minecraft:cardinal_direction') == 'south'",
                    0,
                    180,
                    0,
                ),
            );
            blk.permutations.push(
                rotation_perm(
                    "q.block_state('minecraft:cardinal_direction') == 'east'",
                    0,
                    -90,
                    0,
                ),
            );
            proof {
                assert(blk@.permutations =~= perms0 + spec_cardinal_perms());
            }
        }
    }
}

impl CustomBlockComponent<crate::custom::EmptyBlockState> for Rotation {
    type Error = ComponentError;

    open spec fn tame() -> bool {
        true
    }

    /// Reads the `y_rotation` flag from the payload; on success the owner
    /// becomes exactly the block with the placement permutations appended
    /// and the placement-direction trait written, and nothing else moves.
    fn apply_component(
        &mut self,
        data: &JsonValue,
        owner: &mut Block,
        context: &mut ComponentStore,
        addon: &mut Addon,
        state: &mut crate::custom::EmptyBlockState,
    ) -> (r: Result<(), ComponentError>)
        ensures
            <Rotation as CustomBlockComponent<crate::custom::EmptyBlockState>>::tame()
                ==> tame_block_apply(
                old(owner)@,
                final(owner)@,
                old(context)@,
                final(context)@,
                old(addon)@,
                final(addon)@,
            ),
            *final(context) == *old(context),
            *final(addon) == *old(addon),
            match spec_rotation_flag(data@) {
                Ok(add_y) => r is Ok && final(owner)@ == spec_rotated_block(old(owner)@, add_y),
                Err(e) => r is Err && r->Err_0@ == e && *final(owner) == *old(owner),
            },
    {
        proof {
            assert forall|i: int|
                0 <= i < context@.len() && !spec_is_builtin_id(
                    (#[trigger] context@[i]).0,
                ) implies crate::keyed::model_key_has(context@, context@[i].0) by {
                crate::keyed::lemma_model_key_idx_spec(context@, context@[i].0, 0);
            }
        }
        if data.as_object().is_none() {
            return Err(ComponentError::NotObjectDynamic("azur:rotation".to_owned()));
        }
        let add_y = match data.get("y_rotation") {
            None => false,
            Some(v) => match v.as_bool() {
                Some(b) => b,
                None => {
                    return Err(ComponentError::MemberNotType("y_rotation", "a boolean"));
                },
            },
        };
        Rotation::bind_perms(owner, add_y);
        let mode = if add_y {
            "minecraft:facing_direction"
        } else {
            "minecraft:cardinal_direction"
        };
        let mut states: Vec<String> = Vec::new();
        states.push(mode.to_owned());
        let tr = Trait::PlacementDirection(
            PlacementDirection { enabled_states: states, y_rotation_offset: 180 },
        );
        proof {
            assert(tr@ == (TraitModel::Direction {
                enabled_states: seq![spec_rotation_mode(add_y)],
                y_rotation_offset: 180,
            })) by {
                assert(crate::component::str_views(tr->PlacementDirection_0.enabled_states@)
                    =~= seq![spec_rotation_mode(add_y)]);
            }
        }
        keyed_set_model(
            &mut owner.description.traits,
            "minecraft:placement_direction".to_owned(),
            tr,
        );
        proof {
            assert(owner@ =~= spec_rotated_block(old(owner)@, add_y));
            assert forall|i: int|
                old(owner)@.permutations.len() <= i < owner@.permutations.len()
                    implies store_all_builtin(
                (#[trigger] owner@.permutations[i]).components,
            ) by {
                let appended = if add_y {
                    spec_facing_perms()
                } else {
                    spec_cardinal_perms()
                };
                let p = appended[i - old(owner)@.permutations.len()];
                assert(owner@.permutations[i] == p);
                lemma_rotation_store_builtin(0, 0, 0);
                lemma_rotation_store_builtin(0, 90, 0);
                lemma_rotation_store_builtin(0, 180, 0);
                lemma_rotation_store_builtin(0, -90, 0);
                lemma_rotation_store_builtin(90, 0, 0);
                lemma_rotation_store_builtin(-90, 0, 0);
            }
        }
        Ok(())
    }
}

} // verus!
