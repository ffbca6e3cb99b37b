//! The annotation-driven component registry: static information pulled
//! from source annotations, instance bookkeeping across a processing run,
//! and the handlers that compile annotated custom components down to
//! `minecraft:custom_components` entries.
use vstd::prelude::*;

verus! {

use vstd::string::StringExecFns;
use crate::addon::Addon;
use crate::block::Block;
use crate::component::Component;
use crate::custom::{tame_block_apply, tame_item_apply, CustomBlockComponent, CustomComponent, CustomItemComponent};
use crate::item::Item;
use crate::keyed::{key_has, keyed_get, keyed_set, lemma_key_idx_spec};
use crate::store::ComponentStore;
use crate::value::{spec_dec_digits, u64_to_string, JsonValue};

/// A failure while reading annotation arguments.
#[derive(Debug)]
pub enum ComponentInformationError {
    /// The `type` argument names no component type.
    InvalidComponentType(String),
    /// A required argument is absent: its name, its type, and the class.
    MissingRequiredParam(&'static str, &'static str, String),
}

/// Which pass an annotated component takes part in.
#[derive(Debug, Clone, Copy, PartialEq, Eq, Structural)]
pub enum ComponentType {
    Item,
    Block,
    Both,
    Invalid,
}

impl ComponentType {
    /// The type named by an argument value, if any.
    pub open spec fn spec_from_name(s: Seq<char>) -> Option<ComponentType> {
        if s == "item"@ {
            Some(ComponentType::Item)
        } else if s == "block"@ {
            Some(ComponentType::Block)
        } else if s == "both"@ {
            Some(ComponentType::Both)
        } else {
            None
        }
    }

    /// Reads a component type name; every other text is rejected, named
    /// in the error.
    pub fn from_str(s: &str) -> (r: Result<ComponentType, ComponentInformationError>)
        ensures
            match r {
                Ok(t) => ComponentType::spec_from_name(s@) == Some(t),
                Err(e) => ComponentType::spec_from_name(s@) is None && e
                    is InvalidComponentType && e->InvalidComponentType_0@ == s@,
            },
    {
        if crate::value::str_eq(s, "item") {
            Ok(ComponentType::Item)
        } else if crate::value::str_eq(s, "block") {
            Ok(ComponentType::Block)
        } else if crate::value::str_eq(s, "both") {
            Ok(ComponentType::Both)
        } else {
            Err(ComponentInformationError::InvalidComponentType(s.to_owned()))
        }
    }
}

/// Where an annotated class lives: its name and the source file's
/// relative location.
#[derive(Debug)]
pub struct ComponentStaticInformation {
    pub class_id: String,
    pub relative_path: String,
}

/// Everything an annotation declares about one component class.
#[derive(Debug)]
pub struct ComponentInformation {
    pub search_id: String,
    pub component_type: ComponentType,
    pub is_pure_data: bool,
    pub pass_id: bool,
    pub information: ComponentStaticInformation,
}

/// What a prefix of an argument list leaves in the four fields, starting
/// from the given values; an unreadable `type` value is the error.
pub open spec fn spec_fold_args(
    args: Seq<(Seq<char>, Seq<char>)>,
    acc: (Seq<char>, ComponentType, bool, bool),
) -> Result<(Seq<char>, ComponentType, bool, bool), Seq<char>>
    decreases args.len(),
{
    if args.len() == 0 {
        Ok(acc)
    } else {
        let name = args[0].0;
        let val = args[0].1;
        if name == "type"@ && ComponentType::spec_from_name(val) is None {
            Err(val)
        } else {
            spec_fold_args(
                args.drop_first(),
                if name == "id"@ {
                    (val, acc.1, acc.2, acc.3)
                } else if name == "type"@ {
                    (acc.0, ComponentType::spec_from_name(val)->Some_0, acc.2, acc.3)
                } else if name == "pureData"@ {
                    (acc.0, acc.1, val == "true"@, acc.3)
                } else if name == "passId"@ {
                    (acc.0, acc.1, acc.2, val == "true"@)
                } else {
                    acc
                },
            )
        }
    }
}

/// The starting field values of an annotation read.
pub open spec fn spec_args_start() -> (Seq<char>, ComponentType, bool, bool) {
    (Seq::empty(), ComponentType::Invalid, false, false)
}

impl ComponentInformation {
    /// Reads an argument list, later values replacing earlier ones:
    /// `id` and `type` are required, `pureData` and `passId` default to
    /// false, unknown arguments are ignored.
    #[verifier::loop_isolation(false)]
    pub fn new(arg_list: Vec<(String, String)>, information: ComponentStaticInformation) -> (r:
        Result<ComponentInformation, ComponentInformationError>)
        ensures
            ({
                let folded = spec_fold_args(args_model(arg_list@), spec_args_start());
                match r {
                    Ok(ci) => folded is Ok && folded->Ok_0.0.len() > 0 && folded->Ok_0.1
                        != ComponentType::Invalid && ci.search_id@ == folded->Ok_0.0
                        && ci.component_type == folded->Ok_0.1 && ci.is_pure_data
                        == folded->Ok_0.2 && ci.pass_id == folded->Ok_0.3 && ci.information
                        == information,
                    Err(ComponentInformationError::InvalidComponentType(t)) => folded is Err
                        && t@ == folded->Err_0,
                    Err(ComponentInformationError::MissingRequiredParam(p, _, cls)) => folded
                        is Ok && cls@ == information.class_id@ && ((p@ == "id"@
                        && folded->Ok_0.0.len() == 0) || (p@ == "type"@ && folded->Ok_0.0.len()
                        > 0 && folded->Ok_0.1 == ComponentType::Invalid)),
                }
            }),
    {
        let ghost m = args_model(arg_list@);
        let mut search_id: String = String::new();
        let mut component_type: ComponentType = ComponentType::Invalid;
        let mut is_pure_data = false;
        let mut pass_id = false;
        let mut i: usize = 0;
        proof {
            assert(m.skip(0) =~= m);
        }
        while i < arg_list.len()
            invariant
                m == args_model(arg_list@),
                0 <= i <= arg_list@.len(),
                spec_fold_args(m, spec_args_start()) == spec_fold_args(
                    m.skip(i as int),
                    (search_id@, component_type, is_pure_data, pass_id),
                ),
            decreases arg_list@.len() - i,
        {
            proof {
                reveal_strlit("id");
                reveal_strlit("type");
                reveal_strlit("pureData");
                reveal_strlit("passId");
                assert("id"@.len() == 2 && "type"@.len() == 4);
                assert("pureData"@.len() == 8 && "passId"@.len() == 6);
                assert(m.skip(i as int)[0] == m[i as int]);
                assert(m.skip(i as int).drop_first() =~= m.skip(i as int + 1));
            }
            let name = arg_list[i].0.as_str();
            if crate::value::str_eq(name, "id") {
                search_id = arg_list[i].1.clone();
            } else if crate::value::str_eq(name, "type") {
                component_type = match ComponentType::from_str(arg_list[i].1.as_str()) {
                    Ok(t) => t,
                    Err(e) => {
                        return Err(e);
                    },
                };
            } else if crate::value::str_eq(name, "pureData") {
                is_pure_data = crate::value::str_eq(arg_list[i].1.as_str(), "true");
            } else if crate::value::str_eq(name, "passId") {
                pass_id = crate::value::str_eq(arg_list[i].1.as_str(), "true");
            }
            i += 1;
        }
        if search_id.as_str().unicode_len() == 0 {
            return Err(
                ComponentInformationError::MissingRequiredParam(
                    "id",
                    "string",
                    information.class_id,
                ),
            );
        }
        if component_type == ComponentType::Invalid {
            return Err(
                ComponentInformationError::MissingRequiredParam(
                    "type",
                    "component type",
                    information.class_id,
                ),
            );
        }
        Ok(ComponentInformation { search_id, component_type, is_pure_data, pass_id, information })
    }

    fn info_clone(&self) -> (r: ComponentInformation)
        ensures
            r.search_id@ == self.search_id@,
            r.component_type == self.component_type,
            r.is_pure_data == self.is_pure_data,
            r.pass_id == self.pass_id,
            r.information.class_id@ == self.information.class_id@,
            r.information.relative_path@ == self.information.relative_path@,
    {
        ComponentInformation {
            search_id: self.search_id.clone(),
            component_type: self.component_type,
            is_pure_data: self.is_pure_data,
            pass_id: self.pass_id,
            information: ComponentStaticInformation {
                class_id: self.information.class_id.clone(),
                relative_path: self.information.relative_path.clone(),
            },
        }
    }
}

/// One recorded instantiation of an annotated component on an entity.
#[derive(Debug)]
pub struct ComponentInstance {
    pub static_information: ComponentInformation,
    pub owner_id: Option<String>,
    pub instance_id: u64,
    pub data: JsonValue,
}

/// The registry built from all annotations: the classes by pass, and the
/// instances recorded while processing.
#[derive(Debug)]
pub struct CustomComponentRegistry {
    block_list: Vec<(String, ComponentInformation)>,
    item_list: Vec<(String, ComponentInformation)>,
    instance_id: u64,
    block_instances: Vec<ComponentInstance>,
    item_instances: Vec<ComponentInstance>,
}

impl CustomComponentRegistry {
    pub closed spec fn spec_block_list(&self) -> Seq<(String, ComponentInformation)> {
        self.block_list@
    }

    pub closed spec fn spec_item_list(&self) -> Seq<(String, ComponentInformation)> {
        self.item_list@
    }

    pub closed spec fn spec_block_instances(&self) -> Seq<ComponentInstance> {
        self.block_instances@
    }

    pub closed spec fn spec_item_instances(&self) -> Seq<ComponentInstance> {
        self.item_instances@
    }

    /// Sorts annotated classes into the block and item lists; a class for
    /// both passes goes into both.
    #[verifier::loop_isolation(false)]
    pub fn build_from_list(components: Vec<ComponentInformation>) -> (r: CustomComponentRegistry)
        requires
            forall|i: int|
                0 <= i < components@.len() ==> (#[trigger] components@[i]).component_type
                    != ComponentType::Invalid,
        ensures
            r.spec_block_instances().len() == 0,
            r.spec_item_instances().len() == 0,
    {
        let mut out = CustomComponentRegistry {
            block_list: Vec::new(),
            item_list: Vec::new(),
            instance_id: 0,
            block_instances: Vec::new(),
            item_instances: Vec::new(),
        };
        let mut i: usize = 0;
        while i < components.len()
            invariant
                0 <= i <= components@.len(),
                out.block_instances@.len() == 0,
                out.item_instances@.len() == 0,
            decreases components@.len() - i,
        {
            let c = &components[i];
            match c.component_type {
                ComponentType::Item => {
                    keyed_set(&mut out.item_list, c.search_id.clone(), c.info_clone());
                },
                ComponentType::Block => {
                    keyed_set(&mut out.block_list, c.search_id.clone(), c.info_clone());
                },
                ComponentType::Both => {
                    keyed_set(&mut out.item_list, c.search_id.clone(), c.info_clone());
                    keyed_set(&mut out.block_list, c.search_id.clone(), c.info_clone());
                },
                ComponentType::Invalid => {
                    proof {
                        assert(false);
                    }
                },
            }
            i += 1;
        }
        out
    }

    /// The block-pass classes, in registration order.
    pub fn block_list_iter(&self) -> (r: &Vec<(String, ComponentInformation)>)
        ensures
            r@ == self.spec_block_list(),
    {
        &self.block_list
    }

    /// The item-pass classes, in registration order.
    pub fn item_list_iter(&self) -> (r: &Vec<(String, ComponentInformation)>)
        ensures
            r@ == self.spec_item_list(),
    {
        &self.item_list
    }

    /// The block instances recorded so far, in recording order.
    pub fn block_instances_iter(&self) -> (r: &Vec<ComponentInstance>)
        ensures
            r@ == self.spec_block_instances(),
    {
        &self.block_instances
    }

    /// The item instances recorded so far, in recording order.
    pub fn item_instances_iter(&self) -> (r: &Vec<ComponentInstance>)
        ensures
            r@ == self.spec_item_instances(),
    {
        &self.item_instances
    }

    /// Records one block instantiation and names it `<id>_<n>` with the
    /// fresh instance number; also says whether the class is pure data.
    pub fn instance_component_block(
        &mut self,
        component_id: &str,
        owner_id: &str,
        data: JsonValue,
    ) -> (r: Option<(String, bool)>)
        requires
            old(self).instance_count() < u64::MAX,
        ensures
            final(self).spec_item_instances() == old(self).spec_item_instances(),
            final(self).spec_block_list() == old(self).spec_block_list(),
            final(self).spec_item_list() == old(self).spec_item_list(),
            match r {
                Some(p) => key_has(old(self).spec_block_list(), component_id@) && p.0@
                    == component_id@ + "_"@ + spec_dec_digits(
                    old(self).instance_count() + 1,
                ) && final(self).instance_count() == old(self).instance_count() + 1 && final(self).spec_block_instances() =~= old(self).spec_block_instances().push(
                    final(self).spec_block_instances().last(),
                ) && ({
                    let inst = final(self).spec_block_instances().last();
                    let info = crate::keyed::key_find(
                        old(self).spec_block_list(),
                        component_id@,
                    )->Some_0;
                    &&& inst.instance_id as int == old(self).instance_count() + 1
                    &&& inst.data == data
                    &&& p.1 == info.is_pure_data
                    &&& inst.static_information.search_id@ == info.search_id@
                    &&& inst.static_information.component_type == info.component_type
                    &&& inst.static_information.is_pure_data == info.is_pure_data
                    &&& inst.static_information.pass_id == info.pass_id
                    &&& (info.pass_id ==> inst.owner_id is Some && inst.owner_id->0@
                        == owner_id@)
                    &&& (!info.pass_id ==> inst.owner_id is None)
                }),
                None => !key_has(old(self).spec_block_list(), component_id@) && *final(self)
                    == *old(self),
            },
    {
        proof {
            lemma_key_idx_spec(self.block_list@, component_id@, 0);
        }
        let info = match keyed_get(&self.block_list, component_id) {
            Some(info) => info.info_clone(),
            None => {
                return None;
            },
        };
        self.instance_id = self.instance_id + 1;
        let is_pure = info.is_pure_data;
        let owner = if info.pass_id {
            Some(owner_id.to_owned())
        } else {
            None
        };
        self.block_instances.push(
            ComponentInstance {
                static_information: info,
                owner_id: owner,
                instance_id: self.instance_id,
                data,
            },
        );
        let name = component_id.to_owned().concat("_").concat(
            u64_to_string(self.instance_id).as_str(),
        );
        Some((name, is_pure))
    }

    /// Records one item instantiation, as the block form does.
    pub fn instance_component_item(
        &mut self,
        component_id: &str,
        owner_id: &str,
        data: JsonValue,
    ) -> (r: Option<(String, bool)>)
        requires
            old(self).instance_count() < u64::MAX,
        ensures
            final(self).spec_block_instances() == old(self).spec_block_instances(),
            final(self).spec_block_list() == old(self).spec_block_list(),
            final(self).spec_item_list() == old(self).spec_item_list(),
            match r {
                Some(p) => key_has(old(self).spec_item_list(), component_id@) && p.0@
                    == component_id@ + "_"@ + spec_dec_digits(
                    old(self).instance_count() + 1,
                ) && final(self).instance_count() == old(self).instance_count() + 1 && final(self).spec_item_instances() =~= old(self).spec_item_instances().push(
                    final(self).spec_item_instances().last(),
                ) && ({
                    let inst = final(self).spec_item_instances().last();
                    let info = crate::keyed::key_find(
                        old(self).spec_item_list(),
                        component_id@,
                    )->Some_0;
                    &&& inst.instance_id as int == old(self).instance_count() + 1
                    &&& inst.data == data
                    &&& p.1 == info.is_pure_data
                    &&& inst.static_information.search_id@ == info.search_id@
                    &&& inst.static_information.component_type == info.component_type
                    &&& inst.static_information.is_pure_data == info.is_pure_data
                    &&& inst.static_information.pass_id == info.pass_id
                    &&& (info.pass_id ==> inst.owner_id is Some && inst.owner_id->0@
                        == owner_id@)
                    &&& (!info.pass_id ==> inst.owner_id is None)
                }),
                None => !key_has(old(self).spec_item_list(), component_id@) && *final(self)
                    == *old(self),
            },
    {
        proof {
            lemma_key_idx_spec(self.item_list@, component_id@, 0);
        }
        let info = match keyed_get(&self.item_list, component_id) {
            Some(info) => info.info_clone(),
            None => {
                return None;
            },
        };
        self.instance_id = self.instance_id + 1;
        let is_pure = info.is_pure_data;
        let owner = if info.pass_id {
            Some(owner_id.to_owned())
        } else {
            None
        };
        self.item_instances.push(
            ComponentInstance {
                static_information: info,
                owner_id: owner,
                instance_id: self.instance_id,
                data,
            },
        );
        let name = component_id.to_owned().concat("_").concat(
            u64_to_string(self.instance_id).as_str(),
        );
        Some((name, is_pure))
    }

    /// How many instances have been recorded over both passes.
    pub closed spec fn instance_count(&self) -> int {
        self.instance_id as int
    }
}

/// The shared state the office handlers accumulate: the registry with its
/// growing instance record.
pub struct OfficeState {
    pub registry: CustomComponentRegistry,
}

impl OfficeState {
    pub fn new(registry: CustomComponentRegistry) -> (r: OfficeState)
        ensures
            r.registry == registry,
    {
        OfficeState { registry }
    }
}

/// A block-pass handler error; the office block handlers cannot fail.
#[derive(Debug)]
pub enum BlockError {
    Unreachable,
}

/// An item-pass handler error; the office item handlers cannot fail.
#[derive(Debug)]
pub enum ItemError {
    Unreachable,
}


impl CustomComponentRegistry {
    /// Whether the instance counter is exhausted.
    pub fn at_capacity(&self) -> (r: bool)
        ensures
            r == (self.instance_count() == u64::MAX),
    {
        self.instance_id == u64::MAX
    }
}

/// A handler synthesized for one annotated block component class: it
/// records the instantiation and lists the instance name under
/// `minecraft:custom_components`.
pub struct CustomComponentInstance {
    id: String,
}

impl CustomComponentInstance {
    pub fn new(id: String) -> (r: CustomComponentInstance)
        ensures
            r.spec_id() == id@,
    {
        CustomComponentInstance { id }
    }
}

impl CustomComponent for CustomComponentInstance {
    closed spec fn spec_id(&self) -> Seq<char> {
        self.id@
    }

    fn id(&self) -> (r: &str)
        ensures
            r@ == self.spec_id(),
    {
        self.id.as_str()
    }
}

/// Appends or replaces the instance name in a custom-component id list:
/// an entry for the same class (the id as its prefix) is replaced, else
/// the name is appended.
#[verifier::loop_isolation(false)]
fn place_instance_name(ids: &mut Vec<String>, class_id: &str, name: String) {
    let mut i: usize = 0;
    let n = ids.len();
    while i < n
        invariant
            0 <= i <= n,
            n == ids@.len() || ids@.len() == n,
        decreases n - i,
    {
        if i < ids.len() {
            if crate::value::str_has_prefix(ids[i].as_str(), class_id) {
                ids.set(i, name);
                return ;
            }
        }
        i += 1;
    }
    ids.push(name);
}

proof fn lemma_builtin_custom_components()
    ensures
        crate::store::spec_is_builtin_id("minecraft:custom_components"@),
{
    reveal_strlit("minecraft:custom_components");
    reveal_strlit("minecraft:");
    assert("minecraft:custom_components"@.subrange(0, 10) =~= "minecraft:"@);
}

/// Setting a component under a built-in id neither adds a custom id nor
/// breaks id distinctness.
proof fn lemma_set_builtin_tame(
    olds: crate::store::StoreModel,
    news: crate::store::StoreModel,
    key: Seq<char>,
    c: crate::component::CompModel,
)
    requires
        crate::store::spec_is_builtin_id(key),
        news == crate::keyed::model_set(olds, key, c),
    ensures
        forall|i: int|
            0 <= i < news.len() && !crate::store::spec_is_builtin_id((#[trigger] news[i]).0)
                ==> crate::keyed::model_key_has(olds, news[i].0),
{
    crate::keyed::lemma_model_key_idx_spec(olds, key, 0);
    assert forall|i: int|
        0 <= i < news.len() && !crate::store::spec_is_builtin_id(
            (#[trigger] news[i]).0,
        ) implies crate::keyed::model_key_has(olds, news[i].0) by {
        match crate::keyed::model_key_idx(olds, key) {
            Some(j) => {
                assert(news[i] == olds.update(j, (key, c))[i]);
                assert(news[i] == olds[i]);
                crate::keyed::lemma_model_key_idx_spec(olds, olds[i].0, 0);
            },
            None => {
                assert(news[i] == olds.push((key, c))[i]);
                assert(i < olds.len());
                assert(news[i] == olds[i]);
                crate::keyed::lemma_model_key_idx_spec(olds, olds[i].0, 0);
            },
        }
    }
}

impl CustomBlockComponent<OfficeState> for CustomComponentInstance {
    type Error = BlockError;

    open spec fn tame() -> bool {
        true
    }

    /// Records the instantiation and writes the instance name into the
    /// context store's `minecraft:custom_components` list; never fails,
    /// leaves the owner and the addon alone, and touches no other context
    /// entry.
    fn apply_component(
        &mut self,
        data: &JsonValue,
        owner: &mut Block,
        context: &mut ComponentStore,
        addon: &mut Addon,
        state: &mut OfficeState,
    ) -> (r: Result<(), BlockError>)
        ensures
            Self::tame() ==> tame_block_apply(
                old(owner)@,
                final(owner)@,
                old(context)@,
                final(context)@,
                old(addon)@,
                final(addon)@,
            ),
            r is Ok,
            *final(owner) == *old(owner),
            *final(addon) == *old(addon),
            forall|other: Seq<char>|
                other != "minecraft:custom_components"@ ==> #[trigger] crate::keyed::model_key_find(
                    final(context)@,
                    other,
                ) == crate::keyed::model_key_find(old(context)@, other),
    {
        proof {
            assert forall|i: int|
                0 <= i < context@.len() && !crate::store::spec_is_builtin_id(
                    (#[trigger] context@[i]).0,
                ) implies crate::keyed::model_key_has(context@, context@[i].0) by {
                crate::keyed::lemma_model_key_idx_spec(context@, context@[i].0, 0);
            }
        }
        if state.registry.at_capacity() {
            return Ok(());
        }
        let rec = state.registry.instance_component_block(
            self.id.as_str(),
            owner.description.identifier.as_str(),
            data.duplicate(),
        );
        let (name, skip) = match rec {
            Some(p) => p,
            None => {
                return Ok(());
            },
        };
        let existing = context.get_component("minecraft:custom_components");
        match existing {
            Some(Component::CustomComponents(mut cc)) => {
                cc.component_ids.push(name);
                let ghost pre = context@;
                context.set_component_custom(
                    Component::CustomComponents(cc),
                    "minecraft:custom_components".to_owned(),
                );
                proof {
                    lemma_builtin_custom_components();
                    lemma_set_builtin_tame(
                        pre,
                        context@,
                        "minecraft:custom_components"@,
                        Component::CustomComponents(cc)@,
                    );
                    assert forall|other: Seq<char>|
                        other != "minecraft:custom_components"@ implies #[trigger] crate::keyed::model_key_find(
                        context@,
                        other,
                    ) == crate::keyed::model_key_find(pre, other) by {
                        crate::keyed::lemma_model_set_other(
                            pre,
                            "minecraft:custom_components"@,
                            Component::CustomComponents(cc)@,
                            other,
                        );
                    }
                }
            },
            _ => {
                if !skip {
                    let mut cc = match owner.components.get_component(
                        "minecraft:custom_components",
                    ) {
                        Some(Component::CustomComponents(c)) => c,
                        _ => crate::component::MinecraftCustomComponents {
                            component_ids: Vec::new(),
                        },
                    };
                    place_instance_name(&mut cc.component_ids, self.id.as_str(), name);
                    let ghost pre = context@;
                    context.set_component_custom(
                        Component::CustomComponents(cc),
                        "minecraft:custom_components".to_owned(),
                    );
                    proof {
                        lemma_builtin_custom_components();
                        lemma_set_builtin_tame(
                            pre,
                            context@,
                            "minecraft:custom_components"@,
                            Component::CustomComponents(cc)@,
                        );
                        assert forall|other: Seq<char>|
                            other != "minecraft:custom_components"@ implies #[trigger] crate::keyed::model_key_find(
                            context@,
                            other,
                        ) == crate::keyed::model_key_find(pre, other) by {
                            crate::keyed::lemma_model_set_other(
                                pre,
                                "minecraft:custom_components"@,
                                Component::CustomComponents(cc)@,
                                other,
                            );
                        }
                    }
                }
            },
        }
        Ok(())
    }
}

/// A handler synthesized for one annotated item component class.
pub struct ItemComponentInstance {
    id: String,
}

impl ItemComponentInstance {
    pub fn new(id: String) -> (r: ItemComponentInstance)
        ensures
            r.spec_id() == id@,
    {
        ItemComponentInstance { id }
    }
}

impl CustomComponent for ItemComponentInstance {
    closed spec fn spec_id(&self) -> Seq<char> {
        self.id@
    }

    fn id(&self) -> (r: &str)
        ensures
            r@ == self.spec_id(),
    {
        self.id.as_str()
    }
}

impl CustomItemComponent<OfficeState> for ItemComponentInstance {
    type Error = ItemError;

    open spec fn tame() -> bool {
        true
    }

    /// Records the instantiation and writes the instance name into the
    /// context store's `minecraft:custom_components` list; never fails,
    /// leaves the owner and the addon alone, and touches no other context
    /// entry.
    fn apply_component(
        &mut self,
        data: &JsonValue,
        owner: &mut Item,
        context: &mut ComponentStore,
        addon: &mut Addon,
        state: &mut OfficeState,
    ) -> (r: Result<(), ItemError>)
        ensures
            Self::tame() ==> tame_item_apply(
                old(owner)@,
                final(owner)@,
                old(context)@,
                final(context)@,
                old(addon)@,
                final(addon)@,
            ),
            r is Ok,
            *final(owner) == *old(owner),
            *final(addon) == *old(addon),
            forall|other: Seq<char>|
                other != "minecraft:custom_components"@ ==> #[trigger] crate::keyed::model_key_find(
                    final(context)@,
                    other,
                ) == crate::keyed::model_key_find(old(context)@, other),
    {
        proof {
            assert forall|i: int|
                0 <= i < context@.len() && !crate::store::spec_is_builtin_id(
                    (#[trigger] context@[i]).0,
                ) implies crate::keyed::model_key_has(context@, context@[i].0) by {
                crate::keyed::lemma_model_key_idx_spec(context@, context@[i].0, 0);
            }
        }
        if state.registry.at_capacity() {
            return Ok(());
        }
        let rec = state.registry.instance_component_item(
            self.id.as_str(),
            owner.description.identifier.as_str(),
            data.duplicate(),
        );
        let (name, skip) = match rec {
            Some(p) => p,
            None => {
                return Ok(());
            },
        };
        if skip {
            return Ok(());
        }
        let mut cc = match context.get_component("minecraft:custom_components") {
            Some(Component::CustomComponents(c)) => c,
            _ => crate::component::MinecraftCustomComponents { component_ids: Vec::new() },
        };
        cc.component_ids.push(name);
        let ghost pre = context@;
        context.set_component_custom(
            Component::CustomComponents(cc),
            "minecraft:custom_components".to_owned(),
        );
        proof {
            lemma_builtin_custom_components();
            lemma_set_builtin_tame(
                pre,
                context@,
                "minecraft:custom_components"@,
                Component::CustomComponents(cc)@,
            );
            assert forall|other: Seq<char>|
                other != "minecraft:custom_components"@ implies #[trigger] crate::keyed::model_key_find(
                context@,
                other,
            ) == crate::keyed::model_key_find(pre, other) by {
                crate::keyed::lemma_model_set_other(
                    pre,
                    "minecraft:custom_components"@,
                    Component::CustomComponents(cc)@,
                    other,
                );
            }
        }
        Ok(())
    }
}

/// Builds the processor for a registry: one synthesized handler per
/// annotated class, bound under its annotation id, sharing the registry
/// as user state.
#[verifier::loop_isolation(false)]
pub fn register_component_types(register: CustomComponentRegistry) -> (r: crate::processor::AddonProcessor<CustomComponentInstance, ItemComponentInstance, OfficeState>)
    ensures
        forall|id: Seq<char>|
            key_has(register.spec_block_list(), id) ==> #[trigger] key_has(
                r.block_handlers(),
                id,
            ),
        forall|id: Seq<char>|
            key_has(register.spec_item_list(), id) ==> #[trigger] key_has(
                r.item_handlers(),
                id,
            ),
        r.spec_state() == (OfficeState { registry: register }),
{
    let ghost blist0 = register.spec_block_list();
    let ghost ilist0 = register.spec_item_list();
    let mut block_ids: Vec<String> = Vec::new();
    let blist = register.block_list_iter();
    let mut i: usize = 0;
    while i < blist.len()
        invariant
            0 <= i <= blist0.len(),
            block_ids@.len() == i,
            forall|j: int| 0 <= j < i ==> (#[trigger] block_ids@[j])@ == blist0[j].0@,
        decreases blist@.len() - i,
    {
        block_ids.push(blist[i].0.clone());
        i += 1;
    }
    let mut item_ids: Vec<String> = Vec::new();
    let ilist = register.item_list_iter();
    let mut j: usize = 0;
    while j < ilist.len()
        invariant
            0 <= j <= ilist0.len(),
            item_ids@.len() == j,
            forall|q: int| 0 <= q < j ==> (#[trigger] item_ids@[q])@ == ilist0[q].0@,
        decreases ilist@.len() - j,
    {
        item_ids.push(ilist[j].0.clone());
        j += 1;
    }
    let mut processor = crate::processor::AddonProcessor::<
        CustomComponentInstance,
        ItemComponentInstance,
        OfficeState,
    >::new(OfficeState::new(register));
    let mut k: usize = 0;
    while k < block_ids.len()
        invariant
            0 <= k <= block_ids@.len(),
            processor.spec_state() == (OfficeState { registry: register }),
            forall|j: int|
                0 <= j < k ==> key_has(processor.block_handlers(), (#[trigger] block_ids@[j])@),
        decreases block_ids@.len() - k,
    {
        let id = block_ids[k].clone();
        processor.bind_block_component(CustomComponentInstance::new(id));
        k += 1;
    }
    let mut q: usize = 0;
    while q < item_ids.len()
        invariant
            0 <= q <= item_ids@.len(),
            processor.spec_state() == (OfficeState { registry: register }),
            forall|j: int|
                0 <= j < k ==> key_has(processor.block_handlers(), (#[trigger] block_ids@[j])@),
            forall|j: int|
                0 <= j < q ==> key_has(processor.item_handlers(), (#[trigger] item_ids@[j])@),
        decreases item_ids@.len() - q,
    {
        let id = item_ids[q].clone();
        processor.bind_item_component(ItemComponentInstance::new(id));
        q += 1;
    }
    proof {
        assert forall|id: Seq<char>|
            key_has(blist0, id) implies #[trigger] key_has(processor.block_handlers(), id) by {
            lemma_key_idx_spec(blist0, id, 0);
            let w = crate::keyed::key_idx(blist0, id)->Some_0;
            assert(block_ids@[w]@ == id);
        }
        assert forall|id: Seq<char>|
            key_has(ilist0, id) implies #[trigger] key_has(processor.item_handlers(), id) by {
            lemma_key_idx_spec(ilist0, id, 0);
            let w = crate::keyed::key_idx(ilist0, id)->Some_0;
            assert(item_ids@[w]@ == id);
        }
    }
    processor
}


/// A failure while pulling annotation arguments out of comment text.
#[derive(Debug)]
pub enum ComponentRipperError {
    /// An argument does not follow the `name: value` scheme.
    InvalidArgumentFormat(String),
    InformationParseError(ComponentInformationError),
}

/// An annotated initialization function: its name and the source file's
/// relative location.
#[derive(Debug)]
pub struct FunctionInformation {
    pub function_name: String,
    pub path: String,
}


/// The scope pairs annotation arguments honor: braces, brackets and
/// parentheses.
pub open spec fn spec_arg_scopes() -> Seq<crate::strings::ScopeDeclaration> {
    seq![
        crate::strings::ScopeDeclaration { begin: '{', end: '}' },
        crate::strings::ScopeDeclaration { begin: '[', end: ']' },
        crate::strings::ScopeDeclaration { begin: '(', end: ')' },
    ]
}

fn arg_scopes() -> (r: Vec<crate::strings::ScopeDeclaration>)
    ensures
        r@ =~= spec_arg_scopes(),
{
    let mut scopes: Vec<crate::strings::ScopeDeclaration> = Vec::new();
    scopes.push(crate::strings::ScopeDeclaration { begin: '{', end: '}' });
    scopes.push(crate::strings::ScopeDeclaration { begin: '[', end: ']' });
    scopes.push(crate::strings::ScopeDeclaration { begin: '(', end: ')' });
    scopes
}

/// What one argument chunk denotes: the trimmed name and value around the
/// first colon, if there is one.
pub open spec fn spec_arg_of(chunk: Seq<char>) -> Option<(Seq<char>, Seq<char>)> {
    match crate::strings::find_char(chunk, ':', 0) {
        None => None,
        Some(j) => Some(
            (
                crate::strings::spec_trim(chunk.subrange(0, j)),
                crate::strings::spec_trim(chunk.skip(j + 1)),
            ),
        ),
    }
}

/// The arguments named by a comment section: chunks split at top-level
/// commas, each a colon-separated name and value; a chunk without a colon
/// is the error.
pub open spec fn spec_pull_args(
    s: Seq<char>,
    acc: Seq<(Seq<char>, Seq<char>)>,
) -> Result<Seq<(Seq<char>, Seq<char>)>, Seq<char>>
    decreases s.len(),
    when s.len() >= 0
    via spec_pull_args_decreases
{
    match crate::strings::split_scan(s, ',', spec_arg_scopes(), 0) {
        None => match spec_arg_of(s) {
            None => Err(s),
            Some(p) => Ok(acc.push(p)),
        },
        Some(i) => match spec_arg_of(s.subrange(0, i)) {
            None => Err(s.subrange(0, i)),
            Some(p) => spec_pull_args(
                crate::strings::spec_trim(s.skip(i + 1)),
                acc.push(p),
            ),
        },
    }
}

#[via_fn]
proof fn spec_pull_args_decreases(s: Seq<char>, acc: Seq<(Seq<char>, Seq<char>)>) {
    crate::strings::lemma_split_scan_bounds(s, ',', spec_arg_scopes(), 0);
    match crate::strings::split_scan(s, ',', spec_arg_scopes(), 0) {
        Some(i) => {
            crate::strings::lemma_trim_len(s.skip(i + 1));
        },
        None => {},
    }
}

/// The name and value views of a collected argument list.
pub open spec fn args_model(v: Seq<(String, String)>) -> Seq<(Seq<char>, Seq<char>)> {
    Seq::new(v.len(), |i: int| (v[i].0@, v[i].1@))
}

/// Collects the `name: value` arguments of one comment section, splitting
/// at commas that stand outside braces, brackets and parentheses.
pub fn pull_single_arg(comment_section: &str, out: &mut Vec<(String, String)>) -> (r: Result<
    (),
    ComponentRipperError,
>)
    requires
        comment_section@.len() < usize::MAX,
    ensures
        match r {
            Ok(u) => spec_pull_args(comment_section@, args_model(old(out)@)) == Ok::<
                Seq<(Seq<char>, Seq<char>)>,
                Seq<char>,
            >(args_model(final(out)@)),
            Err(ComponentRipperError::InvalidArgumentFormat(c)) => spec_pull_args(
                comment_section@,
                args_model(old(out)@),
            ) == Err::<Seq<(Seq<char>, Seq<char>)>, Seq<char>>(c@),
            Err(_) => false,
        },
    decreases comment_section@.len(),
{
    let scopes = arg_scopes();
    proof {
        crate::strings::lemma_split_scan_bounds(
            comment_section@,
            ',',
            spec_arg_scopes(),
            0,
        );
    }
    let (current, next) = crate::strings::StringExtension::scoped_split(
        comment_section,
        &',',
        scopes.as_slice(),
        false,
        1,
    );
    match crate::strings::split_once_char(current, ':') {
        None => {
            proof {
                crate::strings::lemma_find_char_spec(current@, ':', 0);
            }
            return Err(ComponentRipperError::InvalidArgumentFormat(current.to_owned()));
        },
        Some((name, val)) => {
            let ghost before = args_model(out@);
            out.push(
                (
                    crate::strings::trim_spaces(name).to_owned(),
                    crate::strings::trim_spaces(val).to_owned(),
                ),
            );
            proof {
                assert(args_model(out@) =~= before.push(spec_arg_of(current@)->Some_0));
            }
        },
    }
    match next {
        Some(rest) => {
            let trimmed = crate::strings::trim_spaces(rest);
            proof {
                crate::strings::lemma_trim_len(rest@);
            }
            pull_single_arg(trimmed, out)
        },
        None => Ok(()),
    }
}

/// Collects the whole argument list of a comment section.
pub fn build_argument_list(whole_comment: &str) -> (r: Result<
    Vec<(String, String)>,
    ComponentRipperError,
>)
    requires
        whole_comment@.len() < usize::MAX,
    ensures
        match r {
            Ok(v) => spec_pull_args(whole_comment@, Seq::empty()) == Ok::<
                Seq<(Seq<char>, Seq<char>)>,
                Seq<char>,
            >(args_model(v@)),
            Err(ComponentRipperError::InvalidArgumentFormat(c)) => spec_pull_args(
                whole_comment@,
                Seq::empty(),
            ) == Err::<Seq<(Seq<char>, Seq<char>)>, Seq<char>>(c@),
            Err(_) => false,
        },
{
    let mut out: Vec<(String, String)> = Vec::new();
    proof {
        assert(args_model(out@) =~= Seq::<(Seq<char>, Seq<char>)>::empty());
    }
    match pull_single_arg(whole_comment, &mut out) {
        Ok(u) => {
            let _ = u;
            Ok(out)
        },
        Err(e) => Err(e),
    }
}

} // verus!
