//! Items: identifier and menu metadata, an experimental flag, a component
//! store, and the format version the item was parsed under.
use vstd::prelude::*;

verus! {

use crate::component::{ComponentError, ComponentKind, ErrModel, FormattedComponentRegister, VersionRestriction};
use crate::menu_category::{spec_menu_from_json, MenuCategory, MenuCategoryModel};
use crate::store::{spec_store_from_json, store_all_builtin, store_to_json, ComponentStore, StoreModel};
use crate::value::{model_entries, Json, JsonValue};
use crate::version::{parse_version, FormatVersion, VersionModel};

/// The mathematical model of an item description.
#[verifier::ext_equal]
pub struct ItemDescModel {
    pub identifier: Seq<char>,
    pub menu_category: MenuCategoryModel,
    pub is_experimental: bool,
}

impl ItemDescModel {
    /// The value-tree serialization: all three members, always.
    pub open spec fn to_json(self) -> Json {
        Json::Obj(
            seq![
                ("identifier"@, Json::Str(self.identifier)),
                ("menu_category"@, self.menu_category.to_json()),
                ("is_experimental"@, Json::Bool(self.is_experimental)),
            ],
        )
    }
}

/// What decoding an item description yields: the identifier is required,
/// menu category and the experimental flag default.
pub open spec fn spec_item_desc_from_json(j: Json) -> Result<ItemDescModel, ErrModel> {
    if !(j is Obj) {
        Err(ErrModel::NotObject("description"@))
    } else {
        match j.get("identifier"@) {
            Some(Json::Str(ident)) => {
                let menu = match j.get("menu_category"@) {
                    Some(mj) => spec_menu_from_json(mj),
                    None => Ok(MenuCategoryModel::spec_default()),
                };
                let exp = match j.get("is_experimental"@) {
                    Some(Json::Bool(b)) => Ok(b),
                    Some(_) => Err(ErrModel::MemberNotType("is_experimental"@, "a boolean"@)),
                    None => Ok(false),
                };
                match (menu, exp) {
                    (Ok(m), Ok(e)) => Ok(
                        ItemDescModel { identifier: ident, menu_category: m, is_experimental: e },
                    ),
                    (Err(e), _) => Err(e),
                    (_, Err(e)) => Err(e),
                }
            },
            Some(_) => Err(ErrModel::MemberNotType("identifier"@, "a string"@)),
            None => Err(ErrModel::MissingMember("identifier"@, "description"@)),
        }
    }
}

/// Identifier, menu placement, and the experimental flag of an item.
#[derive(Debug)]
pub struct ItemDescription {
    pub identifier: String,
    pub menu_category: MenuCategory,
    pub is_experimental: bool,
}

impl View for ItemDescription {
    type V = ItemDescModel;

    open spec fn view(&self) -> ItemDescModel {
        ItemDescModel {
            identifier: self.identifier@,
            menu_category: self.menu_category@,
            is_experimental: self.is_experimental,
        }
    }
}

impl ItemDescription {
    pub fn to_json(&self) -> (r: JsonValue)
        ensures
            r@ == self@.to_json(),
    {
        let mut entries: Vec<(String, JsonValue)> = Vec::new();
        entries.push(("identifier".to_owned(), JsonValue::Str(self.identifier.clone())));
        entries.push(("menu_category".to_owned(), self.menu_category.to_json()));
        entries.push(("is_experimental".to_owned(), JsonValue::Bool(self.is_experimental)));
        let r = JsonValue::Obj(entries);
        proof {
            assert(model_entries(entries@) =~= self@.to_json()->Obj_0);
        }
        r
    }

    /// Reads an item description from a value tree.
    pub fn from_json(json: &JsonValue) -> (r: Result<ItemDescription, ComponentError>)
        ensures
            match r {
                Ok(d) => spec_item_desc_from_json(json@) == Ok::<ItemDescModel, ErrModel>(d@),
                Err(e) => spec_item_desc_from_json(json@) == Err::<ItemDescModel, ErrModel>(e@),
            },
    {
        if json.as_object().is_none() {
            return Err(ComponentError::NotObject("description"));
        }
        let identifier = match json.get("identifier") {
            Some(v) => match v.as_str() {
                Some(s) => s.clone(),
                None => {
                    return Err(ComponentError::MemberNotType("identifier", "a string"));
                },
            },
            None => {
                return Err(ComponentError::MissingMember("identifier", "description"));
            },
        };
        let menu_category = match json.get("menu_category") {
            Some(mj) => match MenuCategory::from_json(mj) {
                Ok(m) => m,
                Err(e) => {
                    return Err(e);
                },
            },
            None => MenuCategory::default(),
        };
        let is_experimental = match json.get("is_experimental") {
            Some(v) => match v.as_bool() {
                Some(b) => b,
                None => {
                    return Err(ComponentError::MemberNotType("is_experimental", "a boolean"));
                },
            },
            None => false,
        };
        Ok(ItemDescription { identifier, menu_category, is_experimental })
    }
}

/// The mathematical model of an item.
#[verifier::ext_equal]
pub struct ItemModel {
    pub format_version: VersionModel,
    pub description: ItemDescModel,
    pub components: StoreModel,
}

impl ItemModel {
    pub open spec fn wf(self) -> bool {
        crate::keyed::model_keys_unique(self.components) && self.format_version.wf()
    }

    /// An item is bland when its store holds only built-in ids.
    pub open spec fn is_bland(self) -> bool {
        store_all_builtin(self.components)
    }

    /// The value-tree serialization: the format version text and the
    /// namespaced wrapper.
    pub open spec fn to_json(self) -> Json {
        Json::Obj(
            seq![
                ("format_version"@, Json::Str(self.format_version.raw)),
                (
                    "minecraft:item"@,
                    Json::Obj(
                        seq![
                            ("description"@, self.description.to_json()),
                            ("components"@, store_to_json(self.components)),
                        ],
                    ),
                ),
            ],
        )
    }
}

/// What decoding a whole item document yields.  The format version is read
/// from the document itself; the wrapper, description and components are
/// required.
pub open spec fn spec_item_from_json(
    j: Json,
    reg: Seq<(String, Vec<(VersionRestriction, ComponentKind)>)>,
) -> Result<ItemModel, ErrModel> {
    match j.get("format_version"@) {
        None => Err(ErrModel::MissingMember("format_version"@, "an item"@)),
        Some(Json::Str(raw)) => match parse_version(raw) {
            None => Err(ErrModel::MemberNotType("format_version"@, "a version"@)),
            Some(v) => match j.get("minecraft:item"@) {
                None => Err(ErrModel::MissingMember("minecraft:item"@, "an item"@)),
                Some(inner) => match inner.get("description"@) {
                    None => Err(ErrModel::MissingMember("description"@, "an item"@)),
                    Some(dj) => match spec_item_desc_from_json(dj) {
                        Err(e) => Err(e),
                        Ok(d) => match inner.get("components"@) {
                            None => Err(ErrModel::MissingMember("components"@, "an item"@)),
                            Some(cj) => match spec_store_from_json(cj, reg, v) {
                                Err(e) => Err(e),
                                Ok(c) => Ok(
                                    ItemModel {
                                        format_version: v,
                                        description: d,
                                        components: c,
                                    },
                                ),
                            },
                        },
                    },
                },
            },
        },
        Some(_) => Err(ErrModel::MemberNotType("format_version"@, "a version"@)),
    }
}

/// A content item: description, component store, and the format version it
/// was parsed under.
#[derive(Debug)]
pub struct Item {
    pub format_version: FormatVersion,
    pub description: ItemDescription,
    pub components: ComponentStore,
}

impl View for Item {
    type V = ItemModel;

    open spec fn view(&self) -> ItemModel {
        ItemModel {
            format_version: self.format_version@,
            description: self.description@,
            components: self.components@,
        }
    }
}

impl Item {
    /// Whether the store holds only built-in ids.
    pub fn is_bland(&self) -> (r: bool)
        ensures
            r == self@.is_bland(),
    {
        !self.components.contains_non_minecraft()
    }

    pub fn to_json(&self) -> (r: JsonValue)
        ensures
            r@ == self@.to_json(),
    {
        let mut inner: Vec<(String, JsonValue)> = Vec::new();
        inner.push(("description".to_owned(), self.description.to_json()));
        inner.push(("components".to_owned(), self.components.to_json()));
        let innerv = JsonValue::Obj(inner);
        proof {
            assert(model_entries(inner@) =~= self@.to_json()->Obj_0[1].1->Obj_0);
        }
        let mut entries: Vec<(String, JsonValue)> = Vec::new();
        entries.push(
            ("format_version".to_owned(), JsonValue::Str(self.format_version.raw_text().clone())),
        );
        entries.push(("minecraft:item".to_owned(), innerv));
        let r = JsonValue::Obj(entries);
        proof {
            assert(model_entries(entries@) =~= self@.to_json()->Obj_0);
        }
        r
    }

    /// Reads an item from a whole document.  The format version is taken
    /// from the document's own `format_version` member and used for all
    /// version-gated component resolution.
    pub fn from_json(json: &JsonValue, register: &FormattedComponentRegister) -> (r: Result<
        Item,
        ComponentError,
    >)
        ensures
            match r {
                Ok(it) => spec_item_from_json(json@, register@) == Ok::<ItemModel, ErrModel>(it@)
                    && it@.wf(),
                Err(e) => spec_item_from_json(json@, register@) == Err::<ItemModel, ErrModel>(e@),
            },
    {
        let format_version = match json.get("format_version") {
            None => {
                return Err(ComponentError::MissingMember("format_version", "an item"));
            },
            Some(v) => match v.as_str() {
                Some(s) => match FormatVersion::parse(s.as_str()) {
                    Some(fv) => fv,
                    None => {
                        return Err(ComponentError::MemberNotType("format_version", "a version"));
                    },
                },
                None => {
                    return Err(ComponentError::MemberNotType("format_version", "a version"));
                },
            },
        };
        let inner = match json.get("minecraft:item") {
            Some(v) => v,
            None => {
                return Err(ComponentError::MissingMember("minecraft:item", "an item"));
            },
        };
        let description = match inner.get("description") {
            Some(dj) => match ItemDescription::from_json(dj) {
                Ok(d) => d,
                Err(e) => {
                    return Err(e);
                },
            },
            None => {
                return Err(ComponentError::MissingMember("description", "an item"));
            },
        };
        let components = match inner.get("components") {
            Some(cj) => match ComponentStore::from_json(cj, register, &format_version) {
                Ok(c) => c,
                Err(e) => {
                    return Err(e);
                },
            },
            None => {
                return Err(ComponentError::MissingMember("components", "an item"));
            },
        };
        Ok(Item { format_version, description, components })
    }
}


/// Round trip: an item whose store holds only opaque components, each
/// under its own id, re-encoded and then decoded against an empty
/// registry, comes back unchanged.
pub proof fn law_round_trip_item(it: ItemModel)
    requires
        it.wf(),
        crate::store::store_all_opaque(it.components),
    ensures
        spec_item_from_json(
            it.to_json(),
            Seq::<(String, Vec<(VersionRestriction, ComponentKind)>)>::empty(),
        ) == Ok::<ItemModel, ErrModel>(it),
{
    reveal_strlit("format_version");
    reveal_strlit("minecraft:item");
    reveal_strlit("description");
    reveal_strlit("components");
    reveal_strlit("identifier");
    reveal_strlit("menu_category");
    reveal_strlit("is_experimental");
    let j = it.to_json();
    let fv = ("format_version"@, Json::Str(it.format_version.raw));
    let inner = Json::Obj(
        seq![
            ("description"@, it.description.to_json()),
            ("components"@, store_to_json(it.components)),
        ],
    );
    let wrap = ("minecraft:item"@, inner);
    let top = seq![fv, wrap];
    assert(j == Json::Obj(top));
    assert("format_version"@.len() == 14);
    assert("minecraft:item"@.len() == 14);
    assert("format_version"@[0] == 'f' && "minecraft:item"@[0] == 'm');
    crate::value::lemma_obj_find_at(top, 0);
    crate::value::lemma_obj_find_at(top, 1);
    assert(j.get("format_version"@) == Some(Json::Str(it.format_version.raw)));
    assert(j.get("minecraft:item"@) == Some(inner));
    assert(parse_version(it.format_version.raw) == Some(it.format_version)) by {
        let p = parse_version(it.format_version.raw)->Some_0;
        assert(p.raw == it.format_version.raw);
        assert(p =~= it.format_version);
    }
    let ie = seq![
        ("description"@, it.description.to_json()),
        ("components"@, store_to_json(it.components)),
    ];
    assert("description"@.len() == 11 && "components"@.len() == 10);
    crate::value::lemma_obj_find_at(ie, 0);
    crate::value::lemma_obj_find_at(ie, 1);
    assert(inner.get("description"@) == Some(it.description.to_json()));
    assert(inner.get("components"@) == Some(store_to_json(it.components)));
    law_item_desc_round_trip(it.description);
    crate::store::law_store_round_trip(it.components, it.format_version);
    assert(spec_item_from_json(
        j,
        Seq::<(String, Vec<(VersionRestriction, ComponentKind)>)>::empty(),
    )->Ok_0 =~= it);
}

/// Round trip of an item description: its serialization decodes back to
/// the same value.
pub proof fn law_item_desc_round_trip(d: ItemDescModel)
    ensures
        spec_item_desc_from_json(d.to_json()) == Ok::<ItemDescModel, ErrModel>(d),
{
    reveal_strlit("identifier");
    reveal_strlit("menu_category");
    reveal_strlit("is_experimental");
    let e1 = ("identifier"@, Json::Str(d.identifier));
    let e2 = ("menu_category"@, d.menu_category.to_json());
    let e3 = ("is_experimental"@, Json::Bool(d.is_experimental));
    let entries = seq![e1, e2, e3];
    assert(d.to_json() == Json::Obj(entries));
    assert("identifier"@.len() == 10 && "menu_category"@.len() == 13 && "is_experimental"@.len()
        == 15);
    crate::value::lemma_obj_find_at(entries, 0);
    crate::value::lemma_obj_find_at(entries, 1);
    crate::value::lemma_obj_find_at(entries, 2);
    crate::menu_category::law_menu_round_trip(d.menu_category);
    assert(spec_item_desc_from_json(d.to_json())->Ok_0 =~= d);
}

} // verus!
