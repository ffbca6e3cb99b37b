//! Blocks: identifier and menu metadata, state and trait maps, a component
//! store, ordered permutations, and the format version the block was
//! parsed under.
use vstd::prelude::*;

verus! {

use crate::component::{str_views, ComponentError, ComponentKind, ErrModel, FormattedComponentRegister, VersionRestriction};
use crate::keyed::{keyed_set, lemma_model_key_idx_spec, model_key_idx, model_keys_unique, model_set};
use crate::menu_category::{spec_menu_from_json, MenuCategory, MenuCategoryModel};
use crate::state::{spec_state_from_json, StateData, StateModel};
use crate::store::{spec_is_builtin_id, spec_store_from_json, store_all_builtin, store_to_json, ComponentStore, StoreModel};
use crate::value::{model_entries, model_seq, Json, JsonValue};
use crate::version::{parse_version, FormatVersion, VersionModel};

/// The placement-direction trait: rotation states enabled on placement.
#[derive(Debug)]
pub struct PlacementDirection {
    pub enabled_states: Vec<String>,
    pub y_rotation_offset: i32,
}

impl Default for PlacementDirection {
    /// No enabled states, with the default rotation offset of 180.
    fn default() -> (r: PlacementDirection)
        ensures
            r.enabled_states@.len() == 0 && r.y_rotation_offset == 180,
    {
        PlacementDirection { y_rotation_offset: 180, enabled_states: Vec::new() }
    }
}

/// The placement-position trait.
#[derive(Debug)]
pub struct PlacementPosition {
    pub enabled_states: Vec<String>,
}

impl Default for PlacementPosition {
    fn default() -> (r: PlacementPosition)
        ensures
            r.enabled_states@.len() == 0,
    {
        PlacementPosition { enabled_states: Vec::new() }
    }
}

/// A trait variant carried in a block description.
#[derive(Debug)]
pub enum Trait {
    PlacementPosition(PlacementPosition),
    PlacementDirection(PlacementDirection),
}

/// The mathematical model of a trait variant.
#[verifier::ext_equal]
pub enum TraitModel {
    Position(Seq<Seq<char>>),
    Direction { enabled_states: Seq<Seq<char>>, y_rotation_offset: int },
}

impl View for Trait {
    type V = TraitModel;

    open spec fn view(&self) -> TraitModel {
        match self {
            Trait::PlacementPosition(p) => TraitModel::Position(str_views(p.enabled_states@)),
            Trait::PlacementDirection(d) => TraitModel::Direction {
                enabled_states: str_views(d.enabled_states@),
                y_rotation_offset: d.y_rotation_offset as int,
            },
        }
    }
}

impl TraitModel {
    /// The value-tree serialization of a trait variant.
    pub open spec fn to_json(self) -> Json {
        match self {
            TraitModel::Position(es) => Json::Obj(
                seq![
                    ("enabled_states"@, Json::Arr(Seq::new(es.len(), |i: int| Json::Str(es[i])))),
                ],
            ),
            TraitModel::Direction { enabled_states: es, y_rotation_offset: off } => Json::Obj(
                seq![
                    ("enabled_states"@, Json::Arr(Seq::new(es.len(), |i: int| Json::Str(es[i])))),
                    ("y_rotation_offset"@, Json::Int(off)),
                ],
            ),
        }
    }
}

/// What a trait value denotes, if anything: an object whose
/// `enabled_states` member is an array of strings; the variant is told
/// apart by the presence of `y_rotation_offset`.
pub open spec fn spec_trait_from_json(j: Json) -> Option<TraitModel> {
    if !(j is Obj) {
        None
    } else {
        match j.get("enabled_states"@) {
            Some(Json::Arr(items)) => if crate::component::all_strings(items) {
                let es = crate::component::strings_of(items);
                match j.get("y_rotation_offset"@) {
                    None => Some(TraitModel::Position(es)),
                    Some(Json::Int(n)) => if i32::MIN <= n <= i32::MAX {
                        Some(TraitModel::Direction { enabled_states: es, y_rotation_offset: n })
                    } else {
                        None
                    },
                    Some(_) => None,
                }
            } else {
                None
            },
            _ => None,
        }
    }
}

fn strings_to_json(ss: &Vec<String>) -> (r: JsonValue)
    ensures
        r@ == Json::Arr(Seq::new(str_views(ss@).len(), |i: int| Json::Str(str_views(ss@)[i]))),
{
    let mut items: Vec<JsonValue> = Vec::new();
    let mut i: usize = 0;
    #[verifier::loop_isolation(false)]
    while i < ss.len()
        invariant
            0 <= i <= ss@.len(),
            items@.len() == i,
            forall|j: int| 0 <= j < i ==> items@[j] == JsonValue::Str(ss@[j]),
        decreases ss@.len() - i,
    {
        items.push(JsonValue::Str(ss[i].clone()));
        i += 1;
    }
    proof {
        let sv = str_views(ss@);
        assert(model_seq(items@) =~= Seq::new(sv.len(), |i: int| Json::Str(sv[i])));
    }
    JsonValue::Arr(items)
}

impl Trait {
    pub fn to_json(&self) -> (r: JsonValue)
        ensures
            r@ == self@.to_json(),
    {
        match self {
            Trait::PlacementPosition(p) => {
                let mut entries: Vec<(String, JsonValue)> = Vec::new();
                entries.push(("enabled_states".to_owned(), strings_to_json(&p.enabled_states)));
                let r = JsonValue::Obj(entries);
                proof {
                    assert(model_entries(entries@) =~= self@.to_json()->Obj_0);
                }
                r
            },
            Trait::PlacementDirection(d) => {
                let mut entries: Vec<(String, JsonValue)> = Vec::new();
                entries.push(("enabled_states".to_owned(), strings_to_json(&d.enabled_states)));
                entries.push(
                    ("y_rotation_offset".to_owned(), JsonValue::Int(d.y_rotation_offset as i64)),
                );
                let r = JsonValue::Obj(entries);
                proof {
                    assert(model_entries(entries@) =~= self@.to_json()->Obj_0);
                }
                r
            },
        }
    }

    /// Reads a trait variant; `None` exactly when no form matches.
    pub fn from_json(json: &JsonValue) -> (r: Option<Trait>)
        ensures
            match r {
                Some(t) => spec_trait_from_json(json@) == Some(t@),
                None => spec_trait_from_json(json@) is None,
            },
    {
        if json.as_object().is_none() {
            return None;
        }
        let es = match json.get("enabled_states") {
            Some(v) => match v.as_array() {
                Some(items) => match crate::state::strings_of_exec(items) {
                    Some(ss) => ss,
                    None => {
                        return None;
                    },
                },
                None => {
                    return None;
                },
            },
            _ => {
                return None;
            },
        };
        match json.get("y_rotation_offset") {
            None => Some(Trait::PlacementPosition(PlacementPosition { enabled_states: es })),
            Some(v) => match v.as_i64() {
                Some(n) => {
                    if n < i32::MIN as i64 || n > i32::MAX as i64 {
                        return None;
                    }
                    Some(
                        Trait::PlacementDirection(
                            PlacementDirection {
                                enabled_states: es,
                                y_rotation_offset: n as i32,
                            },
                        ),
                    )
                },
                None => None,
            },
        }
    }
}


/// The mathematical model of a block description.
#[verifier::ext_equal]
pub struct DescModel {
    pub identifier: Seq<char>,
    pub menu_category: MenuCategoryModel,
    pub states: Seq<(Seq<char>, StateModel)>,
    pub traits: Seq<(Seq<char>, TraitModel)>,
}

impl DescModel {
    /// State and trait names are pairwise distinct.
    pub open spec fn wf(self) -> bool {
        model_keys_unique(self.states) && model_keys_unique(self.traits)
    }

    /// The value-tree serialization: identifier and menu category always,
    /// state and trait maps only when non-empty.
    pub open spec fn to_json(self) -> Json {
        let base = seq![
            ("identifier"@, Json::Str(self.identifier)),
            ("menu_category"@, self.menu_category.to_json()),
        ];
        let with_states = if self.states.len() == 0 {
            base
        } else {
            base.push(
                (
                    "states"@,
                    Json::Obj(
                        Seq::new(
                            self.states.len(),
                            |i: int| (self.states[i].0, self.states[i].1.to_json()),
                        ),
                    ),
                ),
            )
        };
        let with_traits = if self.traits.len() == 0 {
            with_states
        } else {
            with_states.push(
                (
                    "traits"@,
                    Json::Obj(
                        Seq::new(
                            self.traits.len(),
                            |i: int| (self.traits[i].0, self.traits[i].1.to_json()),
                        ),
                    ),
                ),
            )
        };
        Json::Obj(with_traits)
    }
}

/// What decoding the members of a `states` object yields, starting from
/// `acc`: each name mapped to its decoded domain, later duplicate names
/// replacing earlier ones.
pub open spec fn spec_decode_states(
    entries: Seq<(Seq<char>, Json)>,
    acc: Seq<(Seq<char>, StateModel)>,
) -> Result<Seq<(Seq<char>, StateModel)>, ErrModel>
    decreases entries.len(),
{
    if entries.len() == 0 {
        Ok(acc)
    } else {
        match spec_state_from_json(entries[0].1) {
            Some(s) => spec_decode_states(entries.drop_first(), model_set(acc, entries[0].0, s)),
            None => Err(ErrModel::MemberNotTypeDynamic(entries[0].0, "a state domain"@)),
        }
    }
}

/// What decoding the members of a `traits` object yields.
pub open spec fn spec_decode_traits(
    entries: Seq<(Seq<char>, Json)>,
    acc: Seq<(Seq<char>, TraitModel)>,
) -> Result<Seq<(Seq<char>, TraitModel)>, ErrModel>
    decreases entries.len(),
{
    if entries.len() == 0 {
        Ok(acc)
    } else {
        match spec_trait_from_json(entries[0].1) {
            Some(t) => spec_decode_traits(entries.drop_first(), model_set(acc, entries[0].0, t)),
            None => Err(ErrModel::MemberNotTypeDynamic(entries[0].0, "a trait"@)),
        }
    }
}

/// What decoding a block description yields: the identifier is required,
/// menu category, states and traits default to empty.
pub open spec fn spec_desc_from_json(j: Json) -> Result<DescModel, ErrModel> {
    if !(j is Obj) {
        Err(ErrModel::NotObject("description"@))
    } else {
        match j.get("identifier"@) {
            Some(Json::Str(ident)) => {
                let menu = match j.get("menu_category"@) {
                    Some(mj) => spec_menu_from_json(mj),
                    None => Ok(MenuCategoryModel::spec_default()),
                };
                let states = match j.get("states"@) {
                    Some(Json::Obj(entries)) => spec_decode_states(entries, Seq::empty()),
                    Some(_) => Err(ErrModel::NotObject("states"@)),
                    None => Ok(Seq::empty()),
                };
                let traits = match j.get("traits"@) {
                    Some(Json::Obj(entries)) => spec_decode_traits(entries, Seq::empty()),
                    Some(_) => Err(ErrModel::NotObject("traits"@)),
                    None => Ok(Seq::empty()),
                };
                match (menu, states, traits) {
                    (Ok(m), Ok(s), Ok(t)) => Ok(
                        DescModel { identifier: ident, menu_category: m, states: s, traits: t },
                    ),
                    (Err(e), _, _) => Err(e),
                    (_, Err(e), _) => Err(e),
                    (_, _, Err(e)) => Err(e),
                }
            },
            Some(_) => Err(ErrModel::MemberNotType("identifier"@, "a string"@)),
            None => Err(ErrModel::MissingMember("identifier"@, "description"@)),
        }
    }
}

/// Menu placement metadata, state domains and trait variants of a block.
#[derive(Debug)]
pub struct BlockDescription {
    pub identifier: String,
    pub menu_category: MenuCategory,
    pub states: Vec<(String, StateData)>,
    pub traits: Vec<(String, Trait)>,
}

impl View for BlockDescription {
    type V = DescModel;

    open spec fn view(&self) -> DescModel {
        DescModel {
            identifier: self.identifier@,
            menu_category: self.menu_category@,
            states: crate::keyed::pairs_model(self.states@),
            traits: crate::keyed::pairs_model(self.traits@),
        }
    }
}

impl BlockDescription {
    #[verifier::loop_isolation(false)]
    #[verifier::rlimit(30)]
    pub fn to_json(&self) -> (r: JsonValue)
        ensures
            r@ == self@.to_json(),
    {
        let mut entries: Vec<(String, JsonValue)> = Vec::new();
        entries.push(("identifier".to_owned(), JsonValue::Str(self.identifier.clone())));
        entries.push(("menu_category".to_owned(), self.menu_category.to_json()));
        if self.states.len() != 0 {
            let mut smembers: Vec<(String, JsonValue)> = Vec::new();
            let mut i: usize = 0;
            while i < self.states.len()
                invariant
                    0 <= i <= self.states@.len(),
                    smembers@.len() == i,
                    forall|j: int|
                        0 <= j < i ==> (#[trigger] smembers@[j]).0@ == self@.states[j].0,
                    forall|j: int|
                        0 <= j < i ==> (#[trigger] smembers@[j]).1@ == self@.states[j].1.to_json(),
                decreases self.states@.len() - i,
            {
                let key = self.states[i].0.clone();
                let enc = self.states[i].1.to_json();
                let ghost gk = key@;
                let ghost ge = enc@;
                proof {
                    assert(gk == self@.states[i as int].0);
                    assert(ge == self@.states[i as int].1.to_json());
                }
                smembers.push((key, enc));
                proof {
                    assert(smembers@[i as int].0@ == gk);
                    assert(smembers@[i as int].1@ == ge);
                }
                i += 1;
            }
            proof {
                assert(model_entries(smembers@) =~= Seq::new(
                    self@.states.len(),
                    |i: int| (self@.states[i].0, self@.states[i].1.to_json()),
                ));
            }
            entries.push(("states".to_owned(), JsonValue::Obj(smembers)));
        }
        if self.traits.len() != 0 {
            let mut tmembers: Vec<(String, JsonValue)> = Vec::new();
            let mut i: usize = 0;
            while i < self.traits.len()
                invariant
                    0 <= i <= self.traits@.len(),
                    tmembers@.len() == i,
                    forall|j: int|
                        0 <= j < i ==> (#[trigger] tmembers@[j]).0@ == self@.traits[j].0,
                    forall|j: int|
                        0 <= j < i ==> (#[trigger] tmembers@[j]).1@ == self@.traits[j].1.to_json(),
                decreases self.traits@.len() - i,
            {
                let key = self.traits[i].0.clone();
                let enc = self.traits[i].1.to_json();
                let ghost gk = key@;
                let ghost ge = enc@;
                proof {
                    assert(gk == self@.traits[i as int].0);
                    assert(ge == self@.traits[i as int].1.to_json());
                }
                tmembers.push((key, enc));
                proof {
                    assert(tmembers@[i as int].0@ == gk);
                    assert(tmembers@[i as int].1@ == ge);
                }
                i += 1;
            }
            proof {
                assert(model_entries(tmembers@) =~= Seq::new(
                    self@.traits.len(),
                    |i: int| (self@.traits[i].0, self@.traits[i].1.to_json()),
                ));
            }
            entries.push(("traits".to_owned(), JsonValue::Obj(tmembers)));
        }
        let r = JsonValue::Obj(entries);
        proof {
            assert(model_entries(entries@) =~= self@.to_json()->Obj_0);
        }
        r
    }

    /// Reads a block description from a value tree.
    #[verifier::loop_isolation(false)]
    pub fn from_json(json: &JsonValue) -> (r: Result<BlockDescription, ComponentError>)
        ensures
            match r {
                Ok(d) => spec_desc_from_json(json@) == Ok::<DescModel, ErrModel>(d@) && d@.wf(),
                Err(e) => spec_desc_from_json(json@) == Err::<DescModel, ErrModel>(e@),
            },
    {
        if json.as_object().is_none() {
            return Err(ComponentError::NotObject("description"));
        }
        let identifier = match json.get("identifier") {
            Some(v) => match v.as_str() {
                Some(s) => s.clone(),
                None => {
                    return Err(ComponentError::MemberNotType("identifier", "a string"));
                },
            },
            None => {
                return Err(ComponentError::MissingMember("identifier", "description"));
            },
        };
        let menu_category = match json.get("menu_category") {
            Some(mj) => match MenuCategory::from_json(mj) {
                Ok(m) => m,
                Err(e) => {
                    return Err(e);
                },
            },
            None => MenuCategory::default(),
        };
        let mut states: Vec<(String, StateData)> = Vec::new();
        match json.get("states") {
            Some(sv) => match sv.as_object() {
                Some(obj) => {
                    let ghost m = model_entries(obj@);
                    let mut i: usize = 0;
                    proof {
                        assert(m.skip(0) =~= m);
                        assert(crate::keyed::pairs_model(states@) =~= Seq::<
                            (Seq<char>, StateModel),
                        >::empty());
                    }
                    while i < obj.len()
                        invariant
                            m == model_entries(obj@),
                            0 <= i <= obj@.len(),
                            model_keys_unique(crate::keyed::pairs_model(states@)),
                            spec_decode_states(m, Seq::empty()) == spec_decode_states(
                                m.skip(i as int),
                                crate::keyed::pairs_model(states@),
                            ),
                        decreases obj@.len() - i,
                    {
                        proof {
                            assert(m.skip(i as int)[0] == m[i as int]);
                        }
                        let sd = match StateData::from_json(&obj[i].1) {
                            Some(sd) => sd,
                            None => {
                                return Err(
                                    ComponentError::MemberNotTypeDynamic(
                                        obj[i].0.clone(),
                                        "a state domain",
                                    ),
                                );
                            },
                        };
                        crate::keyed::keyed_set_model(&mut states, obj[i].0.clone(), sd);
                        proof {
                            assert(m.skip(i as int).drop_first() =~= m.skip(i as int + 1));
                        }
                        i += 1;
                    }
                    proof {
                        assert(m.skip(i as int).len() == 0);
                    }
                },
                None => {
                    return Err(ComponentError::NotObject("states"));
                },
            },
            None => {
                proof {
                    assert(crate::keyed::pairs_model(states@) =~= Seq::<
                        (Seq<char>, StateModel),
                    >::empty());
                }
            },
        }
        let mut traits: Vec<(String, Trait)> = Vec::new();
        match json.get("traits") {
            Some(tv) => match tv.as_object() {
                Some(obj) => {
                    let ghost m = model_entries(obj@);
                    let mut i: usize = 0;
                    proof {
                        assert(m.skip(0) =~= m);
                        assert(crate::keyed::pairs_model(traits@) =~= Seq::<
                            (Seq<char>, TraitModel),
                        >::empty());
                    }
                    while i < obj.len()
                        invariant
                            m == model_entries(obj@),
                            0 <= i <= obj@.len(),
                            model_keys_unique(crate::keyed::pairs_model(traits@)),
                            spec_decode_traits(m, Seq::empty()) == spec_decode_traits(
                                m.skip(i as int),
                                crate::keyed::pairs_model(traits@),
                            ),
                        decreases obj@.len() - i,
                    {
                        proof {
                            assert(m.skip(i as int)[0] == m[i as int]);
                        }
                        let td = match Trait::from_json(&obj[i].1) {
                            Some(td) => td,
                            None => {
                                return Err(
                                    ComponentError::MemberNotTypeDynamic(
                                        obj[i].0.clone(),
                                        "a trait",
                                    ),
                                );
                            },
                        };
                        crate::keyed::keyed_set_model(&mut traits, obj[i].0.clone(), td);
                        proof {
                            assert(m.skip(i as int).drop_first() =~= m.skip(i as int + 1));
                        }
                        i += 1;
                    }
                    proof {
                        assert(m.skip(i as int).len() == 0);
                    }
                },
                None => {
                    return Err(ComponentError::NotObject("traits"));
                },
            },
            None => {
                proof {
                    assert(crate::keyed::pairs_model(traits@) =~= Seq::<
                        (Seq<char>, TraitModel),
                    >::empty());
                }
            },
        }
        Ok(BlockDescription { identifier, menu_category, states, traits })
    }
}


/// The mathematical model of a block.
#[verifier::ext_equal]
pub struct BlockModel {
    pub description: DescModel,
    pub components: StoreModel,
    pub permutations: Seq<crate::permutation::PermModel>,
    pub format_version: VersionModel,
}

impl BlockModel {
    pub open spec fn wf(self) -> bool {
        self.description.wf() && model_keys_unique(self.components) && (forall|i: int|
            0 <= i < self.permutations.len() ==> (#[trigger] self.permutations[i]).wf())
            && self.format_version.wf()
    }

    /// A block is bland when its base store and every permutation store
    /// hold only built-in ids.
    pub open spec fn is_bland(self) -> bool {
        store_all_builtin(self.components) && (forall|i: int|
            0 <= i < self.permutations.len() ==> store_all_builtin(
                (#[trigger] self.permutations[i]).components,
            ))
    }

    /// The value-tree serialization: the format version text and the
    /// namespaced wrapper; an empty permutation list is omitted.
    pub open spec fn to_json(self) -> Json {
        let inner = seq![
            ("description"@, self.description.to_json()),
            ("components"@, store_to_json(self.components)),
        ];
        let inner2 = if self.permutations.len() == 0 {
            inner
        } else {
            inner.push(
                (
                    "permutations"@,
                    Json::Arr(
                        Seq::new(self.permutations.len(), |i: int| self.permutations[i].to_json()),
                    ),
                ),
            )
        };
        Json::Obj(
            seq![
                ("format_version"@, Json::Str(self.format_version.raw)),
                ("minecraft:block"@, Json::Obj(inner2)),
            ],
        )
    }
}

/// What decoding an array of permutations yields, extending `acc`.
pub open spec fn spec_decode_perms(
    items: Seq<Json>,
    reg: Seq<(String, Vec<(VersionRestriction, ComponentKind)>)>,
    v: VersionModel,
    acc: Seq<crate::permutation::PermModel>,
) -> Result<Seq<crate::permutation::PermModel>, ErrModel>
    decreases items.len(),
{
    if items.len() == 0 {
        Ok(acc)
    } else {
        match crate::permutation::spec_perm_from_json(items[0], reg, v) {
            Ok(p) => spec_decode_perms(items.drop_first(), reg, v, acc.push(p)),
            Err(e) => Err(e),
        }
    }
}

/// What decoding a whole block document yields.  The format version is
/// read from the document itself; the wrapper, description and components
/// are required; permutations default to none.
pub open spec fn spec_block_from_json(
    j: Json,
    reg: Seq<(String, Vec<(VersionRestriction, ComponentKind)>)>,
) -> Result<BlockModel, ErrModel> {
    match j.get("format_version"@) {
        None => Err(ErrModel::MissingMember("format_version"@, "a block"@)),
        Some(Json::Str(raw)) => match parse_version(raw) {
            None => Err(ErrModel::MemberNotType("format_version"@, "a version"@)),
            Some(v) => match j.get("minecraft:block"@) {
                None => Err(ErrModel::MissingMember("minecraft:block"@, "a block"@)),
                Some(inner) => match inner.get("description"@) {
                    None => Err(ErrModel::MissingMember("description"@, "a block"@)),
                    Some(dj) => match spec_desc_from_json(dj) {
                        Err(e) => Err(e),
                        Ok(d) => match inner.get("components"@) {
                            None => Err(ErrModel::MissingMember("components"@, "a block"@)),
                            Some(cj) => match spec_store_from_json(cj, reg, v) {
                                Err(e) => Err(e),
                                Ok(c) => match inner.get("permutations"@) {
                                    None => Ok(
                                        BlockModel {
                                            description: d,
                                            components: c,
                                            permutations: Seq::empty(),
                                            format_version: v,
                                        },
                                    ),
                                    Some(Json::Arr(items)) => match spec_decode_perms(
                                        items,
                                        reg,
                                        v,
                                        Seq::empty(),
                                    ) {
                                        Ok(ps) => Ok(
                                            BlockModel {
                                                description: d,
                                                components: c,
                                                permutations: ps,
                                                format_version: v,
                                            },
                                        ),
                                        Err(e) => Err(e),
                                    },
                                    Some(_) => Err(
                                        ErrModel::MemberNotType("permutations"@, "an array"@),
                                    ),
                                },
                            },
                        },
                    },
                },
            },
        },
        Some(_) => Err(ErrModel::MemberNotType("format_version"@, "a version"@)),
    }
}

/// A content block: description, component store, ordered permutations,
/// and the format version it was parsed under.
#[derive(Debug)]
pub struct Block {
    pub description: BlockDescription,
    pub components: ComponentStore,
    pub permutations: Vec<crate::permutation::Permutation>,
    pub format_version: FormatVersion,
}

impl View for Block {
    type V = BlockModel;

    open spec fn view(&self) -> BlockModel {
        BlockModel {
            description: self.description@,
            components: self.components@,
            permutations: Seq::new(self.permutations@.len(), |i: int| self.permutations@[i]@),
            format_version: self.format_version@,
        }
    }
}

impl Block {
    /// Whether the base store and every permutation store hold only
    /// built-in ids.
    #[verifier::loop_isolation(false)]
    pub fn is_bland(&self) -> (r: bool)
        ensures
            r == self@.is_bland(),
    {
        if self.components.contains_non_minecraft() {
            return false;
        }
        let mut i: usize = 0;
        while i < self.permutations.len()
            invariant
                0 <= i <= self.permutations@.len(),
                forall|j: int|
                    0 <= j < i ==> store_all_builtin((#[trigger] self@.permutations[j]).components),
            decreases self.permutations@.len() - i,
        {
            if self.permutations[i].components.contains_non_minecraft() {
                proof {
                    assert(!store_all_builtin(self@.permutations[i as int].components));
                }
                return false;
            }
            i += 1;
        }
        true
    }

    #[verifier::loop_isolation(false)]
    pub fn to_json(&self) -> (r: JsonValue)
        ensures
            r@ == self@.to_json(),
    {
        let mut inner: Vec<(String, JsonValue)> = Vec::new();
        inner.push(("description".to_owned(), self.description.to_json()));
        inner.push(("components".to_owned(), self.components.to_json()));
        if self.permutations.len() != 0 {
            let mut items: Vec<JsonValue> = Vec::new();
            let mut i: usize = 0;
            while i < self.permutations.len()
                invariant
                    0 <= i <= self.permutations@.len(),
                    items@.len() == i,
                    forall|j: int|
                        0 <= j < i ==> (#[trigger] items@[j]).model()
                            == self@.permutations[j].to_json(),
                decreases self.permutations@.len() - i,
            {
                let enc = self.permutations[i].to_json();
                proof {
                    assert(enc@ == self@.permutations[i as int].to_json());
                }
                items.push(enc);
                i += 1;
            }
            proof {
                assert(model_seq(items@) =~= Seq::new(
                    self@.permutations.len(),
                    |i: int| self@.permutations[i].to_json(),
                ));
            }
            inner.push(("permutations".to_owned(), JsonValue::Arr(items)));
        }
        let mut entries: Vec<(String, JsonValue)> = Vec::new();
        entries.push(
            ("format_version".to_owned(), JsonValue::Str(self.format_version.raw_text().clone())),
        );
        let innerv = JsonValue::Obj(inner);
        proof {
            assert(model_entries(inner@) =~= self@.to_json()->Obj_0[1].1->Obj_0);
        }
        entries.push(("minecraft:block".to_owned(), innerv));
        let r = JsonValue::Obj(entries);
        proof {
            assert(model_entries(entries@) =~= self@.to_json()->Obj_0);
        }
        r
    }

    /// Reads a block from a whole document.  The format version is taken
    /// from the document's own `format_version` member and used for all
    /// version-gated component resolution.
    #[verifier::loop_isolation(false)]
    pub fn from_json(json: &JsonValue, register: &FormattedComponentRegister) -> (r: Result<
        Block,
        ComponentError,
    >)
        ensures
            match r {
                Ok(b) => spec_block_from_json(json@, register@) == Ok::<BlockModel, ErrModel>(b@)
                    && b@.wf(),
                Err(e) => spec_block_from_json(json@, register@) == Err::<BlockModel, ErrModel>(
                    e@,
                ),
            },
    {
        let format_version = match json.get("format_version") {
            None => {
                return Err(ComponentError::MissingMember("format_version", "a block"));
            },
            Some(v) => match v.as_str() {
                Some(s) => match FormatVersion::parse(s.as_str()) {
                    Some(fv) => fv,
                    None => {
                        return Err(ComponentError::MemberNotType("format_version", "a version"));
                    },
                },
                None => {
                    return Err(ComponentError::MemberNotType("format_version", "a version"));
                },
            },
        };
        let inner = match json.get("minecraft:block") {
            Some(v) => v,
            None => {
                return Err(ComponentError::MissingMember("minecraft:block", "a block"));
            },
        };
        let description = match inner.get("description") {
            Some(dj) => match BlockDescription::from_json(dj) {
                Ok(d) => d,
                Err(e) => {
                    return Err(e);
                },
            },
            None => {
                return Err(ComponentError::MissingMember("description", "a block"));
            },
        };
        let components = match inner.get("components") {
            Some(cj) => match ComponentStore::from_json(cj, register, &format_version) {
                Ok(c) => c,
                Err(e) => {
                    return Err(e);
                },
            },
            None => {
                return Err(ComponentError::MissingMember("components", "a block"));
            },
        };
        let mut permutations: Vec<crate::permutation::Permutation> = Vec::new();
        match inner.get("permutations") {
            None => {
                proof {
                    assert(Seq::new(permutations@.len(), |i: int| permutations@[i]@) =~= Seq::<
                        crate::permutation::PermModel,
                    >::empty());
                }
            },
            Some(pv) => match pv.as_array() {
                None => {
                    return Err(ComponentError::MemberNotType("permutations", "an array"));
                },
                Some(items) => {
                    let ghost m = model_seq(items@);
                    let mut i: usize = 0;
                    proof {
                        assert(m.skip(0) =~= m);
                        assert(Seq::new(permutations@.len(), |i: int| permutations@[i]@) =~= Seq::<
                            crate::permutation::PermModel,
                        >::empty());
                    }
                    while i < items.len()
                        invariant
                            m == model_seq(items@),
                            0 <= i <= items@.len(),
                            permutations@.len() == i,
                            forall|j: int| 0 <= j < i ==> (#[trigger] permutations@[j]@).wf(),
                            spec_decode_perms(m, register@, format_version@, Seq::empty())
                                == spec_decode_perms(
                                m.skip(i as int),
                                register@,
                                format_version@,
                                Seq::new(permutations@.len(), |q: int| permutations@[q]@),
                            ),
                        decreases items@.len() - i,
                    {
                        proof {
                            assert(m.skip(i as int)[0] == m[i as int]);
                        }
                        let p = match crate::permutation::Permutation::from_json(
                            &items[i],
                            register,
                            &format_version,
                        ) {
                            Ok(p) => p,
                            Err(e) => {
                                return Err(e);
                            },
                        };
                        let ghost pm = Seq::new(permutations@.len(), |q: int| permutations@[q]@);
                        permutations.push(p);
                        proof {
                            assert(m.skip(i as int).drop_first() =~= m.skip(i as int + 1));
                            assert(Seq::new(permutations@.len(), |q: int| permutations@[q]@) =~= pm.push(p@));
                        }
                        i += 1;
                    }
                    proof {
                        assert(m.skip(i as int).len() == 0);
                    }
                },
            },
        }
        Ok(Block { description, components, permutations, format_version })
    }
}

/// Blandness: a block whose base store and every permutation store hold
/// only built-in ids is bland; giving any one of those stores an entry
/// with a custom id makes it not bland.
pub proof fn law_blandness(b: BlockModel, id: Seq<char>, c: crate::component::CompModel, k: int)
    requires
        !crate::store::spec_is_builtin_id(id),
    ensures
        b.is_bland() == (store_all_builtin(b.components) && (forall|i: int|
            0 <= i < b.permutations.len() ==> store_all_builtin(
                (#[trigger] b.permutations[i]).components,
            ))),
        !(BlockModel { components: model_set(b.components, id, c), ..b }).is_bland(),
        0 <= k < b.permutations.len() ==> !(BlockModel {
            permutations: b.permutations.update(
                k,
                crate::permutation::PermModel {
                    components: model_set(b.permutations[k].components, id, c),
                    ..b.permutations[k]
                },
            ),
            ..b
        }).is_bland(),
{
    lemma_model_key_idx_spec(b.components, id, 0);
    let s0 = model_set(b.components, id, c);
    match model_key_idx(b.components, id) {
        Some(i) => {
            assert(s0[i] == (id, c));
            assert(s0[i].0 == id);
            assert(store_all_builtin(s0) ==> spec_is_builtin_id(s0[i].0));
            assert(!store_all_builtin(s0));
        },
        None => {
            let n = b.components.len() as int;
            assert(s0[n] == (id, c));
            assert(s0[n].0 == id);
            assert(store_all_builtin(s0) ==> spec_is_builtin_id(s0[n].0));
            assert(!store_all_builtin(s0));
        },
    }
    assert((BlockModel { components: s0, ..b }).components == s0);
    if 0 <= k < b.permutations.len() {
        let s = b.permutations[k].components;
        lemma_model_key_idx_spec(s, id, 0);
        let b2 = BlockModel {
            permutations: b.permutations.update(
                k,
                crate::permutation::PermModel { components: model_set(s, id, c), ..b.permutations[k] },
            ),
            ..b
        };
        assert(b2.permutations[k].components == model_set(s, id, c));
        match model_key_idx(s, id) {
            Some(i) => {
                assert(model_set(s, id, c)[i] == (id, c));
            },
            None => {
                assert(model_set(s, id, c)[s.len() as int] == (id, c));
            },
        }
        let s2 = b2.permutations[k].components;
        match model_key_idx(s, id) {
            Some(i) => {
                assert(s2[i].0 == id);
                assert(store_all_builtin(s2) ==> spec_is_builtin_id(s2[i].0));
            },
            None => {
                assert(s2[s.len() as int].0 == id);
                assert(store_all_builtin(s2) ==> spec_is_builtin_id(s2[s.len() as int].0));
            },
        }
        assert(!store_all_builtin(b2.permutations[k].components));
        assert(!b2.is_bland());
    }
}


/// Whether a trait variant survives re-encoding: the rotation offset must
/// fit the stored width.
pub open spec fn trait_encodable(t: TraitModel) -> bool {
    match t {
        TraitModel::Position(_) => true,
        TraitModel::Direction { enabled_states, y_rotation_offset } => i32::MIN
            <= y_rotation_offset <= i32::MAX,
    }
}

/// Round trip of a trait variant: its serialization decodes back to the
/// same value.
pub proof fn law_trait_round_trip(t: TraitModel)
    requires
        trait_encodable(t),
    ensures
        spec_trait_from_json(t.to_json()) == Some(t),
{
    reveal_strlit("enabled_states");
    reveal_strlit("y_rotation_offset");
    assert("enabled_states"@.len() == 14 && "y_rotation_offset"@.len() == 17);
    match t {
        TraitModel::Position(es) => {
            let e1 = ("enabled_states"@, Json::Arr(Seq::new(es.len(), |i: int| Json::Str(es[i]))));
            let entries = seq![e1];
            assert(t.to_json() == Json::Obj(entries));
            crate::value::lemma_obj_find_at(entries, 0);
            crate::value::lemma_obj_find_none(entries, "y_rotation_offset"@);
            let items = Seq::new(es.len(), |i: int| Json::Str(es[i]));
            assert(crate::component::all_strings(items));
            assert(crate::component::strings_of(items) =~= es);
        },
        TraitModel::Direction { enabled_states: es, y_rotation_offset: off } => {
            let e1 = ("enabled_states"@, Json::Arr(Seq::new(es.len(), |i: int| Json::Str(es[i]))));
            let e2 = ("y_rotation_offset"@, Json::Int(off));
            let entries = seq![e1, e2];
            assert(t.to_json() == Json::Obj(entries));
            crate::value::lemma_obj_find_at(entries, 0);
            crate::value::lemma_obj_find_at(entries, 1);
            let items = Seq::new(es.len(), |i: int| Json::Str(es[i]));
            assert(crate::component::all_strings(items));
            assert(crate::component::strings_of(items) =~= es);
        },
    }
}

/// The encoded members of a state map.
pub open spec fn states_members(s: Seq<(Seq<char>, StateModel)>) -> Seq<(Seq<char>, Json)> {
    Seq::new(s.len(), |i: int| (s[i].0, s[i].1.to_json()))
}

/// The encoded members of a trait map.
pub open spec fn traits_members(s: Seq<(Seq<char>, TraitModel)>) -> Seq<(Seq<char>, Json)> {
    Seq::new(s.len(), |i: int| (s[i].0, s[i].1.to_json()))
}

proof fn lemma_states_decode_encoded(s: Seq<(Seq<char>, StateModel)>, k: int)
    requires
        model_keys_unique(s),
        forall|i: int| 0 <= i < s.len() ==> crate::state::state_encodable((#[trigger] s[i]).1),
        0 <= k <= s.len(),
    ensures
        spec_decode_states(states_members(s).skip(k), s.take(k)) == Ok::<
            Seq<(Seq<char>, StateModel)>,
            ErrModel,
        >(s),
    decreases s.len() - k,
{
    let entries = states_members(s);
    if k == s.len() {
        assert(entries.skip(k).len() == 0);
        assert(s.take(k) =~= s);
    } else {
        assert(entries.skip(k)[0] == entries[k]);
        crate::state::law_state_round_trip(s[k].1);
        assert(model_set(s.take(k), s[k].0, s[k].1) =~= s.take(k + 1)) by {
            crate::keyed::lemma_model_key_idx_spec(s.take(k), s[k].0, 0);
            match crate::keyed::model_key_idx(s.take(k), s[k].0) {
                Some(i) => {
                    assert(s.take(k)[i].0 == s[i].0);
                    assert(false);
                },
                None => {
                    assert(s.take(k).push((s[k].0, s[k].1)) =~= s.take(k + 1));
                },
            }
        }
        lemma_states_decode_encoded(s, k + 1);
        assert(entries.skip(k).drop_first() =~= entries.skip(k + 1));
    }
}

proof fn lemma_traits_decode_encoded(s: Seq<(Seq<char>, TraitModel)>, k: int)
    requires
        model_keys_unique(s),
        forall|i: int| 0 <= i < s.len() ==> trait_encodable((#[trigger] s[i]).1),
        0 <= k <= s.len(),
    ensures
        spec_decode_traits(traits_members(s).skip(k), s.take(k)) == Ok::<
            Seq<(Seq<char>, TraitModel)>,
            ErrModel,
        >(s),
    decreases s.len() - k,
{
    let entries = traits_members(s);
    if k == s.len() {
        assert(entries.skip(k).len() == 0);
        assert(s.take(k) =~= s);
    } else {
        assert(entries.skip(k)[0] == entries[k]);
        law_trait_round_trip(s[k].1);
        assert(model_set(s.take(k), s[k].0, s[k].1) =~= s.take(k + 1)) by {
            crate::keyed::lemma_model_key_idx_spec(s.take(k), s[k].0, 0);
            match crate::keyed::model_key_idx(s.take(k), s[k].0) {
                Some(i) => {
                    assert(s.take(k)[i].0 == s[i].0);
                    assert(false);
                },
                None => {
                    assert(s.take(k).push((s[k].0, s[k].1)) =~= s.take(k + 1));
                },
            }
        }
        lemma_traits_decode_encoded(s, k + 1);
        assert(entries.skip(k).drop_first() =~= entries.skip(k + 1));
    }
}

/// Round trip of a block description: its serialization decodes back to
/// the same value.
pub proof fn law_desc_round_trip(d: DescModel)
    requires
        d.wf(),
        forall|i: int|
            0 <= i < d.states.len() ==> crate::state::state_encodable((#[trigger] d.states[i]).1),
        forall|i: int| 0 <= i < d.traits.len() ==> trait_encodable((#[trigger] d.traits[i]).1),
    ensures
        spec_desc_from_json(d.to_json()) == Ok::<DescModel, ErrModel>(d),
{
    reveal_strlit("identifier");
    reveal_strlit("menu_category");
    reveal_strlit("states");
    reveal_strlit("traits");
    assert("identifier"@.len() == 10 && "menu_category"@.len() == 13);
    assert("states"@.len() == 6 && "traits"@.len() == 6);
    assert("states"@[0] == 's' && "traits"@[0] == 't');
    let e1 = ("identifier"@, Json::Str(d.identifier));
    let e2 = ("menu_category"@, d.menu_category.to_json());
    let e3 = ("states"@, Json::Obj(states_members(d.states)));
    let e4 = ("traits"@, Json::Obj(traits_members(d.traits)));
    assert(Json::Obj(states_members(d.states)) == Json::Obj(
        Seq::new(d.states.len(), |i: int| (d.states[i].0, d.states[i].1.to_json())),
    )) by {
        assert(states_members(d.states) =~= Seq::new(
            d.states.len(),
            |i: int| (d.states[i].0, d.states[i].1.to_json()),
        ));
    }
    assert(Json::Obj(traits_members(d.traits)) == Json::Obj(
        Seq::new(d.traits.len(), |i: int| (d.traits[i].0, d.traits[i].1.to_json())),
    )) by {
        assert(traits_members(d.traits) =~= Seq::new(
            d.traits.len(),
            |i: int| (d.traits[i].0, d.traits[i].1.to_json()),
        ));
    }
    crate::menu_category::law_menu_round_trip(d.menu_category);
    assert(states_members(d.states).skip(0) =~= states_members(d.states));
    assert(d.states.take(0) =~= Seq::<(Seq<char>, StateModel)>::empty());
    lemma_states_decode_encoded(d.states, 0);
    assert(traits_members(d.traits).skip(0) =~= traits_members(d.traits));
    assert(d.traits.take(0) =~= Seq::<(Seq<char>, TraitModel)>::empty());
    lemma_traits_decode_encoded(d.traits, 0);
    if d.states.len() == 0 && d.traits.len() == 0 {
        let entries = seq![e1, e2];
        assert(d.to_json() == Json::Obj(entries));
        crate::value::lemma_obj_find_at(entries, 0);
        crate::value::lemma_obj_find_at(entries, 1);
        crate::value::lemma_obj_find_none(entries, "states"@);
        crate::value::lemma_obj_find_none(entries, "traits"@);
        assert(d.states =~= Seq::<(Seq<char>, StateModel)>::empty());
        assert(d.traits =~= Seq::<(Seq<char>, TraitModel)>::empty());
        assert(spec_desc_from_json(d.to_json())->Ok_0 =~= d);
    } else if d.states.len() == 0 {
        let entries = seq![e1, e2, e4];
        assert(seq![e1, e2].push(e4) =~= entries);
        assert(d.to_json() == Json::Obj(entries));
        crate::value::lemma_obj_find_at(entries, 0);
        crate::value::lemma_obj_find_at(entries, 1);
        crate::value::lemma_obj_find_at(entries, 2);
        crate::value::lemma_obj_find_none(entries, "states"@);
        assert(d.states =~= Seq::<(Seq<char>, StateModel)>::empty());
        assert(spec_desc_from_json(d.to_json())->Ok_0 =~= d);
    } else if d.traits.len() == 0 {
        let entries = seq![e1, e2, e3];
        assert(seq![e1, e2].push(e3) =~= entries);
        assert(d.to_json() == Json::Obj(entries));
        crate::value::lemma_obj_find_at(entries, 0);
        crate::value::lemma_obj_find_at(entries, 1);
        crate::value::lemma_obj_find_at(entries, 2);
        crate::value::lemma_obj_find_none(entries, "traits"@);
        assert(d.traits =~= Seq::<(Seq<char>, TraitModel)>::empty());
        assert(spec_desc_from_json(d.to_json())->Ok_0 =~= d);
    } else {
        let entries = seq![e1, e2, e3, e4];
        assert(seq![e1, e2].push(e3).push(e4) =~= entries);
        assert(d.to_json() == Json::Obj(entries));
        crate::value::lemma_obj_find_at(entries, 0);
        crate::value::lemma_obj_find_at(entries, 1);
        crate::value::lemma_obj_find_at(entries, 2);
        crate::value::lemma_obj_find_at(entries, 3);
        assert(spec_desc_from_json(d.to_json())->Ok_0 =~= d);
    }
}

proof fn lemma_perms_decode_encoded(
    ps: Seq<crate::permutation::PermModel>,
    v: VersionModel,
    k: int,
)
    requires
        forall|i: int|
            0 <= i < ps.len() ==> (#[trigger] ps[i]).wf() && crate::store::store_all_opaque(
                ps[i].components,
            ),
        0 <= k <= ps.len(),
    ensures
        spec_decode_perms(
            Seq::new(ps.len(), |i: int| ps[i].to_json()).skip(k),
            Seq::<(String, Vec<(VersionRestriction, ComponentKind)>)>::empty(),
            v,
            ps.take(k),
        ) == Ok::<Seq<crate::permutation::PermModel>, ErrModel>(ps),
    decreases ps.len() - k,
{
    let items = Seq::new(ps.len(), |i: int| ps[i].to_json());
    if k == ps.len() {
        assert(items.skip(k).len() == 0);
        assert(ps.take(k) =~= ps);
    } else {
        assert(items.skip(k)[0] == items[k]);
        crate::permutation::law_perm_round_trip(ps[k], v);
        assert(ps.take(k).push(ps[k]) =~= ps.take(k + 1));
        lemma_perms_decode_encoded(ps, v, k + 1);
        assert(items.skip(k).drop_first() =~= items.skip(k + 1));
    }
}

/// Round trip: a block whose stores hold only opaque components, each
/// under its own id, and whose state and trait maps survive re-encoding,
/// decoded back from its serialization against an empty registry, comes
/// back unchanged.
pub proof fn law_round_trip_block(b: BlockModel)
    requires
        b.wf(),
        crate::store::store_all_opaque(b.components),
        forall|i: int|
            0 <= i < b.permutations.len() ==> crate::store::store_all_opaque(
                (#[trigger] b.permutations[i]).components,
            ),
        forall|i: int|
            0 <= i < b.description.states.len() ==> crate::state::state_encodable(
                (#[trigger] b.description.states[i]).1,
            ),
        forall|i: int|
            0 <= i < b.description.traits.len() ==> trait_encodable(
                (#[trigger] b.description.traits[i]).1,
            ),
    ensures
        spec_block_from_json(
            b.to_json(),
            Seq::<(String, Vec<(VersionRestriction, ComponentKind)>)>::empty(),
        ) == Ok::<BlockModel, ErrModel>(b),
{
    reveal_strlit("format_version");
    reveal_strlit("minecraft:block");
    reveal_strlit("description");
    reveal_strlit("components");
    reveal_strlit("permutations");
    assert("format_version"@.len() == 14 && "minecraft:block"@.len() == 15);
    assert("description"@.len() == 11 && "components"@.len() == 10 && "permutations"@.len() == 12);
    let fv = ("format_version"@, Json::Str(b.format_version.raw));
    let de = ("description"@, b.description.to_json());
    let ce = ("components"@, store_to_json(b.components));
    let pe = (
        "permutations"@,
        Json::Arr(Seq::new(b.permutations.len(), |i: int| b.permutations[i].to_json())),
    );
    assert(parse_version(b.format_version.raw) == Some(b.format_version)) by {
        let p = parse_version(b.format_version.raw)->Some_0;
        assert(p.raw == b.format_version.raw);
        assert(p =~= b.format_version);
    }
    law_desc_round_trip(b.description);
    crate::store::law_store_round_trip(b.components, b.format_version);
    assert(Seq::new(b.permutations.len(), |i: int| b.permutations[i].to_json()).skip(0) =~= Seq::new(
        b.permutations.len(),
        |i: int| b.permutations[i].to_json(),
    ));
    assert(b.permutations.take(0) =~= Seq::<crate::permutation::PermModel>::empty());
    lemma_perms_decode_encoded(b.permutations, b.format_version, 0);
    if b.permutations.len() == 0 {
        let inner = seq![de, ce];
        let top = seq![fv, ("minecraft:block"@, Json::Obj(inner))];
        assert(b.to_json() == Json::Obj(top));
        crate::value::lemma_obj_find_at(top, 0);
        crate::value::lemma_obj_find_at(top, 1);
        crate::value::lemma_obj_find_at(inner, 0);
        crate::value::lemma_obj_find_at(inner, 1);
        crate::value::lemma_obj_find_none(inner, "permutations"@);
        assert(b.permutations =~= Seq::<crate::permutation::PermModel>::empty());
        assert(spec_block_from_json(
            b.to_json(),
            Seq::<(String, Vec<(VersionRestriction, ComponentKind)>)>::empty(),
        )->Ok_0 =~= b);
    } else {
        let inner = seq![de, ce, pe];
        assert(seq![de, ce].push(pe) =~= inner);
        let top = seq![fv, ("minecraft:block"@, Json::Obj(inner))];
        assert(b.to_json() == Json::Obj(top));
        crate::value::lemma_obj_find_at(top, 0);
        crate::value::lemma_obj_find_at(top, 1);
        crate::value::lemma_obj_find_at(inner, 0);
        crate::value::lemma_obj_find_at(inner, 1);
        crate::value::lemma_obj_find_at(inner, 2);
        assert(spec_block_from_json(
            b.to_json(),
            Seq::<(String, Vec<(VersionRestriction, ComponentKind)>)>::empty(),
        )->Ok_0 =~= b);
    }
}

} // verus!
