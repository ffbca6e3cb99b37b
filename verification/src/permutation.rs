//! Permutations: a conditional variant of a block's component store,
//! selected at runtime by an opaque condition expression.
use vstd::prelude::*;

verus! {

use crate::component::{ComponentError, ComponentKind, ErrModel, FormattedComponentRegister, VersionRestriction};
use crate::store::{spec_store_from_json, store_to_json, ComponentStore, StoreModel};
use crate::value::{model_entries, Json, JsonValue};
use crate::version::{FormatVersion, VersionModel};

/// The mathematical model of a permutation.
#[verifier::ext_equal]
pub struct PermModel {
    pub condition: Seq<char>,
    pub components: StoreModel,
}

impl PermModel {
    pub open spec fn wf(self) -> bool {
        crate::keyed::model_keys_unique(self.components)
    }

    /// The value-tree serialization: condition, then components.
    pub open spec fn to_json(self) -> Json {
        Json::Obj(
            seq![
                ("condition"@, Json::Str(self.condition)),
                ("components"@, store_to_json(self.components)),
            ],
        )
    }
}

/// What decoding a permutation yields: a required string condition and a
/// required components object.
pub open spec fn spec_perm_from_json(
    j: Json,
    reg: Seq<(String, Vec<(VersionRestriction, ComponentKind)>)>,
    v: VersionModel,
) -> Result<PermModel, ErrModel> {
    match j.get("condition"@) {
        None => Err(ErrModel::MissingMember("condition"@, "permutation"@)),
        Some(Json::Str(cond)) => match j.get("components"@) {
            None => Err(ErrModel::MissingMember("components"@, "permutation"@)),
            Some(cj) => match spec_store_from_json(cj, reg, v) {
                Ok(s) => Ok(PermModel { condition: cond, components: s }),
                Err(e) => Err(e),
            },
        },
        Some(_) => Err(ErrModel::MemberNotType("condition"@, "a string"@)),
    }
}

/// A condition expression paired with its own component store.
#[derive(Debug)]
pub struct Permutation {
    pub condition: String,
    pub components: ComponentStore,
}

impl View for Permutation {
    type V = PermModel;

    open spec fn view(&self) -> PermModel {
        PermModel { condition: self.condition@, components: self.components@ }
    }
}

impl Permutation {
    pub fn new(condition: String, components: ComponentStore) -> (r: Permutation)
        ensures
            r@ == (PermModel { condition: condition@, components: components@ }),
    {
        Permutation { condition, components }
    }

    pub fn to_json(&self) -> (r: JsonValue)
        ensures
            r@ == self@.to_json(),
    {
        let mut entries: Vec<(String, JsonValue)> = Vec::new();
        entries.push(("condition".to_owned(), JsonValue::Str(self.condition.clone())));
        entries.push(("components".to_owned(), self.components.to_json()));
        let r = JsonValue::Obj(entries);
        proof {
            assert(model_entries(entries@) =~= self@.to_json()->Obj_0);
        }
        r
    }

    /// Reads a permutation from a value tree.
    pub fn from_json(
        json: &JsonValue,
        register: &FormattedComponentRegister,
        version: &FormatVersion,
    ) -> (r: Result<Permutation, ComponentError>)
        ensures
            match r {
                Ok(p) => spec_perm_from_json(json@, register@, version@) == Ok::<
                    PermModel,
                    ErrModel,
                >(p@) && p@.wf(),
                Err(e) => spec_perm_from_json(json@, register@, version@) == Err::<
                    PermModel,
                    ErrModel,
                >(e@),
            },
    {
        let condition = match json.get("condition") {
            None => {
                return Err(ComponentError::MissingMember("condition", "permutation"));
            },
            Some(v) => match v.as_str() {
                Some(s) => s.clone(),
                None => {
                    return Err(ComponentError::MemberNotType("condition", "a string"));
                },
            },
        };
        let components = match json.get("components") {
            None => {
                return Err(ComponentError::MissingMember("components", "permutation"));
            },
            Some(cj) => match ComponentStore::from_json(cj, register, version) {
                Ok(s) => s,
                Err(e) => {
                    return Err(e);
                },
            },
        };
        Ok(Permutation { condition, components })
    }
}


/// Round trip of a permutation of opaque components: its serialization
/// decodes, against an empty registry, back to the same value.
pub proof fn law_perm_round_trip(p: PermModel, v: VersionModel)
    requires
        p.wf(),
        crate::store::store_all_opaque(p.components),
    ensures
        spec_perm_from_json(
            p.to_json(),
            Seq::<(String, Vec<(VersionRestriction, ComponentKind)>)>::empty(),
            v,
        ) == Ok::<PermModel, ErrModel>(p),
{
    reveal_strlit("condition");
    reveal_strlit("components");
    let e1 = ("condition"@, Json::Str(p.condition));
    let e2 = ("components"@, store_to_json(p.components));
    let entries = seq![e1, e2];
    assert(p.to_json() == Json::Obj(entries));
    assert("condition"@.len() == 9 && "components"@.len() == 10);
    crate::value::lemma_obj_find_at(entries, 0);
    crate::value::lemma_obj_find_at(entries, 1);
    crate::store::law_store_round_trip(p.components, v);
    assert(spec_perm_from_json(
        p.to_json(),
        Seq::<(String, Vec<(VersionRestriction, ComponentKind)>)>::empty(),
        v,
    )->Ok_0 =~= p);
}

} // verus!
