//! The component store: an ordered mapping from component id to a
//! polymorphic component value.  Keys are unique; a "set" replaces any
//! existing value at that id in place; ids prefixed `"minecraft:"` are
//! built-in, all others are custom.
use vstd::prelude::*;

verus! {

use crate::component::{
    decode_component, spec_decode_component, CompModel, Component, ComponentError, ComponentKind,
    ErrModel, FormattedComponentRegister, VersionRestriction,
};
use crate::keyed::{
    key_idx, keyed_get, keyed_idx, keyed_remove, keyed_set, lemma_key_idx_matches_model,
    lemma_key_idx_spec, lemma_model_key_idx_spec, model_key_find, model_key_has, model_key_idx,
    model_keys_unique, model_remove, model_set,
};
use crate::value::{model_entries, str_has_prefix, Json, JsonValue};
use crate::version::{FormatVersion, VersionModel};

/// The mathematical model of a component store: an ordered list of
/// (id, component) pairs with pairwise distinct ids.
pub type StoreModel = Seq<(Seq<char>, CompModel)>;

/// Whether a component id is built-in: namespace-prefixed `"minecraft:"`.
pub open spec fn spec_is_builtin_id(id: Seq<char>) -> bool {
    id.len() >= "minecraft:"@.len() && id.subrange(0, "minecraft:"@.len() as int)
        == "minecraft:"@
}

pub fn is_builtin_id(id: &str) -> (r: bool)
    ensures
        r == spec_is_builtin_id(id@),
{
    str_has_prefix(id, "minecraft:")
}

/// Whether every id in a store is built-in.
pub open spec fn store_all_builtin(s: StoreModel) -> bool {
    forall|i: int| 0 <= i < s.len() ==> spec_is_builtin_id(#[trigger] s[i].0)
}

/// The value-tree serialization of a store: one member per entry, in store
/// order.
pub open spec fn store_to_json(s: StoreModel) -> Json {
    Json::Obj(Seq::new(s.len(), |i: int| (s[i].0, s[i].1.to_json())))
}

/// What decoding the members of an object into a store yields, starting
/// from `acc`: each member decoded through the registry, later duplicate
/// keys replacing earlier ones.
pub open spec fn spec_decode_entries(
    entries: Seq<(Seq<char>, Json)>,
    reg: Seq<(String, Vec<(VersionRestriction, ComponentKind)>)>,
    v: VersionModel,
    acc: StoreModel,
) -> Result<StoreModel, ErrModel>
    decreases entries.len(),
{
    if entries.len() == 0 {
        Ok(acc)
    } else {
        match spec_decode_component(reg, v, entries[0].0, entries[0].1) {
            Ok(c) => spec_decode_entries(
                entries.drop_first(),
                reg,
                v,
                model_set(acc, entries[0].0, c),
            ),
            Err(e) => Err(e),
        }
    }
}

/// What decoding a whole store from a value tree yields: the members of an
/// object, decoded in order; anything else is rejected.
pub open spec fn spec_store_from_json(
    j: Json,
    reg: Seq<(String, Vec<(VersionRestriction, ComponentKind)>)>,
    v: VersionModel,
) -> Result<StoreModel, ErrModel> {
    match j {
        Json::Obj(entries) => spec_decode_entries(entries, reg, v, Seq::empty()),
        _ => Err(ErrModel::NotObject("components"@)),
    }
}

/// An ordered mapping from component id to a polymorphic component.
#[derive(Debug)]
pub struct ComponentStore {
    entries: Vec<(String, Component)>,
}

pub open spec fn store_model(entries: Seq<(String, Component)>) -> StoreModel {
    Seq::new(entries.len(), |i: int| (entries[i].0@, entries[i].1@))
}

impl View for ComponentStore {
    type V = StoreModel;

    closed spec fn view(&self) -> StoreModel {
        store_model(self.entries@)
    }
}

impl ComponentStore {
    /// Ids are pairwise distinct.
    pub open spec fn wf(self) -> bool {
        model_keys_unique(self@)
    }

    pub fn new() -> (r: ComponentStore)
        ensures
            r@ =~= Seq::<(Seq<char>, CompModel)>::empty(),
            r.wf(),
    {
        let r = ComponentStore { entries: Vec::new() };
        proof {
            assert(r@ =~= Seq::<(Seq<char>, CompModel)>::empty());
        }
        r
    }

    /// Wraps an id-keyed entry list whose ids are already distinct.
    pub fn from_map(components: Vec<(String, Component)>) -> (r: ComponentStore)
        requires
            model_keys_unique(store_model(components@)),
        ensures
            r@ == store_model(components@),
            r.wf(),
    {
        ComponentStore { entries: components }
    }

    /// Number of components held.
    pub fn len(&self) -> (r: usize)
        ensures
            r == self@.len(),
    {
        self.entries.len()
    }

    /// The entry at a position, in store order.
    pub fn entry_at(&self, i: usize) -> (r: (&String, &Component))
        requires
            i < self@.len(),
        ensures
            self@[i as int] == (r.0@, r.1@),
    {
        (&self.entries[i].0, &self.entries[i].1)
    }

    proof fn lemma_bridge(&self, key: Seq<char>)
        ensures
            key_idx(self.entries@, key) == model_key_idx(self@, key),
    {
        lemma_key_idx_matches_model(self.entries@, self@, key, 0);
    }

    /// A copy of the component stored at this id, if any.
    pub fn get_component(&self, name: &str) -> (r: Option<Component>)
        ensures
            match r {
                Some(c) => model_key_find(self@, name@) == Some(c@),
                None => model_key_find(self@, name@) is None,
            },
    {
        proof {
            self.lemma_bridge(name@);
            lemma_key_idx_spec(self.entries@, name@, 0);
        }
        match keyed_get(&self.entries, name) {
            Some(c) => Some(c.comp_clone()),
            None => None,
        }
    }

    /// The component stored at this id, if any.
    pub fn get_component_ref<'a>(&'a self, name: &str) -> (r: Option<&'a Component>)
        ensures
            match r {
                Some(c) => model_key_find(self@, name@) == Some((*c)@),
                None => model_key_find(self@, name@) is None,
            },
    {
        proof {
            self.lemma_bridge(name@);
            lemma_key_idx_spec(self.entries@, name@, 0);
        }
        keyed_get(&self.entries, name)
    }

    /// The component at this id, inserting the given default first when
    /// it is absent.  A store entry cannot be borrowed mutably while the
    /// store itself stays usable, so the get-or-default write path hands
    /// back a copy; `set_component_custom` writes the mutated copy back.
    pub fn get_component_mut_default(&mut self, name: &str, default: Component) -> (r: Component)
        ensures
            r@ == (match model_key_find(old(self)@, name@) {
                Some(c) => c,
                None => default@,
            }),
            final(self)@ =~= model_set(old(self)@, name@, r@),
            old(self).wf() ==> final(self).wf(),
            old(self).wf() ==> model_key_find(final(self)@, name@) == Some(r@),
    {
        proof {
            lemma_model_key_idx_spec(old(self)@, name@, 0);
        }
        let existing = self.get_component(name);
        let r = match existing {
            Some(c) => {
                proof {
                    let i = model_key_idx(old(self)@, name@)->Some_0;
                    assert(old(self)@.update(i, (name@, c@)) =~= old(self)@);
                }
                c
            },
            None => {
                let copy = default.comp_clone();
                self.set_component_custom(default, name.to_owned());
                copy
            },
        };
        proof {
            if old(self).wf() {
                lemma_model_key_idx_spec(self@, name@, 0);
                match model_key_idx(old(self)@, name@) {
                    Some(i) => {
                        assert(self@[i].0 == name@ && self@[i].1 == r@);
                        match model_key_idx(self@, name@) {
                            Some(k) => {
                                if k != i {
                                    assert(self@[k].0 == old(self)@[k].0);
                                    assert(false);
                                }
                            },
                            None => {
                                assert(false);
                            },
                        }
                    },
                    None => {
                        let n = old(self)@.len() as int;
                        assert(self@.len() == n + 1);
                        assert(self@[n] == (name@, r@));
                        assert(self@[n].0 == name@);
                        match model_key_idx(self@, name@) {
                            Some(k) => {
                                if k < n {
                                    assert(self@[k] == old(self)@[k]);
                                    assert(false);
                                }
                            },
                            None => {
                                assert(false);
                            },
                        }
                    },
                }
            }
        }
        r
    }

    /// Deletes the entry at this id; a no-op when absent.
    pub fn remove_component(&mut self, name: &str)
        ensures
            final(self)@ =~= model_remove(old(self)@, name@),
            old(self).wf() ==> final(self).wf(),
            old(self).wf() ==> !model_key_has(final(self)@, name@),
    {
        proof {
            old(self).lemma_bridge(name@);
            lemma_key_idx_spec(self.entries@, name@, 0);
        }
        keyed_remove(&mut self.entries, name);
        proof {
            match model_key_idx(old(self)@, name@) {
                Some(i) => {
                    assert(final(self)@ =~= old(self)@.remove(i));
                },
                None => {
                    assert(final(self)@ =~= old(self)@);
                },
            }
            if old(self).wf() {
                assert(crate::keyed::keys_unique(old(self).entries@)) by {
                    assert(forall|i: int|
                        0 <= i < old(self)@.len() ==> old(self)@[i].0 == #[trigger] old(
                            self,
                        ).entries@[i].0@);
                }
                self.lemma_bridge(name@);
            }
        }
    }

    /// Inserts or replaces under the component's self-reported id.
    pub fn set_component(&mut self, comp: Component)
        ensures
            final(self)@ =~= model_set(old(self)@, comp@.comp_id(), comp@),
            old(self).wf() ==> final(self).wf(),
    {
        let name = comp.id().to_owned();
        self.set_component_custom(comp, name);
    }

    /// Inserts or replaces under an explicit id.
    pub fn set_component_custom(&mut self, comp: Component, name: String)
        ensures
            final(self)@ =~= model_set(old(self)@, name@, comp@),
            old(self).wf() ==> final(self).wf(),
    {
        proof {
            old(self).lemma_bridge(name@);
            lemma_key_idx_spec(self.entries@, name@, 0);
        }
        let ghost olds = old(self)@;
        let ghost uniq = old(self).wf();
        keyed_set(&mut self.entries, name, comp);
        proof {
            match model_key_idx(olds, name@) {
                Some(i) => {
                    assert(final(self)@ =~= olds.update(i, (name@, comp@)));
                },
                None => {
                    assert(final(self)@ =~= olds.push((name@, comp@)));
                },
            }
            if uniq {
                assert(model_keys_unique(final(self)@)) by {
                    lemma_model_key_idx_spec(olds, name@, 0);
                }
            }
        }
    }

    /// Whether any entry has a custom (non-built-in) id.
    pub fn contains_non_minecraft(&self) -> (r: bool)
        ensures
            r == !store_all_builtin(self@),
    {
        let mut i: usize = 0;
        while i < self.entries.len()
            invariant
                0 <= i <= self@.len(),
                forall|j: int| 0 <= j < i ==> spec_is_builtin_id(#[trigger] self@[j].0),
            decreases self@.len() - i,
        {
            if !is_builtin_id(self.entries[i].0.as_str()) {
                proof {
                    assert(!spec_is_builtin_id(self@[i as int].0));
                }
                return true;
            }
            i += 1;
        }
        false
    }

    /// Copies of the entries whose id is custom, in store order.
    pub fn non_minecraft_components(&self) -> (r: Vec<(String, Component)>)
        ensures
            store_model(r@) =~= self@.filter(|p: (Seq<char>, CompModel)| !spec_is_builtin_id(p.0)),
    {
        broadcast use vstd::seq_lib::group_filter_ensures;

        let mut out: Vec<(String, Component)> = Vec::new();
        let mut i: usize = 0;
        while i < self.entries.len()
            invariant
                0 <= i <= self@.len(),
                store_model(out@) =~= self@.subrange(0, i as int).filter(
                    |p: (Seq<char>, CompModel)| !spec_is_builtin_id(p.0),
                ),
            decreases self@.len() - i,
        {
            let ghost prefix = self@.subrange(0, i as int);
            let builtin = is_builtin_id(self.entries[i].0.as_str());
            if !builtin {
                out.push((self.entries[i].0.clone(), self.entries[i].1.comp_clone()));
            }
            proof {
                assert(self@.subrange(0, i + 1) =~= prefix + seq![self@[i as int]]);
                Seq::filter_distributes_over_add(
                    prefix,
                    seq![self@[i as int]],
                    |p: (Seq<char>, CompModel)| !spec_is_builtin_id(p.0),
                );
                reveal_with_fuel(vstd::seq::Seq::filter, 2);
                if !builtin {
                    assert(seq![self@[i as int]].filter(
                        |p: (Seq<char>, CompModel)| !spec_is_builtin_id(p.0),
                    ) =~= seq![self@[i as int]]);
                    assert(store_model(out@) =~= store_model(out@.drop_last()).push(
                        (out@.last().0@, out@.last().1@),
                    ));
                } else {
                    assert(seq![self@[i as int]].filter(
                        |p: (Seq<char>, CompModel)| !spec_is_builtin_id(p.0),
                    ) =~= Seq::<(Seq<char>, CompModel)>::empty());
                }
            }
            i += 1;
        }
        proof {
            assert(self@.subrange(0, self@.len() as int) =~= self@);
        }
        out
    }

    /// The value-tree serialization: one member per entry, in store order.
    pub fn to_json(&self) -> (r: JsonValue)
        ensures
            r@ == store_to_json(self@),
    {
        let mut out: Vec<(String, JsonValue)> = Vec::new();
        let mut i: usize = 0;
        while i < self.entries.len()
            invariant
                0 <= i <= self@.len(),
                out@.len() == i,
                forall|j: int|
                    0 <= j < i ==> #[trigger] out@[j].0@ == self@[j].0 && out@[j].1@
                        == self@[j].1.to_json(),
            decreases self@.len() - i,
        {
            let key = self.entries[i].0.clone();
            let enc = self.entries[i].1.to_json();
            proof {
                assert(key@ == self@[i as int].0);
                assert(enc@ == self@[i as int].1.to_json());
            }
            out.push((key, enc));
            i += 1;
        }
        proof {
            assert(model_entries(out@) =~= Seq::new(
                self@.len(),
                |i: int| (self@[i].0, self@[i].1.to_json()),
            ));
        }
        JsonValue::Obj(out)
    }

    /// Decodes a whole store from a value tree: each member through the
    /// registry at the given format version, unknown ids falling back to
    /// opaque components; fails only if the value is not an object.  Under
    /// a well-keyed registry every decoded entry's key agrees with its
    /// component's self-reported id.
    pub fn from_json(
        json: &JsonValue,
        register: &FormattedComponentRegister,
        current_format: &FormatVersion,
    ) -> (r: Result<ComponentStore, ComponentError>)
        ensures
            match r {
                Ok(s) => spec_store_from_json(json@, register@, current_format@) == Ok::<
                    StoreModel,
                    ErrModel,
                >(s@) && s.wf(),
                Err(e) => spec_store_from_json(json@, register@, current_format@) == Err::<
                    StoreModel,
                    ErrModel,
                >(e@),
            },
            crate::component::reg_wf(register@) && r is Ok ==> (forall|i: int|
                0 <= i < r->Ok_0@.len() ==> (#[trigger] r->Ok_0@[i]).1.comp_id()
                    == r->Ok_0@[i].0),
    {
        let obj = match json.as_object() {
            Some(entries) => entries,
            None => {
                return Err(ComponentError::NotObject("components"));
            },
        };
        let ghost m = model_entries(obj@);
        let mut store = ComponentStore::new();
        let mut i: usize = 0;
        proof {
            assert(m.skip(0) =~= m);
        }
        while i < obj.len()
            invariant
                m == model_entries(obj@),
                json@ == Json::Obj(m),
                0 <= i <= obj@.len(),
                store.wf(),
                spec_decode_entries(m, register@, current_format@, Seq::empty())
                    == spec_decode_entries(m.skip(i as int), register@, current_format@, store@),
                crate::component::reg_wf(register@) ==> (forall|j: int|
                    0 <= j < store@.len() ==> (#[trigger] store@[j]).1.comp_id() == store@[j].0),
            decreases obj@.len() - i,
        {
            proof {
                assert(m.skip(i as int)[0] == m[i as int]);
            }
            let comp = match decode_component(
                register,
                current_format,
                obj[i].0.as_str(),
                &obj[i].1,
            ) {
                Ok(c) => c,
                Err(e) => {
                    return Err(e);
                },
            };
            let ghost pre = store@;
            store.set_component_custom(comp, obj[i].0.clone());
            proof {
                assert(m.skip(i as int).drop_first() =~= m.skip(i as int + 1));
                if crate::component::reg_wf(register@) {
                    assert(comp@.comp_id() == m[i as int].0);
                    assert(store@ =~= model_set(pre, m[i as int].0, comp@));
                    crate::keyed::lemma_model_key_idx_spec(pre, m[i as int].0, 0);
                    assert forall|j: int|
                        0 <= j < store@.len() implies (#[trigger] store@[j]).1.comp_id()
                        == store@[j].0 by {
                        match crate::keyed::model_key_idx(pre, m[i as int].0) {
                            Some(k) => {
                                assert(store@ == pre.update(k, (m[i as int].0, comp@)));
                                assert(0 <= k < pre.len());
                                if j != k {
                                    assert(store@[j] == pre[j]);
                                } else {
                                    assert(store@[j] == (m[i as int].0, comp@));
                                }
                            },
                            None => {
                                assert(store@ == pre.push((m[i as int].0, comp@)));
                                if j < pre.len() {
                                    assert(store@[j] == pre[j]);
                                } else {
                                    assert(store@[j] == (m[i as int].0, comp@));
                                }
                            },
                        }
                    }
                }
            }
            i += 1;
        }
        proof {
            assert(m.skip(i as int).len() == 0);
        }
        Ok(store)
    }
}


/// Whether every component is the opaque kind, carrying its key as its id.
pub open spec fn store_all_opaque(s: StoreModel) -> bool {
    forall|i: int|
        0 <= i < s.len() ==> (#[trigger] s[i]).1 is Unknown && s[i].1->Unknown_id == s[i].0
}

/// The encoded members of a store.
pub open spec fn store_members(s: StoreModel) -> Seq<(Seq<char>, Json)> {
    Seq::new(s.len(), |i: int| (s[i].0, s[i].1.to_json()))
}

proof fn lemma_store_decode_encoded(s: StoreModel, v: VersionModel, k: int)
    requires
        model_keys_unique(s),
        store_all_opaque(s),
        0 <= k <= s.len(),
    ensures
        spec_decode_entries(
            store_members(s).skip(k),
            Seq::empty(),
            v,
            s.take(k),
        ) == Ok::<StoreModel, ErrModel>(s),
    decreases s.len() - k,
{
    let entries = store_members(s);
    if k == s.len() {
        assert(entries.skip(k).len() == 0);
        assert(s.take(k) =~= s);
    } else {
        assert(entries.skip(k)[0] == entries[k]);
        assert(spec_decode_component(Seq::empty(), v, s[k].0, s[k].1.to_json()) == Ok::<
            CompModel,
            ErrModel,
        >(s[k].1)) by {
            assert(crate::keyed::key_idx_from(
                Seq::<(String, Vec<(VersionRestriction, ComponentKind)>)>::empty(),
                s[k].0,
                0,
            ) is None);
            assert(s[k].1.to_json() == s[k].1->Unknown_data);
            assert(CompModel::Unknown { id: s[k].0, data: s[k].1->Unknown_data } == s[k].1);
        }
        assert(crate::keyed::model_set(s.take(k), s[k].0, s[k].1) =~= s.take(k + 1)) by {
            crate::keyed::lemma_model_key_idx_spec(s.take(k), s[k].0, 0);
            match crate::keyed::model_key_idx(s.take(k), s[k].0) {
                Some(i) => {
                    assert(s.take(k)[i].0 == s[i].0);
                    assert(false);
                },
                None => {
                    assert(s.take(k).push((s[k].0, s[k].1)) =~= s.take(k + 1));
                },
            }
        }
        lemma_store_decode_encoded(s, v, k + 1);
        assert(entries.skip(k).drop_first() =~= entries.skip(k + 1));
    }
}

/// Round trip of a store of opaque components: its serialization decodes,
/// against an empty registry, back to the same store.
pub proof fn law_store_round_trip(s: StoreModel, v: VersionModel)
    requires
        model_keys_unique(s),
        store_all_opaque(s),
    ensures
        spec_store_from_json(store_to_json(s), Seq::empty(), v) == Ok::<StoreModel, ErrModel>(s),
{
    assert(store_to_json(s)->Obj_0 =~= store_members(s));
    assert(store_members(s).skip(0) =~= store_members(s));
    assert(s.take(0) =~= Seq::<(Seq<char>, CompModel)>::empty());
    lemma_store_decode_encoded(s, v, 0);
}


proof fn lemma_decode_keeps(
    entries: Seq<(Seq<char>, Json)>,
    reg: Seq<(String, Vec<(VersionRestriction, ComponentKind)>)>,
    v: VersionModel,
    j: int,
    acc: StoreModel,
    key: Seq<char>,
    c: CompModel,
)
    requires
        0 <= j <= entries.len(),
        model_key_find(acc, key) == Some(c),
        forall|q: int| j <= q < entries.len() ==> (#[trigger] entries[q]).0 != key,
        spec_decode_entries(entries.skip(j), reg, v, acc) is Ok,
    ensures
        model_key_find(spec_decode_entries(entries.skip(j), reg, v, acc)->Ok_0, key) == Some(c),
    decreases entries.len() - j,
{
    if j == entries.len() {
        assert(entries.skip(j).len() == 0);
    } else {
        assert(entries.skip(j)[0] == entries[j]);
        match spec_decode_component(reg, v, entries[j].0, entries[j].1) {
            Ok(cj) => {
                crate::keyed::lemma_model_set_other(acc, entries[j].0, cj, key);
                assert(entries.skip(j).drop_first() =~= entries.skip(j + 1));
                lemma_decode_keeps(
                    entries,
                    reg,
                    v,
                    j + 1,
                    model_set(acc, entries[j].0, cj),
                    key,
                    c,
                );
            },
            Err(e) => {
                assert(false);
            },
        }
    }
}

proof fn lemma_store_fallback_walk(
    entries: Seq<(Seq<char>, Json)>,
    reg: Seq<(String, Vec<(VersionRestriction, ComponentKind)>)>,
    v: VersionModel,
    j: int,
    acc: StoreModel,
    k: int,
)
    requires
        model_keys_unique(entries),
        0 <= j <= k < entries.len(),
        crate::component::reg_resolve(reg, v, entries[k].0) is None,
        spec_decode_entries(entries.skip(j), reg, v, acc) is Ok,
    ensures
        model_key_find(
            spec_decode_entries(entries.skip(j), reg, v, acc)->Ok_0,
            entries[k].0,
        ) == Some(CompModel::Unknown { id: entries[k].0, data: entries[k].1 }),
    decreases entries.len() - j,
{
    assert(entries.skip(j)[0] == entries[j]);
    match spec_decode_component(reg, v, entries[j].0, entries[j].1) {
        Ok(c) => {
            let acc2 = model_set(acc, entries[j].0, c);
            assert(entries.skip(j).drop_first() =~= entries.skip(j + 1));
            if j == k {
                assert(c == (CompModel::Unknown { id: entries[k].0, data: entries[k].1 }));
                crate::keyed::lemma_model_set_same(acc, entries[k].0, c);
                assert(forall|q: int|
                    k + 1 <= q < entries.len() ==> (#[trigger] entries[q]).0 != entries[k].0);
                lemma_decode_keeps(entries, reg, v, j + 1, acc2, entries[k].0, c);
            } else {
                assert(entries[j].0 != entries[k].0);
                lemma_store_fallback_walk(entries, reg, v, j + 1, acc2, k);
            }
        },
        Err(e) => {
            assert(false);
        },
    }
}

/// Registry fallback at the store level: in an object whose member keys
/// are pairwise distinct, a member whose id the registry does not resolve
/// decodes into the store as the opaque component carrying that member's
/// payload unchanged.
pub proof fn law_store_fallback(
    entries: Seq<(Seq<char>, Json)>,
    reg: Seq<(String, Vec<(VersionRestriction, ComponentKind)>)>,
    v: VersionModel,
    k: int,
)
    requires
        model_keys_unique(entries),
        0 <= k < entries.len(),
        crate::component::reg_resolve(reg, v, entries[k].0) is None,
        spec_decode_entries(entries, reg, v, Seq::empty()) is Ok,
    ensures
        model_key_find(
            spec_decode_entries(entries, reg, v, Seq::empty())->Ok_0,
            entries[k].0,
        ) == Some(CompModel::Unknown { id: entries[k].0, data: entries[k].1 }),
{
    assert(entries.skip(0) =~= entries);
    lemma_store_fallback_walk(entries, reg, v, 0, Seq::empty(), k);
}

} // verus!
