//! The component type system: a closed polymorphic component value with an
//! opaque fallback, the version-restriction algebra, and the format-version
//! registry that picks the typed decoder applicable to a component id at a
//! given content format version.
use vstd::prelude::*;

verus! {

use crate::keyed::{key_find, key_idx, keyed_idx, keyed_set};
use crate::value::{Json, JsonValue};
use crate::version::{FormatVersion, VersionModel};

/// Errors raised while decoding an entity or component from a value tree.
#[derive(Debug)]
pub enum ComponentError {
    /// A member is present but has the wrong shape.
    MemberNotType(&'static str, &'static str),
    MemberNotTypeDynamic(String, &'static str),
    /// A value that had to be an object is not one.
    NotObject(&'static str),
    NotObjectDynamic(String),
    /// A required member is absent.
    MissingMember(&'static str, &'static str),
}

/// The mathematical model of a decode error.
#[verifier::ext_equal]
pub enum ErrModel {
    MemberNotType(Seq<char>, Seq<char>),
    MemberNotTypeDynamic(Seq<char>, Seq<char>),
    NotObject(Seq<char>),
    NotObjectDynamic(Seq<char>),
    MissingMember(Seq<char>, Seq<char>),
}

impl View for ComponentError {
    type V = ErrModel;

    open spec fn view(&self) -> ErrModel {
        match self {
            ComponentError::MemberNotType(a, b) => ErrModel::MemberNotType(a@, b@),
            ComponentError::MemberNotTypeDynamic(a, b) => ErrModel::MemberNotTypeDynamic(a@, b@),
            ComponentError::NotObject(a) => ErrModel::NotObject(a@),
            ComponentError::NotObjectDynamic(a) => ErrModel::NotObjectDynamic(a@),
            ComponentError::MissingMember(a, b) => ErrModel::MissingMember(a@, b@),
        }
    }
}

/// A component the registry does not recognize: its id and its raw payload,
/// carried through untouched.
#[derive(Debug)]
pub struct UnknownComponent {
    pub data: JsonValue,
    pub id: String,
}

impl UnknownComponent {
    pub fn new(json: JsonValue, id: String) -> (r: UnknownComponent)
        ensures
            r.data == json && r.id == id,
    {
        UnknownComponent { id, data: json }
    }
}

/// The list of custom component ids carried on an entity.
#[derive(Debug)]
pub struct MinecraftCustomComponents {
    pub component_ids: Vec<String>,
}

/// The display name of an item.
#[derive(Debug)]
pub struct MinecraftDisplayNameItem {
    pub value: String,
}

/// The display name of a block.
#[derive(Debug)]
pub struct MinecraftDisplayNameBlock(pub String);

/// A polymorphic component value: one of the built-in typed kinds, or the
/// opaque fallback for everything the registry does not recognize.
#[derive(Debug)]
pub enum Component {
    Unknown(UnknownComponent),
    CustomComponents(MinecraftCustomComponents),
    DisplayNameItem(MinecraftDisplayNameItem),
    DisplayNameBlock(MinecraftDisplayNameBlock),
}

/// The mathematical model of a component value.
#[verifier::ext_equal]
pub enum CompModel {
    Unknown { id: Seq<char>, data: Json },
    CustomComponents(Seq<Seq<char>>),
    DisplayNameItem(Seq<char>),
    DisplayNameBlock(Seq<char>),
}

pub open spec fn str_views(ids: Seq<String>) -> Seq<Seq<char>> {
    Seq::new(ids.len(), |i: int| ids[i]@)
}

impl View for Component {
    type V = CompModel;

    open spec fn view(&self) -> CompModel {
        match self {
            Component::Unknown(u) => CompModel::Unknown { id: u.id@, data: u.data@ },
            Component::CustomComponents(c) => CompModel::CustomComponents(
                str_views(c.component_ids@),
            ),
            Component::DisplayNameItem(d) => CompModel::DisplayNameItem(d.value@),
            Component::DisplayNameBlock(d) => CompModel::DisplayNameBlock(d.0@),
        }
    }
}

impl CompModel {
    /// The id a component reports for itself.
    pub open spec fn comp_id(self) -> Seq<char> {
        match self {
            CompModel::Unknown { id, data } => id,
            CompModel::CustomComponents(_) => "minecraft:custom_components"@,
            CompModel::DisplayNameItem(_) => "minecraft:display_name"@,
            CompModel::DisplayNameBlock(_) => "minecraft:display_name"@,
        }
    }

    /// The value-tree serialization of a component.
    pub open spec fn to_json(self) -> Json {
        match self {
            CompModel::Unknown { id, data } => data,
            CompModel::CustomComponents(ids) => Json::Arr(
                Seq::new(ids.len(), |i: int| Json::Str(ids[i])),
            ),
            CompModel::DisplayNameItem(s) => Json::Str(s),
            CompModel::DisplayNameBlock(s) => Json::Str(s),
        }
    }
}

impl Component {
    /// The id this component reports for itself.
    pub fn id(&self) -> (r: &str)
        ensures
            r@ == self@.comp_id(),
    {
        match self {
            Component::Unknown(u) => u.id.as_str(),
            Component::CustomComponents(_) => "minecraft:custom_components",
            Component::DisplayNameItem(_) => "minecraft:display_name",
            Component::DisplayNameBlock(_) => "minecraft:display_name",
        }
    }

    /// The value-tree serialization of this component.
    #[verifier::loop_isolation(false)]
    pub fn to_json(&self) -> (r: JsonValue)
        ensures
            r@ == self@.to_json(),
    {
        match self {
            Component::Unknown(u) => u.data.duplicate(),
            Component::CustomComponents(c) => {
                let mut items: Vec<JsonValue> = Vec::new();
                let mut i: usize = 0;
                while i < c.component_ids.len()
                    invariant
                        0 <= i <= c.component_ids@.len(),
                        items@.len() == i,
                        forall|j: int|
                            0 <= j < i ==> items@[j] == JsonValue::Str(c.component_ids@[j]),
                    decreases c.component_ids@.len() - i,
                {
                    items.push(JsonValue::Str(c.component_ids[i].clone()));
                    i += 1;
                }
                proof {
                    assert(crate::value::model_seq(items@) =~= Seq::new(
                        str_views(c.component_ids@).len(),
                        |i: int| Json::Str(str_views(c.component_ids@)[i]),
                    ));
                }
                JsonValue::Arr(items)
            },
            Component::DisplayNameItem(d) => JsonValue::Str(d.value.clone()),
            Component::DisplayNameBlock(d) => JsonValue::Str(d.0.clone()),
        }
    }

    /// The raw payload, for the opaque component kind.
    pub fn payload_ref(&self) -> (r: Option<&JsonValue>)
        ensures
            match r {
                Some(d) => self@ is Unknown && self@->Unknown_data == (*d)@,
                None => !(self@ is Unknown),
            },
    {
        match self {
            Component::Unknown(u) => Some(&u.data),
            _ => None,
        }
    }

    /// An independent copy with the same model.
    #[verifier::loop_isolation(false)]
    pub fn comp_clone(&self) -> (r: Component)
        ensures
            r@ == self@,
    {
        match self {
            Component::Unknown(u) => Component::Unknown(
                UnknownComponent { id: u.id.clone(), data: u.data.duplicate() },
            ),
            Component::CustomComponents(c) => {
                let mut ids: Vec<String> = Vec::new();
                let mut i: usize = 0;
                while i < c.component_ids.len()
                    invariant
                        0 <= i <= c.component_ids@.len(),
                        ids@.len() == i,
                        forall|j: int| 0 <= j < i ==> ids@[j]@ == c.component_ids@[j]@,
                    decreases c.component_ids@.len() - i,
                {
                    ids.push(c.component_ids[i].clone());
                    i += 1;
                }
                proof {
                    assert(str_views(ids@) =~= str_views(c.component_ids@));
                }
                Component::CustomComponents(MinecraftCustomComponents { component_ids: ids })
            },
            Component::DisplayNameItem(d) => Component::DisplayNameItem(
                MinecraftDisplayNameItem { value: d.value.clone() },
            ),
            Component::DisplayNameBlock(d) => Component::DisplayNameBlock(
                MinecraftDisplayNameBlock(d.0.clone()),
            ),
        }
    }
}

/// A restriction on content format versions: minimum-only, maximum-only, or
/// a bounded closed interval.
#[derive(Debug, Clone)]
pub enum VersionRestriction {
    Min(FormatVersion),
    Max(FormatVersion),
    MinMax(FormatVersion, FormatVersion),
}

/// The mathematical model of a version restriction.
pub enum RestrModel {
    Min(VersionModel),
    Max(VersionModel),
    MinMax(VersionModel, VersionModel),
}

impl RestrModel {
    /// Closed-interval containment.
    pub open spec fn contains(self, v: VersionModel) -> bool {
        match self {
            RestrModel::Min(m) => m.le(v),
            RestrModel::Max(m) => v.le(m),
            RestrModel::MinMax(lo, hi) => lo.le(v) && v.le(hi),
        }
    }
}

impl View for VersionRestriction {
    type V = RestrModel;

    open spec fn view(&self) -> RestrModel {
        match self {
            VersionRestriction::Min(m) => RestrModel::Min(m@),
            VersionRestriction::Max(m) => RestrModel::Max(m@),
            VersionRestriction::MinMax(lo, hi) => RestrModel::MinMax(lo@, hi@),
        }
    }
}

impl VersionRestriction {
    /// Whether the restriction admits the given version.
    pub fn contains(&self, version: &FormatVersion) -> (r: bool)
        ensures
            r == self@.contains(version@),
    {
        match self {
            VersionRestriction::Min(m) => m.le(version),
            VersionRestriction::Max(m) => version.le(m),
            VersionRestriction::MinMax(lo, hi) => lo.le(version) && version.le(hi),
        }
    }
}

/// Version containment is exactly the closed-interval check: a minimum-only
/// restriction admits every version at or above its bound, a maximum-only
/// restriction every version at or below it, and a bounded restriction
/// every version between its bounds.
pub proof fn law_version_containment(r: RestrModel, v: VersionModel)
    ensures
        match r {
            RestrModel::Min(m) => r.contains(v) == m.le(v),
            RestrModel::Max(m) => r.contains(v) == v.le(m),
            RestrModel::MinMax(lo, hi) => r.contains(v) == (lo.le(v) && v.le(hi)),
        },
{
}

/// The prototype of a typed built-in component: which kind the registry
/// will construct for a payload.
#[derive(Debug, Clone, Copy, PartialEq, Eq, Structural)]
pub enum ComponentKind {
    CustomComponents,
    DisplayNameItem,
    DisplayNameBlock,
}

impl ComponentKind {
    /// The canonical id a prototype of this kind reports for itself; the
    /// registry keys every binding by it, so a store entry's key and its
    /// component's self-reported id always agree.
    pub open spec fn spec_id(self) -> Seq<char> {
        match self {
            ComponentKind::CustomComponents => "minecraft:custom_components"@,
            ComponentKind::DisplayNameItem => "minecraft:display_name"@,
            ComponentKind::DisplayNameBlock => "minecraft:display_name"@,
        }
    }

    pub fn static_id(&self) -> (r: &'static str)
        ensures
            r@ == self.spec_id(),
    {
        match self {
            ComponentKind::CustomComponents => "minecraft:custom_components",
            ComponentKind::DisplayNameItem => "minecraft:display_name",
            ComponentKind::DisplayNameBlock => "minecraft:display_name",
        }
    }
}

/// Every restriction list is keyed by the canonical id of the prototypes
/// it holds.
pub open spec fn reg_wf(reg: Seq<(String, Vec<(VersionRestriction, ComponentKind)>)>) -> bool {
    forall|i: int, j: int|
        0 <= i < reg.len() && 0 <= j < (#[trigger] reg[i]).1@.len() ==> (
        #[trigger] reg[i].1@[j]).1.spec_id() == reg[i].0@
}

/// The first registered restriction that admits the version decides.
pub open spec fn first_applicable(
    list: Seq<(VersionRestriction, ComponentKind)>,
    v: VersionModel,
) -> Option<ComponentKind>
    decreases list.len(),
{
    if list.len() == 0 {
        None
    } else if list[0].0@.contains(v) {
        Some(list[0].1)
    } else {
        first_applicable(list.drop_first(), v)
    }
}

proof fn lemma_first_applicable_push(
    list: Seq<(VersionRestriction, ComponentKind)>,
    p: (VersionRestriction, ComponentKind),
    v: VersionModel,
)
    ensures
        first_applicable(list.push(p), v) == (match first_applicable(list, v) {
            Some(k) => Some(k),
            None => if p.0@.contains(v) {
                Some(p.1)
            } else {
                None
            },
        }),
    decreases list.len(),
{
    if list.len() == 0 {
        assert(list.push(p)[0] == p);
        assert(list.push(p).drop_first() =~= Seq::<(VersionRestriction, ComponentKind)>::empty());
        assert(first_applicable(list.push(p).drop_first(), v) is None);
        if p.0@.contains(v) {
            assert(first_applicable(list.push(p), v) == Some(p.1));
        } else {
            assert(first_applicable(list.push(p), v) is None);
        }
    } else {
        assert(list.push(p)[0] == list[0]);
        assert(list.push(p).drop_first() =~= list.drop_first().push(p));
        lemma_first_applicable_push(list.drop_first(), p, v);
        assert(first_applicable(list.push(p).drop_first(), v) == first_applicable(
            list.drop_first().push(p),
            v,
        ));
        if list[0].0@.contains(v) {
            assert(first_applicable(list.push(p), v) == Some(list[0].1));
            assert(first_applicable(list, v) == Some(list[0].1));
        } else {
            assert(first_applicable(list.push(p), v) == first_applicable(
                list.drop_first().push(p),
                v,
            ));
            assert(first_applicable(list, v) == first_applicable(list.drop_first(), v));
        }
    }
}

/// Per component id, an ordered list of (version restriction, prototype)
/// pairs; list order is registration order and decides ties.
pub struct FormattedComponentRegister {
    entries: Vec<(String, Vec<(VersionRestriction, ComponentKind)>)>,
}

impl View for FormattedComponentRegister {
    type V = Seq<(String, Vec<(VersionRestriction, ComponentKind)>)>;

    closed spec fn view(&self) -> Seq<(String, Vec<(VersionRestriction, ComponentKind)>)> {
        self.entries@
    }
}

/// The typed prototype applicable for `id` at version `v`: the first
/// registered restriction for the id that admits the version; `None` when
/// the id is unregistered or no restriction admits the version.
pub open spec fn reg_resolve(
    reg: Seq<(String, Vec<(VersionRestriction, ComponentKind)>)>,
    v: VersionModel,
    id: Seq<char>,
) -> Option<ComponentKind> {
    match key_find(reg, id) {
        Some(list) => first_applicable(list@, v),
        None => None,
    }
}

impl FormattedComponentRegister {
    pub fn new() -> (r: FormattedComponentRegister)
        ensures
            r@ =~= Seq::<(String, Vec<(VersionRestriction, ComponentKind)>)>::empty(),
            reg_wf(r@),
    {
        FormattedComponentRegister { entries: Vec::new() }
    }

    /// Registers a prototype under a version restriction, keyed by the
    /// prototype's canonical id; later registrations for the same id stand
    /// after earlier ones.
    pub fn bind_component(&mut self, ver: VersionRestriction, kind: ComponentKind)
        ensures
            forall|v: VersionModel, other: Seq<char>|
                other != kind.spec_id() ==> #[trigger] reg_resolve(final(self)@, v, other)
                    == reg_resolve(old(self)@, v, other),
            forall|v: VersionModel|
                #[trigger] reg_resolve(final(self)@, v, kind.spec_id()) == (
                match reg_resolve(old(self)@, v, kind.spec_id()) {
                    Some(k) => Some(k),
                    None => if ver@.contains(v) {
                        Some(kind)
                    } else {
                        None
                    },
                }),
            reg_wf(old(self)@) ==> reg_wf(final(self)@),
    {
        let id = kind.static_id();
        proof {
            crate::keyed::lemma_key_idx_spec(self.entries@, id@, 0);
        }
        let ghost olds = self.entries@;
        match keyed_idx(&self.entries, id) {
            Some(i) => {
                let ghost oldlist = self.entries@[i as int].1@;
                self.entries[i].1.push((ver, kind));
                proof {
                    assert(self.entries@[i as int].1@ =~= oldlist.push((ver, kind)));
                    assert(id@ == kind.spec_id());
                    assert forall|v: VersionModel, other: Seq<char>|
                        #[trigger] reg_resolve(self@, v, other) == (if other == id@ {
                            match reg_resolve(olds, v, id@) {
                                Some(k) => Some(k),
                                None => if ver@.contains(v) {
                                    Some(kind)
                                } else {
                                    None
                                },
                            }
                        } else {
                            reg_resolve(olds, v, other)
                        }) by {
                        crate::keyed::lemma_key_idx_same_keys(olds, self.entries@, other, 0);
                        crate::keyed::lemma_key_idx_spec(olds, other, 0);
                        if other == id@ {
                            lemma_first_applicable_push(oldlist, (ver, kind), v);
                        }
                    }
                    if reg_wf(olds) {
                        assert forall|p: int, q: int|
                            0 <= p < self@.len() && 0 <= q < (#[trigger] self@[p]).1@.len() implies (
                        #[trigger] self@[p].1@[q]).1.spec_id() == self@[p].0@ by {
                            if p == i {
                                if q < oldlist.len() {
                                    assert(self@[p].1@[q] == oldlist[q]);
                                    assert(olds[p].1@[q] == oldlist[q]);
                                }
                            } else {
                                assert(self@[p] == olds[p]);
                            }
                        }
                    }
                }
            },
            None => {
                let mut list: Vec<(VersionRestriction, ComponentKind)> = Vec::new();
                list.push((ver, kind));
                let pair = (id.to_owned(), list);
                proof {
                    assert(pair.1@ =~= Seq::<(VersionRestriction, ComponentKind)>::empty().push(
                        (ver, kind),
                    ));
                }
                self.entries.push(pair);
                proof {
                    assert(id@ == kind.spec_id());
                    assert forall|v: VersionModel, other: Seq<char>|
                        #[trigger] reg_resolve(self@, v, other) == (if other == id@ {
                            if ver@.contains(v) {
                                Some(kind)
                            } else {
                                None
                            }
                        } else {
                            reg_resolve(olds, v, other)
                        }) by {
                        crate::keyed::lemma_key_idx_push(olds, pair, other, 0);
                        crate::keyed::lemma_key_idx_spec(olds, other, 0);
                        crate::keyed::lemma_key_idx_spec(self.entries@, other, 0);
                        if other == id@ {
                            assert(first_applicable(pair.1@.drop_first(), v) is None);
                        }
                    }
                    if reg_wf(olds) {
                        assert forall|p: int, q: int|
                            0 <= p < self@.len() && 0 <= q < (#[trigger] self@[p]).1@.len() implies (
                        #[trigger] self@[p].1@[q]).1.spec_id() == self@[p].0@ by {
                            if p < olds.len() {
                                assert(self@[p] == olds[p]);
                            } else {
                                assert(self@[p] == pair);
                            }
                        }
                    }
                }
            },
        }
    }

    /// The typed prototype applicable for `id` at `format`, if any.
    #[verifier::loop_isolation(false)]
    pub fn get_component(&self, format: &FormatVersion, id: &str) -> (r: Option<ComponentKind>)
        ensures
            r == reg_resolve(self@, format@, id@),
            reg_wf(self@) && r is Some ==> r->Some_0.spec_id() == id@,
    {
        proof {
            crate::keyed::lemma_key_idx_spec(self.entries@, id@, 0);
        }
        let list = match keyed_idx(&self.entries, id) {
            Some(i) => &self.entries[i].1,
            None => {
                return None;
            },
        };
        let mut j: usize = 0;
        let ghost l = list@;
        proof {
            assert(l.skip(0) =~= l);
        }
        while j < list.len()
            invariant
                l == list@,
                0 <= j <= l.len(),
                first_applicable(l, format@) == first_applicable(l.skip(j as int), format@),
            decreases l.len() - j,
        {
            proof {
                assert(l.skip(j as int)[0] == l[j as int]);
            }
            if list[j].0.contains(format) {
                proof {
                    if reg_wf(self@) {
                        let i = crate::keyed::key_idx(self.entries@, id@)->Some_0;
                        assert(self@[i].1@[j as int].1.spec_id() == self@[i].0@);
                    }
                }
                return Some(list[j].1);
            }
            proof {
                assert(l.skip(j as int).drop_first() =~= l.skip(j as int + 1));
            }
            j += 1;
        }
        proof {
            assert(l.skip(j as int).len() == 0);
        }
        None
    }
}

pub open spec fn all_strings(items: Seq<Json>) -> bool {
    forall|i: int| 0 <= i < items.len() ==> (#[trigger] items[i]) is Str
}

pub open spec fn strings_of(items: Seq<Json>) -> Seq<Seq<char>> {
    Seq::new(items.len(), |i: int| items[i]->Str_0)
}

/// What a typed prototype makes of a payload: the typed component, or the
/// exact decode error.
pub open spec fn comp_from_json(kind: ComponentKind, j: Json, id: Seq<char>) -> Result<
    CompModel,
    ErrModel,
> {
    match kind {
        ComponentKind::CustomComponents => match j {
            Json::Arr(items) => if all_strings(items) {
                Ok(CompModel::CustomComponents(strings_of(items)))
            } else {
                Err(
                    ErrModel::MissingMember(
                        "minecraft:custom_components member"@,
                        "a string"@,
                    ),
                )
            },
            _ => Err(ErrModel::MemberNotType("minecraft:custom_components"@, "an array"@)),
        },
        ComponentKind::DisplayNameItem => match j {
            Json::Str(s) => Ok(CompModel::DisplayNameItem(s)),
            _ => Err(ErrModel::MissingMember("minecraft:display_name member"@, "a string"@)),
        },
        ComponentKind::DisplayNameBlock => match j {
            Json::Str(s) => Ok(CompModel::DisplayNameBlock(s)),
            _ => Err(ErrModel::MissingMember("minecraft:display_name member"@, "a string"@)),
        },
    }
}

/// Constructs a typed component of the given kind from a raw payload.
#[verifier::loop_isolation(false)]
pub fn build_component(kind: ComponentKind, payload: &JsonValue, _id: &str) -> (r: Result<
    Component,
    ComponentError,
>)
    ensures
        match r {
            Ok(c) => comp_from_json(kind, payload@, _id@) == Ok::<CompModel, ErrModel>(c@),
            Err(e) => comp_from_json(kind, payload@, _id@) == Err::<CompModel, ErrModel>(e@),
        },
{
    match kind {
        ComponentKind::CustomComponents => {
            let items = match payload.as_array() {
                Some(items) => items,
                None => {
                    return Err(
                        ComponentError::MemberNotType("minecraft:custom_components", "an array"),
                    );
                },
            };
            let ghost m = crate::value::model_seq(items@);
            let mut ids: Vec<String> = Vec::new();
            let mut i: usize = 0;
            while i < items.len()
                invariant
                    m == crate::value::model_seq(items@),
                    0 <= i <= items@.len(),
                    ids@.len() == i,
                    forall|j: int| 0 <= j < i ==> m[j] is Str && ids@[j]@ == m[j]->Str_0,
                decreases items@.len() - i,
            {
                match items[i].as_str() {
                    Some(s) => {
                        ids.push(s.as_str().to_owned());
                    },
                    None => {
                        proof {
                            assert(!(m[i as int] is Str));
                        }
                        return Err(
                            ComponentError::MissingMember(
                                "minecraft:custom_components member",
                                "a string",
                            ),
                        );
                    },
                }
                i += 1;
            }
            proof {
                assert(str_views(ids@) =~= strings_of(m));
            }
            Ok(Component::CustomComponents(MinecraftCustomComponents { component_ids: ids }))
        },
        ComponentKind::DisplayNameItem => match payload.as_str() {
            Some(s) => Ok(
                Component::DisplayNameItem(
                    MinecraftDisplayNameItem { value: s.as_str().to_owned() },
                ),
            ),
            None => Err(ComponentError::MissingMember("minecraft:display_name member", "a string")),
        },
        ComponentKind::DisplayNameBlock => match payload.as_str() {
            Some(s) => Ok(Component::DisplayNameBlock(MinecraftDisplayNameBlock(s.as_str().to_owned()))),
            None => Err(ComponentError::MissingMember("minecraft:display_name member", "a string")),
        },
    }
}

/// What decoding one component yields: the applicable typed decoder's
/// result, or the opaque component carrying the payload unchanged.
pub open spec fn spec_decode_component(
    reg: Seq<(String, Vec<(VersionRestriction, ComponentKind)>)>,
    v: VersionModel,
    id: Seq<char>,
    payload: Json,
) -> Result<CompModel, ErrModel> {
    match reg_resolve(reg, v, id) {
        Some(kind) => comp_from_json(kind, payload, id),
        None => Ok(CompModel::Unknown { id: id, data: payload }),
    }
}

/// Decodes one component: consults the registry for a typed prototype
/// applicable at this version, and falls back to the opaque component.
/// Under a well-keyed registry the decoded component reports the id it
/// was stored under.
pub fn decode_component(
    reg: &FormattedComponentRegister,
    format: &FormatVersion,
    id: &str,
    payload: &JsonValue,
) -> (r: Result<Component, ComponentError>)
    ensures
        match r {
            Ok(c) => spec_decode_component(reg@, format@, id@, payload@) == Ok::<
                CompModel,
                ErrModel,
            >(c@),
            Err(e) => spec_decode_component(reg@, format@, id@, payload@) == Err::<
                CompModel,
                ErrModel,
            >(e@),
        },
        reg_wf(reg@) && r is Ok ==> r->Ok_0@.comp_id() == id@,
{
    match reg.get_component(format, id) {
        Some(kind) => build_component(kind, payload, id),
        None => Ok(
            Component::Unknown(UnknownComponent { id: id.to_owned(), data: payload.duplicate() }),
        ),
    }
}

/// Registry fallback: for an unregistered id the decoder yields, at every
/// version, the opaque component carrying the payload unchanged, and that
/// component re-serializes to the original payload.
pub proof fn law_registry_fallback(
    reg: Seq<(String, Vec<(VersionRestriction, ComponentKind)>)>,
    v: VersionModel,
    id: Seq<char>,
    payload: Json,
)
    requires
        !crate::keyed::key_has(reg, id),
    ensures
        spec_decode_component(reg, v, id, payload) == Ok::<CompModel, ErrModel>(
            CompModel::Unknown { id: id, data: payload },
        ),
        (CompModel::Unknown { id: id, data: payload }).to_json() == payload,
{
}

} // verus!

