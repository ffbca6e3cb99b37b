//! State domains carried in a block description: a boolean list, a
//! contiguous or explicit integer range, or a string list.
use vstd::prelude::*;

verus! {

use crate::value::{model_seq, Json, JsonValue};

/// An explicit list of integer state values.
#[derive(Debug)]
pub struct IntRange(pub Vec<i32>);

/// The value domain of one block state.
#[derive(Debug)]
pub enum StateData {
    Boolean(Vec<bool>),
    IntRange(IntRange),
    Strings(Vec<String>),
}

/// The mathematical model of a state domain.
#[verifier::ext_equal]
pub enum StateModel {
    Boolean(Seq<bool>),
    IntRange(Seq<int>),
    Strings(Seq<Seq<char>>),
}

impl View for StateData {
    type V = StateModel;

    open spec fn view(&self) -> StateModel {
        match self {
            StateData::Boolean(bs) => StateModel::Boolean(Seq::new(bs@.len(), |i: int| bs@[i])),
            StateData::IntRange(r) => StateModel::IntRange(
                Seq::new(r.0@.len(), |i: int| r.0@[i] as int),
            ),
            StateData::Strings(ss) => StateModel::Strings(crate::component::str_views(ss@)),
        }
    }
}

pub open spec fn all_bools(items: Seq<Json>) -> bool {
    forall|i: int| 0 <= i < items.len() ==> (#[trigger] items[i]) is Bool
}

pub open spec fn bools_of(items: Seq<Json>) -> Seq<bool> {
    Seq::new(items.len(), |i: int| items[i]->Bool_0)
}

pub open spec fn all_i32s(items: Seq<Json>) -> bool {
    forall|i: int|
        0 <= i < items.len() ==> (#[trigger] items[i]) is Int && i32::MIN <= items[i]->Int_0
            <= i32::MAX
}

pub open spec fn ints_of(items: Seq<Json>) -> Seq<int> {
    Seq::new(items.len(), |i: int| items[i]->Int_0)
}

/// The contiguous range `lo..=hi`, empty when `hi < lo`.
pub open spec fn range_seq(lo: int, hi: int) -> Seq<int> {
    Seq::new(
        if hi >= lo {
            (hi - lo + 1) as nat
        } else {
            0
        },
        |i: int| lo + i,
    )
}

/// What a state domain value denotes, if anything: an array of all
/// booleans, else of all integers, else of all strings; or the
/// `{"values": {"min": .., "max": ..}}` form of a contiguous range.
pub open spec fn spec_state_from_json(j: Json) -> Option<StateModel> {
    match j {
        Json::Arr(items) => if all_bools(items) {
            Some(StateModel::Boolean(bools_of(items)))
        } else if all_i32s(items) {
            Some(StateModel::IntRange(ints_of(items)))
        } else if crate::component::all_strings(items) {
            Some(StateModel::Strings(crate::component::strings_of(items)))
        } else {
            None
        },
        Json::Obj(_) => match j.get("values"@) {
            Some(inner) => match (inner.get("min"@), inner.get("max"@)) {
                (Some(Json::Int(lo)), Some(Json::Int(hi))) => if i32::MIN <= lo <= i32::MAX
                    && i32::MIN <= hi <= i32::MAX {
                    Some(StateModel::IntRange(range_seq(lo, hi)))
                } else {
                    None
                },
                _ => None,
            },
            None => None,
        },
        _ => None,
    }
}

impl StateModel {
    /// The value-tree serialization: the explicit list of values.
    pub open spec fn to_json(self) -> Json {
        match self {
            StateModel::Boolean(bs) => Json::Arr(Seq::new(bs.len(), |i: int| Json::Bool(bs[i]))),
            StateModel::IntRange(ns) => Json::Arr(Seq::new(ns.len(), |i: int| Json::Int(ns[i]))),
            StateModel::Strings(ss) => Json::Arr(Seq::new(ss.len(), |i: int| Json::Str(ss[i]))),
        }
    }
}

impl StateData {
    pub fn to_json(&self) -> (r: JsonValue)
        ensures
            r@ == self@.to_json(),
    {
        match self {
            StateData::Boolean(bs) => {
                let mut items: Vec<JsonValue> = Vec::new();
                let mut i: usize = 0;
                while i < bs.len()
                    invariant
                        0 <= i <= bs@.len(),
                        items@.len() == i,
                        forall|j: int| 0 <= j < i ==> items@[j] == JsonValue::Bool(bs@[j]),
                    decreases bs@.len() - i,
                {
                    items.push(JsonValue::Bool(bs[i]));
                    i += 1;
                }
                proof {
                    let bv = Seq::new(bs@.len(), |i: int| bs@[i]);
                    assert(model_seq(items@) =~= Seq::new(bv.len(), |i: int| Json::Bool(bv[i])));
                }
                JsonValue::Arr(items)
            },
            StateData::IntRange(r) => {
                let mut items: Vec<JsonValue> = Vec::new();
                let mut i: usize = 0;
                while i < r.0.len()
                    invariant
                        0 <= i <= r.0@.len(),
                        items@.len() == i,
                        forall|j: int| 0 <= j < i ==> items@[j] == JsonValue::Int(r.0@[j] as i64),
                    decreases r.0@.len() - i,
                {
                    items.push(JsonValue::Int(r.0[i] as i64));
                    i += 1;
                }
                proof {
                    let nv = Seq::new(r.0@.len(), |i: int| r.0@[i] as int);
                    assert(model_seq(items@) =~= Seq::new(nv.len(), |i: int| Json::Int(nv[i])));
                }
                JsonValue::Arr(items)
            },
            StateData::Strings(ss) => {
                let mut items: Vec<JsonValue> = Vec::new();
                let mut i: usize = 0;
                while i < ss.len()
                    invariant
                        0 <= i <= ss@.len(),
                        items@.len() == i,
                        forall|j: int| 0 <= j < i ==> items@[j] == JsonValue::Str(ss@[j]),
                    decreases ss@.len() - i,
                {
                    items.push(JsonValue::Str(ss[i].clone()));
                    i += 1;
                }
                proof {
                    let sv = crate::component::str_views(ss@);
                    assert(model_seq(items@) =~= Seq::new(sv.len(), |i: int| Json::Str(sv[i])));
                }
                JsonValue::Arr(items)
            },
        }
    }

    /// Reads a state domain; `None` exactly when no form matches.
    pub fn from_json(json: &JsonValue) -> (r: Option<StateData>)
        ensures
            match r {
                Some(s) => spec_state_from_json(json@) == Some(s@),
                None => spec_state_from_json(json@) is None,
            },
    {
        if let Some(items) = json.as_array() {
            let ghost m = model_seq(items@);
            if let Some(bs) = try_bools(items) {
                return Some(StateData::Boolean(bs));
            }
            if let Some(ns) = try_i32s(items) {
                return Some(StateData::IntRange(IntRange(ns)));
            }
            if let Some(ss) = strings_of_exec(items) {
                return Some(StateData::Strings(ss));
            }
            return None;
        }
        if json.as_object().is_none() {
            return None;
        }
        let inner = match json.get("values") {
            Some(v) => v,
            None => {
                return None;
            },
        };
        let lo = match inner.get("min") {
            Some(v) => match v.as_i64() {
                Some(n) => n,
                None => {
                    return None;
                },
            },
            None => {
                return None;
            },
        };
        let hi = match inner.get("max") {
            Some(v) => match v.as_i64() {
                Some(n) => n,
                None => {
                    return None;
                },
            },
            None => {
                return None;
            },
        };
        if lo < i32::MIN as i64 || lo > i32::MAX as i64 || hi < i32::MIN as i64 || hi > i32::MAX
            as i64 {
            return None;
        }
        let mut values: Vec<i32> = Vec::new();
        let mut cur: i64 = lo;
        while cur <= hi
            invariant
                lo <= cur,
                i32::MIN <= lo <= i32::MAX,
                i32::MIN <= hi <= i32::MAX,
                cur <= hi + 1 || cur == lo,
                values@.len() == cur - lo,
                forall|j: int| 0 <= j < values@.len() ==> values@[j] == lo + j,
            decreases hi + 1 - cur,
        {
            values.push(cur as i32);
            cur += 1;
        }
        proof {
            assert(Seq::new(values@.len(), |i: int| values@[i] as int) =~= range_seq(
                lo as int,
                hi as int,
            ));
        }
        Some(StateData::IntRange(IntRange(values)))
    }
}

#[verifier::loop_isolation(false)]
fn try_bools(items: &Vec<JsonValue>) -> (r: Option<Vec<bool>>)
    ensures
        match r {
            Some(bs) => all_bools(model_seq(items@)) && Seq::new(bs@.len(), |i: int| bs@[i])
                == bools_of(model_seq(items@)),
            None => !all_bools(model_seq(items@)),
        },
{
    let ghost m = model_seq(items@);
    let mut out: Vec<bool> = Vec::new();
    let mut i: usize = 0;
    while i < items.len()
        invariant
            m == model_seq(items@),
            0 <= i <= items@.len(),
            out@.len() == i,
            forall|j: int| 0 <= j < i ==> #[trigger] m[j] == Json::Bool(out@[j]),
        decreases items@.len() - i,
    {
        match items[i].as_bool() {
            Some(b) => {
                proof {
                    assert(m[i as int] == Json::Bool(b));
                }
                out.push(b);
            },
            None => {
                proof {
                    assert(!(m[i as int] is Bool));
                }
                return None;
            },
        }
        i += 1;
    }
    proof {
        assert(Seq::new(out@.len(), |i: int| out@[i]) =~= bools_of(m));
    }
    Some(out)
}

#[verifier::loop_isolation(false)]
fn try_i32s(items: &Vec<JsonValue>) -> (r: Option<Vec<i32>>)
    ensures
        match r {
            Some(ns) => all_i32s(model_seq(items@)) && Seq::new(ns@.len(), |i: int| ns@[i] as int)
                == ints_of(model_seq(items@)),
            None => !all_i32s(model_seq(items@)),
        },
{
    let ghost m = model_seq(items@);
    let mut out: Vec<i32> = Vec::new();
    let mut i: usize = 0;
    while i < items.len()
        invariant
            m == model_seq(items@),
            0 <= i <= items@.len(),
            out@.len() == i,
            forall|j: int| 0 <= j < i ==> #[trigger] m[j] == Json::Int(out@[j] as int),
        decreases items@.len() - i,
    {
        match items[i].as_i64() {
            Some(n) => {
                proof {
                    assert(m[i as int] == Json::Int(n as int));
                }
                if n < i32::MIN as i64 || n > i32::MAX as i64 {
                    return None;
                }
                out.push(n as i32);
            },
            None => {
                proof {
                    assert(!(m[i as int] is Int));
                }
                return None;
            },
        }
        i += 1;
    }
    proof {
        assert(Seq::new(out@.len(), |i: int| out@[i] as int) =~= ints_of(m));
    }
    Some(out)
}

/// Reads an array of strings whole; `None` when any element is not one.
#[verifier::loop_isolation(false)]
pub fn strings_of_exec(items: &Vec<JsonValue>) -> (r: Option<Vec<String>>)
    ensures
        match r {
            Some(ss) => crate::component::all_strings(model_seq(items@)) && crate::component::str_views(ss@)
                == crate::component::strings_of(model_seq(items@)),
            None => !crate::component::all_strings(model_seq(items@)),
        },
{
    let ghost m = model_seq(items@);
    let mut out: Vec<String> = Vec::new();
    let mut i: usize = 0;
    while i < items.len()
        invariant
            m == model_seq(items@),
            0 <= i <= items@.len(),
            out@.len() == i,
            forall|j: int| 0 <= j < i ==> m[j] is Str && out@[j]@ == m[j]->Str_0,
        decreases items@.len() - i,
    {
        match items[i].as_str() {
            Some(s) => {
                proof {
                    assert(m[i as int] == Json::Str(s@));
                }
                out.push(s.clone());
            },
            None => {
                proof {
                    assert(!(m[i as int] is Str));
                }
                return None;
            },
        }
        i += 1;
    }
    proof {
        assert(crate::component::str_views(out@) =~= crate::component::strings_of(m));
    }
    Some(out)
}


/// Whether a state domain survives re-encoding: integer and string lists
/// must be non-empty (an empty list reads back as an empty boolean list),
/// and integers must fit the stored width.
pub open spec fn state_encodable(s: StateModel) -> bool {
    match s {
        StateModel::Boolean(_) => true,
        StateModel::IntRange(ns) => ns.len() > 0 && (forall|i: int|
            0 <= i < ns.len() ==> i32::MIN <= #[trigger] ns[i] <= i32::MAX),
        StateModel::Strings(ss) => ss.len() > 0,
    }
}

/// Round trip of a state domain: its serialization decodes back to the
/// same value.
pub proof fn law_state_round_trip(s: StateModel)
    requires
        state_encodable(s),
    ensures
        spec_state_from_json(s.to_json()) == Some(s),
{
    match s {
        StateModel::Boolean(bs) => {
            let items = Seq::new(bs.len(), |i: int| Json::Bool(bs[i]));
            assert(all_bools(items));
            assert(bools_of(items) =~= bs);
        },
        StateModel::IntRange(ns) => {
            let items = Seq::new(ns.len(), |i: int| Json::Int(ns[i]));
            assert(!(items[0] is Bool));
            assert(!all_bools(items));
            assert(all_i32s(items));
            assert(ints_of(items) =~= ns);
        },
        StateModel::Strings(ss) => {
            let items = Seq::new(ss.len(), |i: int| Json::Str(ss[i]));
            assert(!(items[0] is Bool));
            assert(!all_bools(items));
            assert(!(items[0] is Int));
            assert(!all_i32s(items));
            assert(crate::component::all_strings(items));
            assert(crate::component::strings_of(items) =~= ss);
        },
    }
}

} // verus!
