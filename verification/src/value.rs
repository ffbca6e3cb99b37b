//! The generic value model: an arbitrary-shape tree of objects, arrays and
//! scalars, used as the interchange format for component payloads and for
//! whole entity documents.
//!
//! Objects are ordered association lists; a lookup returns the first entry
//! with the requested key.  Numbers that fit in `i64` are held as integers;
//! any other numeric literal is carried through as its decimal text, so that
//! re-encoding reproduces it unchanged.
use vstd::prelude::*;

verus! {

broadcast use vstd::seq::axiom_seq_index_decreases;

use vstd::string::StringExecFns;

/// An arbitrary-shape tree value: the executable representation.
#[derive(Debug)]
pub enum JsonValue {
    Null,
    Bool(bool),
    Int(i64),
    /// A numeric literal that does not fit `i64`, kept as its decimal text.
    Num(String),
    Str(String),
    Arr(Vec<JsonValue>),
    Obj(Vec<(String, JsonValue)>),
}

/// The mathematical model of a tree value.
#[verifier::ext_equal]
pub enum Json {
    Null,
    Bool(bool),
    Int(int),
    Num(Seq<char>),
    Str(Seq<char>),
    Arr(Seq<Json>),
    Obj(Seq<(Seq<char>, Json)>),
}

pub open spec fn model_seq(items: Seq<JsonValue>) -> Seq<Json>
    decreases items,
{
    Seq::new(
        items.len(),
        |i: int|
            if 0 <= i < items.len() {
                items[i].model()
            } else {
                Json::Null
            },
    )
}

pub open spec fn model_entries(entries: Seq<(String, JsonValue)>) -> Seq<(Seq<char>, Json)>
    decreases entries,
{
    Seq::new(
        entries.len(),
        |i: int|
            if 0 <= i < entries.len() {
                (entries[i].0@, entries[i].1.model())
            } else {
                (Seq::empty(), Json::Null)
            },
    )
}

/// First entry with the given key, if any.
pub open spec fn obj_find(entries: Seq<(Seq<char>, Json)>, key: Seq<char>) -> Option<Json>
    decreases entries.len(),
{
    if entries.len() == 0 {
        None
    } else if entries[0].0 == key {
        Some(entries[0].1)
    } else {
        obj_find(entries.drop_first(), key)
    }
}

impl Json {
    /// Member lookup: `Some` only on objects that hold the key.
    pub open spec fn get(self, key: Seq<char>) -> Option<Json> {
        match self {
            Json::Obj(entries) => obj_find(entries, key),
            _ => None,
        }
    }
}

impl JsonValue {
    pub open spec fn model(self) -> Json
        decreases self,
    {
        match self {
            JsonValue::Null => Json::Null,
            JsonValue::Bool(b) => Json::Bool(b),
            JsonValue::Int(i) => Json::Int(i as int),
            JsonValue::Num(s) => Json::Num(s@),
            JsonValue::Str(s) => Json::Str(s@),
            JsonValue::Arr(items) => Json::Arr(model_seq(items@)),
            JsonValue::Obj(entries) => Json::Obj(model_entries(entries@)),
        }
    }
}

impl View for JsonValue {
    type V = Json;

    open spec fn view(&self) -> Json {
        self.model()
    }
}

/// Character-wise string equality, usable where `String` spec equality
/// would say nothing about the characters.
pub fn str_eq(a: &str, b: &str) -> (r: bool)
    ensures
        r == (a@ == b@),
{
    let an = a.unicode_len();
    let bn = b.unicode_len();
    if an != bn {
        assert(a@ =~= b@ ==> a@.len() == b@.len());
        return false;
    }
    let mut i: usize = 0;
    while i < an
        invariant
            an == a@.len(),
            an == b@.len(),
            0 <= i <= an,
            forall|j: int| 0 <= j < i ==> a@[j] == b@[j],
        decreases an - i,
    {
        if a.get_char(i) != b.get_char(i) {
            return false;
        }
        i += 1;
    }
    assert(a@ =~= b@);
    true
}

/// Whether `s` begins with `prefix`, character-wise.
pub fn str_has_prefix(s: &str, prefix: &str) -> (r: bool)
    ensures
        r == (s@.len() >= prefix@.len() && s@.subrange(0, prefix@.len() as int) == prefix@),
{
    let sn = s.unicode_len();
    let pn = prefix.unicode_len();
    if sn < pn {
        return false;
    }
    let mut i: usize = 0;
    while i < pn
        invariant
            sn == s@.len(),
            pn == prefix@.len(),
            pn <= sn,
            0 <= i <= pn,
            forall|j: int| 0 <= j < i ==> s@[j] == prefix@[j],
        decreases pn - i,
    {
        if s.get_char(i) != prefix.get_char(i) {
            assert(s@.subrange(0, pn as int) =~= prefix@ ==> s@[i as int] == prefix@[i as int]);
            return false;
        }
        i += 1;
    }
    assert(s@.subrange(0, pn as int) =~= prefix@);
    true
}

impl JsonValue {
    /// First member with the given key, for object values.
    #[verifier::loop_isolation(false)]
    pub fn get<'a>(&'a self, key: &str) -> (r: Option<&'a JsonValue>)
        ensures
            match r {
                Some(v) => self@.get(key@) == Some(v@),
                None => self@.get(key@) is None,
            },
    {
        match self {
            JsonValue::Obj(entries) => {
                let mut i: usize = 0;
                let ghost m = model_entries(entries@);
                proof {
                    assert(m.skip(0) =~= m);
                }
                while i < entries.len()
                    invariant
                        m == model_entries(entries@),
                        0 <= i <= entries@.len(),
                        m.len() == entries@.len(),
                        obj_find(m, key@) == obj_find(m.skip(i as int), key@),
                        forall|j: int| 0 <= j < i ==> m[j].0 != key@,
                    decreases entries@.len() - i,
                {
                    proof {
                        assert(m.skip(i as int)[0] == m[i as int]);
                    }
                    if str_eq(entries[i].0.as_str(), key) {
                        proof {
                            assert(obj_find(m.skip(i as int), key@) == Some(m[i as int].1));
                        }
                        return Some(&entries[i].1);
                    }
                    proof {
                        assert(m.skip(i as int).drop_first() =~= m.skip(i as int + 1));
                    }
                    i += 1;
                }
                proof {
                    assert(m.skip(i as int).len() == 0);
                }
                None
            },
            _ => None,
        }
    }

    pub fn as_str(&self) -> (r: Option<&String>)
        ensures
            match r {
                Some(s) => self@ == Json::Str(s@),
                None => !(self@ is Str),
            },
    {
        match self {
            JsonValue::Str(s) => Some(s),
            _ => None,
        }
    }

    pub fn as_i64(&self) -> (r: Option<i64>)
        ensures
            match r {
                Some(n) => self@ == Json::Int(n as int),
                None => !(self@ is Int),
            },
    {
        match self {
            JsonValue::Int(n) => Some(*n),
            _ => None,
        }
    }

    pub fn as_bool(&self) -> (r: Option<bool>)
        ensures
            match r {
                Some(b) => self@ == Json::Bool(b),
                None => !(self@ is Bool),
            },
    {
        match self {
            JsonValue::Bool(b) => Some(*b),
            _ => None,
        }
    }

    pub fn as_array(&self) -> (r: Option<&Vec<JsonValue>>)
        ensures
            match r {
                Some(items) => self@ == Json::Arr(model_seq(items@)),
                None => !(self@ is Arr),
            },
    {
        match self {
            JsonValue::Arr(items) => Some(items),
            _ => None,
        }
    }

    pub fn as_object(&self) -> (r: Option<&Vec<(String, JsonValue)>>)
        ensures
            match r {
                Some(entries) => self@ == Json::Obj(model_entries(entries@)),
                None => !(self@ is Obj),
            },
    {
        match self {
            JsonValue::Obj(entries) => Some(entries),
            _ => None,
        }
    }

    /// Structural equality of two tree values.
    #[verifier::loop_isolation(false)]
    pub fn deep_eq(&self, other: &JsonValue) -> (r: bool)
        ensures
            r == (self@ == other@),
        decreases self,
    {
        match (self, other) {
            (JsonValue::Null, JsonValue::Null) => true,
            (JsonValue::Bool(a), JsonValue::Bool(b)) => a == b,
            (JsonValue::Int(a), JsonValue::Int(b)) => a == b,
            (JsonValue::Num(a), JsonValue::Num(b)) => str_eq(a.as_str(), b.as_str()),
            (JsonValue::Str(a), JsonValue::Str(b)) => str_eq(a.as_str(), b.as_str()),
            (JsonValue::Arr(xs), JsonValue::Arr(ys)) => {
                if xs.len() != ys.len() {
                    proof {
                        assert(model_seq(xs@).len() != model_seq(ys@).len());
                    }
                    return false;
                }
                let mut i: usize = 0;
                while i < xs.len()
                    invariant
                        xs@.len() == ys@.len(),
                        0 <= i <= xs@.len(),
                        forall|j: int| 0 <= j < i ==> model_seq(xs@)[j] == model_seq(ys@)[j],
                    decreases xs@.len() - i,
                {
                    proof {
                        assert(decreases_to!(*self => self->Arr_0));
                        assert(self->Arr_0 == *xs);
                        assert(decreases_to!(*self => xs@[i as int]));
                    }
                    if !xs[i].deep_eq(&ys[i]) {
                        proof {
                            assert(model_seq(xs@)[i as int] != model_seq(ys@)[i as int]);
                        }
                        return false;
                    }
                    i += 1;
                }
                proof {
                    assert(model_seq(xs@) =~= model_seq(ys@));
                }
                true
            },
            (JsonValue::Obj(xs), JsonValue::Obj(ys)) => {
                if xs.len() != ys.len() {
                    proof {
                        assert(model_entries(xs@).len() != model_entries(ys@).len());
                    }
                    return false;
                }
                let mut i: usize = 0;
                while i < xs.len()
                    invariant
                        xs@.len() == ys@.len(),
                        0 <= i <= xs@.len(),
                        forall|j: int|
                            0 <= j < i ==> model_entries(xs@)[j] == model_entries(ys@)[j],
                    decreases xs@.len() - i,
                {
                    if !str_eq(xs[i].0.as_str(), ys[i].0.as_str()) {
                        proof {
                            assert(model_entries(xs@)[i as int].0 != model_entries(
                                ys@,
                            )[i as int].0);
                        }
                        return false;
                    }
                    proof {
                        assert(decreases_to!(*self => self->Obj_0));
                        assert(self->Obj_0 == *xs);
                        assert(decreases_to!(*self => xs@[i as int].1));
                    }
                    if !xs[i].1.deep_eq(&ys[i].1) {
                        proof {
                            assert(model_entries(xs@)[i as int].1 != model_entries(
                                ys@,
                            )[i as int].1);
                        }
                        return false;
                    }
                    i += 1;
                }
                proof {
                    assert(model_entries(xs@) =~= model_entries(ys@));
                }
                true
            },
            _ => {
                proof {
                    assert(self@ != other@);
                }
                false
            },
        }
    }

    /// An independent copy with the same model.
    #[verifier::loop_isolation(false)]
    pub fn duplicate(&self) -> (r: JsonValue)
        ensures
            r@ == self@,
        decreases self,
    {
        match self {
            JsonValue::Null => JsonValue::Null,
            JsonValue::Bool(b) => JsonValue::Bool(*b),
            JsonValue::Int(n) => JsonValue::Int(*n),
            JsonValue::Num(s) => JsonValue::Num(s.as_str().to_owned()),
            JsonValue::Str(s) => JsonValue::Str(s.as_str().to_owned()),
            JsonValue::Arr(xs) => {
                let mut out: Vec<JsonValue> = Vec::new();
                let mut i: usize = 0;
                while i < xs.len()
                    invariant
                        0 <= i <= xs@.len(),
                        out@.len() == i,
                        forall|j: int| 0 <= j < i ==> out@[j].model() == model_seq(xs@)[j],
                    decreases xs@.len() - i,
                {
                    proof {
                        assert(decreases_to!(*self => self->Arr_0));
                        assert(self->Arr_0 == *xs);
                        assert(decreases_to!(*self => xs@[i as int]));
                    }
                    out.push(xs[i].duplicate());
                    i += 1;
                }
                proof {
                    assert(model_seq(out@) =~= model_seq(xs@));
                }
                JsonValue::Arr(out)
            },
            JsonValue::Obj(xs) => {
                let mut out: Vec<(String, JsonValue)> = Vec::new();
                let mut i: usize = 0;
                while i < xs.len()
                    invariant
                        0 <= i <= xs@.len(),
                        out@.len() == i,
                        forall|j: int|
                            0 <= j < i ==> out@[j].0@ == model_entries(xs@)[j].0
                                && out@[j].1.model() == model_entries(xs@)[j].1,
                    decreases xs@.len() - i,
                {
                    proof {
                        assert(decreases_to!(*self => self->Obj_0));
                        assert(self->Obj_0 == *xs);
                        assert(decreases_to!(*self => xs@[i as int].1));
                    }
                    out.push((xs[i].0.as_str().to_owned(), xs[i].1.duplicate()));
                    i += 1;
                }
                proof {
                    assert(model_entries(out@) =~= model_entries(xs@));
                }
                JsonValue::Obj(out)
            },
        }
    }
}


/// The decimal digits of `n`, most significant first.
pub open spec fn spec_dec_digits(n: int) -> Seq<char>
    decreases n,
{
    if n < 0 {
        Seq::empty()
    } else if n < 10 {
        seq![spec_digit_char(n)]
    } else {
        spec_dec_digits(n / 10).push(spec_digit_char(n % 10))
    }
}

/// The character of one decimal digit.
pub open spec fn spec_digit_char(d: int) -> char {
    if d == 0 {
        '0'
    } else if d == 1 {
        '1'
    } else if d == 2 {
        '2'
    } else if d == 3 {
        '3'
    } else if d == 4 {
        '4'
    } else if d == 5 {
        '5'
    } else if d == 6 {
        '6'
    } else if d == 7 {
        '7'
    } else if d == 8 {
        '8'
    } else {
        '9'
    }
}

fn digit_str(d: u64) -> (r: &'static str)
    requires
        d < 10,
    ensures
        r@ =~= seq![spec_digit_char(d as int)],
{
    let r = if d == 0 {
        "0"
    } else if d == 1 {
        "1"
    } else if d == 2 {
        "2"
    } else if d == 3 {
        "3"
    } else if d == 4 {
        "4"
    } else if d == 5 {
        "5"
    } else if d == 6 {
        "6"
    } else if d == 7 {
        "7"
    } else if d == 8 {
        "8"
    } else {
        "9"
    };
    proof {
        reveal_strlit("0");
        reveal_strlit("1");
        reveal_strlit("2");
        reveal_strlit("3");
        reveal_strlit("4");
        reveal_strlit("5");
        reveal_strlit("6");
        reveal_strlit("7");
        reveal_strlit("8");
        reveal_strlit("9");
    }
    r
}

/// Renders a number as its decimal digits.
#[verifier::loop_isolation(false)]
pub fn u64_to_string(n: u64) -> (r: String)
    ensures
        r@ == spec_dec_digits(n as int),
{
    let mut rev: Vec<u64> = Vec::new();
    let mut rest: u64 = n;
    while rest >= 10
        invariant
            0 <= rest,
            forall|j: int| 0 <= j < rev@.len() ==> 0 <= #[trigger] rev@[j] < 10,
            spec_dec_digits(n as int) == spec_dec_digits(rest as int) + digits_rev(rev@),
        decreases rest,
    {
        let ghost before = rev@;
        rev.push(rest % 10);
        proof {
            assert(rev@.drop_last() =~= before);
            assert(rev@.last() == rest % 10);
            assert(digits_rev(rev@) == seq![spec_digit_char((rest % 10) as int)] + digits_rev(
                before,
            ));
            assert(spec_dec_digits(rest as int) == spec_dec_digits((rest / 10) as int).push(
                spec_digit_char((rest % 10) as int),
            ));
            assert(spec_dec_digits((rest / 10) as int) + digits_rev(rev@) =~= spec_dec_digits(
                rest as int,
            ) + digits_rev(before));
        }
        rest = rest / 10;
    }
    let mut out = digit_str(rest).to_owned();
    proof {
        assert(out@ =~= spec_dec_digits(rest as int));
    }
    let mut k: usize = rev.len();
    proof {
        assert(rev@.take(rev@.len() as int) =~= rev@);
    }
    while k > 0
        invariant
            0 <= k <= rev@.len(),
            forall|j: int| 0 <= j < rev@.len() ==> 0 <= #[trigger] rev@[j] < 10,
            out@ + digits_rev(rev@.take(k as int)) =~= spec_dec_digits(rest as int) + digits_rev(
                rev@,
            ),
        decreases k,
    {
        k = k - 1;
        let ghost out_before = out@;
        out.append(digit_str(rev[k]));
        proof {
            assert(rev@.take(k as int + 1).drop_last() =~= rev@.take(k as int));
            assert(rev@.take(k as int + 1).last() == rev@[k as int]);
            assert(digits_rev(rev@.take(k as int + 1)) == seq![
                spec_digit_char(rev@[k as int] as int),
            ] + digits_rev(rev@.take(k as int)));
            assert(out@ + digits_rev(rev@.take(k as int)) =~= out_before + digits_rev(
                rev@.take(k as int + 1),
            ));
        }
    }
    proof {
        assert(rev@.take(0) =~= Seq::<u64>::empty());
        assert(out@ + digits_rev(rev@.take(0)) =~= out@);
    }
    out
}

/// The digits named by a reversed digit-value list.
pub open spec fn digits_rev(rev: Seq<u64>) -> Seq<char>
    decreases rev.len(),
{
    if rev.len() == 0 {
        Seq::empty()
    } else {
        seq![spec_digit_char(rev.last() as int)] + digits_rev(rev.drop_last())
    }
}


/// A member lookup finds the first entry carrying its key.
pub proof fn lemma_obj_find_at(entries: Seq<(Seq<char>, Json)>, k: int)
    requires
        0 <= k < entries.len(),
        forall|j: int| 0 <= j < k ==> (#[trigger] entries[j]).0 != entries[k].0,
    ensures
        obj_find(entries, entries[k].0) == Some(entries[k].1),
    decreases k,
{
    if k == 0 {
    } else {
        assert(entries[0].0 != entries[k].0);
        assert(entries.drop_first()[k - 1] == entries[k]);
        assert(forall|j: int|
            0 <= j < k - 1 ==> (#[trigger] entries.drop_first()[j]).0 != entries.drop_first()[k
                - 1].0);
        lemma_obj_find_at(entries.drop_first(), k - 1);
    }
}

/// A member lookup fails when no entry carries the key.
pub proof fn lemma_obj_find_none(entries: Seq<(Seq<char>, Json)>, key: Seq<char>)
    requires
        forall|j: int| 0 <= j < entries.len() ==> (#[trigger] entries[j]).0 != key,
    ensures
        obj_find(entries, key) is None,
    decreases entries.len(),
{
    if entries.len() > 0 {
        lemma_obj_find_none(entries.drop_first(), key);
    }
}

} // verus!
