//! Ordered association lists keyed by strings: the backing shape of every
//! id-keyed mapping in the library (component stores, registries, handler
//! tables).  A "set" replaces the entry with the same key in place, or
//! appends a new entry; lookups return the first match.
use vstd::prelude::*;

verus! {

use crate::value::str_eq;

/// Index of the first entry with the given key, at or after `from`.
pub open spec fn key_idx_from<V>(s: Seq<(String, V)>, key: Seq<char>, from: int) -> Option<int>
    decreases s.len() - from,
{
    if from < 0 || from >= s.len() {
        None
    } else if s[from].0@ == key {
        Some(from)
    } else {
        key_idx_from(s, key, from + 1)
    }
}

/// Index of the first entry with the given key, if any.
pub open spec fn key_idx<V>(s: Seq<(String, V)>, key: Seq<char>) -> Option<int> {
    key_idx_from(s, key, 0)
}

pub open spec fn key_has<V>(s: Seq<(String, V)>, key: Seq<char>) -> bool {
    key_idx(s, key) is Some
}

/// Value of the first entry with the given key, if any.
pub open spec fn key_find<V>(s: Seq<(String, V)>, key: Seq<char>) -> Option<V> {
    match key_idx(s, key) {
        Some(i) => Some(s[i].1),
        None => None,
    }
}

/// Whether the keys are pairwise distinct.
pub open spec fn keys_unique<V>(s: Seq<(String, V)>) -> bool {
    forall|i: int, j: int| 0 <= i < j < s.len() ==> #[trigger] s[i].0@ != #[trigger] s[j].0@
}

/// A found index is in range, holds the key, and nothing before it does.
pub proof fn lemma_key_idx_spec<V>(s: Seq<(String, V)>, key: Seq<char>, from: int)
    requires
        0 <= from <= s.len(),
    ensures
        match key_idx_from(s, key, from) {
            Some(i) => from <= i < s.len() && s[i].0@ == key && forall|j: int|
                from <= j < i ==> #[trigger] s[j].0@ != key,
            None => forall|j: int| from <= j < s.len() ==> #[trigger] s[j].0@ != key,
        },
    decreases s.len() - from,
{
    if from < s.len() {
        if s[from].0@ != key {
            lemma_key_idx_spec(s, key, from + 1);
        }
    }
}

/// Index of the first entry with the given key in a model-level list.
pub open spec fn model_key_idx_from<V>(
    s: Seq<(Seq<char>, V)>,
    key: Seq<char>,
    from: int,
) -> Option<int>
    decreases s.len() - from,
{
    if from < 0 || from >= s.len() {
        None
    } else if s[from].0 == key {
        Some(from)
    } else {
        model_key_idx_from(s, key, from + 1)
    }
}

pub open spec fn model_key_idx<V>(s: Seq<(Seq<char>, V)>, key: Seq<char>) -> Option<int> {
    model_key_idx_from(s, key, 0)
}

pub open spec fn model_key_has<V>(s: Seq<(Seq<char>, V)>, key: Seq<char>) -> bool {
    model_key_idx(s, key) is Some
}

pub open spec fn model_key_find<V>(s: Seq<(Seq<char>, V)>, key: Seq<char>) -> Option<V> {
    match model_key_idx(s, key) {
        Some(i) => Some(s[i].1),
        None => None,
    }
}

pub proof fn lemma_model_key_idx_spec<V>(s: Seq<(Seq<char>, V)>, key: Seq<char>, from: int)
    requires
        0 <= from <= s.len(),
    ensures
        match model_key_idx_from(s, key, from) {
            Some(i) => from <= i < s.len() && s[i].0 == key && forall|j: int|
                from <= j < i ==> #[trigger] s[j].0 != key,
            None => forall|j: int| from <= j < s.len() ==> #[trigger] s[j].0 != key,
        },
    decreases s.len() - from,
{
    if from < s.len() {
        if s[from].0 != key {
            lemma_model_key_idx_spec(s, key, from + 1);
        }
    }
}

/// An entry list and a model list whose keys agree position for position
/// are searched alike.
pub proof fn lemma_key_idx_matches_model<E, V>(
    s: Seq<(String, E)>,
    m: Seq<(Seq<char>, V)>,
    key: Seq<char>,
    from: int,
)
    requires
        0 <= from <= s.len(),
        m.len() == s.len(),
        forall|i: int| 0 <= i < s.len() ==> #[trigger] m[i].0 == s[i].0@,
    ensures
        key_idx_from(s, key, from) == model_key_idx_from(m, key, from),
    decreases s.len() - from,
{
    if from < s.len() {
        if s[from].0@ != key {
            lemma_key_idx_matches_model(s, m, key, from + 1);
        }
    }
}

/// Whether the keys of a model-level list are pairwise distinct.
pub open spec fn model_keys_unique<V>(s: Seq<(Seq<char>, V)>) -> bool {
    forall|i: int, j: int| 0 <= i < j < s.len() ==> #[trigger] s[i].0 != #[trigger] s[j].0
}

/// "Set" on a model-level list: replace the keyed entry in place, or append.
pub open spec fn model_set<V>(s: Seq<(Seq<char>, V)>, key: Seq<char>, val: V) -> Seq<
    (Seq<char>, V),
> {
    match model_key_idx(s, key) {
        Some(i) => s.update(i, (key, val)),
        None => s.push((key, val)),
    }
}

/// "Remove" on a model-level list: drop the keyed entry, if present.
pub open spec fn model_remove<V>(s: Seq<(Seq<char>, V)>, key: Seq<char>) -> Seq<(Seq<char>, V)> {
    match model_key_idx(s, key) {
        Some(i) => s.remove(i),
        None => s,
    }
}

/// The model of an id-keyed entry list: key views paired with value views.
pub open spec fn pairs_model<T: View>(s: Seq<(String, T)>) -> Seq<(Seq<char>, T::V)> {
    Seq::new(s.len(), |i: int| (s[i].0@, s[i].1@))
}

/// `keyed_set`, described at the model level.
pub fn keyed_set_model<T: View>(entries: &mut Vec<(String, T)>, key: String, val: T)
    ensures
        pairs_model(final(entries)@) =~= model_set(pairs_model(old(entries)@), key@, val@),
        model_keys_unique(pairs_model(old(entries)@)) ==> model_keys_unique(
            pairs_model(final(entries)@),
        ),
{
    let ghost olds = old(entries)@;
    let ghost oldm = pairs_model(olds);
    proof {
        lemma_key_idx_matches_model(olds, oldm, key@, 0);
        lemma_key_idx_spec(olds, key@, 0);
        lemma_model_key_idx_spec(oldm, key@, 0);
    }
    keyed_set(entries, key, val);
    proof {
        match model_key_idx(oldm, key@) {
            Some(i) => {
                assert(pairs_model(entries@) =~= oldm.update(i, (key@, val@)));
            },
            None => {
                assert(pairs_model(entries@) =~= oldm.push((key@, val@)));
            },
        }
        if model_keys_unique(oldm) {
            assert(model_keys_unique(pairs_model(entries@)));
        }
    }
}

/// Two lists whose keys agree position for position are searched alike.
pub proof fn lemma_key_idx_same_keys<V, W>(
    s1: Seq<(String, V)>,
    s2: Seq<(String, W)>,
    key: Seq<char>,
    from: int,
)
    requires
        0 <= from <= s1.len(),
        s1.len() == s2.len(),
        forall|i: int| 0 <= i < s1.len() ==> #[trigger] s1[i].0@ == s2[i].0@,
    ensures
        key_idx_from(s1, key, from) == key_idx_from(s2, key, from),
    decreases s1.len() - from,
{
    if from < s1.len() {
        if s1[from].0@ != key {
            lemma_key_idx_same_keys(s1, s2, key, from + 1);
        }
    }
}

/// Appending an entry only matters to a search that would otherwise fail.
pub proof fn lemma_key_idx_push<V>(s: Seq<(String, V)>, p: (String, V), key: Seq<char>, from: int)
    requires
        0 <= from <= s.len(),
    ensures
        key_idx_from(s.push(p), key, from) == (match key_idx_from(s, key, from) {
            Some(i) => Some(i),
            None => if p.0@ == key {
                Some(s.len() as int)
            } else {
                None
            },
        }),
    decreases s.len() - from,
{
    if from < s.len() {
        assert(s.push(p)[from] == s[from]);
        if s[from].0@ != key {
            lemma_key_idx_push(s, p, key, from + 1);
            assert(key_idx_from(s.push(p), key, from) == key_idx_from(s.push(p), key, from + 1));
            assert(key_idx_from(s, key, from) == key_idx_from(s, key, from + 1));
        } else {
            assert(key_idx_from(s.push(p), key, from) == Some(from));
            assert(key_idx_from(s, key, from) == Some(from));
        }
    } else {
        assert(s.push(p)[from] == p);
        assert(key_idx_from(s, key, from) is None);
        if p.0@ == key {
            assert(key_idx_from(s.push(p), key, from) == Some(from));
        } else {
            assert(key_idx_from(s.push(p), key, from + 1) is None);
        }
    }
}

#[verifier::loop_isolation(false)]
pub fn keyed_idx<V>(entries: &Vec<(String, V)>, key: &str) -> (r: Option<usize>)
    ensures
        match r {
            Some(i) => key_idx(entries@, key@) == Some(i as int),
            None => key_idx(entries@, key@) is None,
        },
{
    let mut i: usize = 0;
    while i < entries.len()
        invariant
            0 <= i <= entries@.len(),
            key_idx(entries@, key@) == key_idx_from(entries@, key@, i as int),
        decreases entries@.len() - i,
    {
        if str_eq(entries[i].0.as_str(), key) {
            return Some(i);
        }
        i += 1;
    }
    None
}

pub fn keyed_get<'a, V>(entries: &'a Vec<(String, V)>, key: &str) -> (r: Option<&'a V>)
    ensures
        match r {
            Some(v) => key_find(entries@, key@) == Some(*v),
            None => key_find(entries@, key@) is None,
        },
{
    proof {
        lemma_key_idx_spec(entries@, key@, 0);
    }
    match keyed_idx(entries, key) {
        Some(i) => Some(&entries[i].1),
        None => None,
    }
}

pub fn keyed_has<V>(entries: &Vec<(String, V)>, key: &str) -> (r: bool)
    ensures
        r == key_has(entries@, key@),
{
    keyed_idx(entries, key).is_some()
}

/// Replaces the entry with this key in place, or appends a new one.
pub fn keyed_set<V>(entries: &mut Vec<(String, V)>, key: String, val: V)
    ensures
        match key_idx(old(entries)@, key@) {
            Some(i) => final(entries)@ =~= old(entries)@.update(i, (key, val)),
            None => final(entries)@ =~= old(entries)@.push((key, val)),
        },
        keys_unique(old(entries)@) ==> keys_unique(final(entries)@),
{
    proof {
        lemma_key_idx_spec(entries@, key@, 0);
    }
    match keyed_idx(entries, key.as_str()) {
        Some(i) => {
            entries.set(i, (key, val));
        },
        None => {
            entries.push((key, val));
        },
    }
}

/// Removes the entry with this key, if present; later entries shift left.
pub fn keyed_remove<V>(entries: &mut Vec<(String, V)>, key: &str)
    ensures
        match key_idx(old(entries)@, key@) {
            Some(i) => final(entries)@ =~= old(entries)@.remove(i),
            None => final(entries)@ =~= old(entries)@,
        },
        keys_unique(old(entries)@) ==> keys_unique(final(entries)@),
        !key_has(final(entries)@, key@) || !keys_unique(old(entries)@),
{
    proof {
        lemma_key_idx_spec(entries@, key@, 0);
    }
    match keyed_idx(entries, key) {
        Some(i) => {
            let _ = entries.remove(i);
            proof {
                if keys_unique(old(entries)@) {
                    lemma_key_idx_spec(entries@, key@, 0);
                    if key_idx(entries@, key@) is Some {
                        let k = key_idx(entries@, key@)->Some_0;
                        assert(entries@[k] == if k < i {
                            old(entries)@[k]
                        } else {
                            old(entries)@[k + 1]
                        });
                    }
                }
            }
        },
        None => {
            proof {
                lemma_key_idx_spec(entries@, key@, 0);
            }
        },
    }
}


/// Appending an entry at the model level only matters to a search that
/// would otherwise fail.
pub proof fn lemma_model_key_idx_push<V>(
    s: Seq<(Seq<char>, V)>,
    p: (Seq<char>, V),
    key: Seq<char>,
    from: int,
)
    requires
        0 <= from <= s.len(),
    ensures
        model_key_idx_from(s.push(p), key, from) == (match model_key_idx_from(s, key, from) {
            Some(i) => Some(i),
            None => if p.0 == key {
                Some(s.len() as int)
            } else {
                None
            },
        }),
    decreases s.len() - from,
{
    if from < s.len() {
        assert(s.push(p)[from] == s[from]);
        if s[from].0 != key {
            lemma_model_key_idx_push(s, p, key, from + 1);
        }
    } else {
        assert(s.push(p)[from] == p);
        if p.0 != key {
            assert(model_key_idx_from(s.push(p), key, from + 1) is None);
        }
    }
}

/// After a set, the set key maps to the set value.
pub proof fn lemma_model_set_same<V>(s: Seq<(Seq<char>, V)>, key: Seq<char>, val: V)
    ensures
        model_key_find(model_set(s, key, val), key) == Some(val),
{
    lemma_model_key_idx_spec(s, key, 0);
    match model_key_idx(s, key) {
        Some(i) => {
            let s2 = s.update(i, (key, val));
            lemma_model_key_idx_spec(s2, key, 0);
            match model_key_idx(s2, key) {
                Some(k) => {
                    if k < i {
                        assert(s2[k].0 == s[k].0);
                        assert(false);
                    }
                    if k > i {
                        assert(s2[i].0 == key);
                        assert(false);
                    }
                },
                None => {
                    assert(s2[i].0 == key);
                    assert(false);
                },
            }
        },
        None => {
            lemma_model_key_idx_push(s, (key, val), key, 0);
        },
    }
}

/// A set under one key leaves every other key's first match untouched.
pub proof fn lemma_model_set_other<V>(
    s: Seq<(Seq<char>, V)>,
    key: Seq<char>,
    val: V,
    other: Seq<char>,
)
    requires
        other != key,
    ensures
        model_key_find(model_set(s, key, val), other) == model_key_find(s, other),
{
    lemma_model_key_idx_spec(s, key, 0);
    match model_key_idx(s, key) {
        Some(i) => {
            let s2 = s.update(i, (key, val));
            assert(forall|j: int| 0 <= j < s.len() ==> #[trigger] s2[j].0 == s[j].0);
            lemma_model_idx_same_keys(s, s2, other, 0);
            lemma_model_key_idx_spec(s, other, 0);
            match model_key_idx(s, other) {
                Some(k) => {
                    assert(s[k].0 == other);
                    assert(k != i);
                    assert(s2[k] == s[k]);
                },
                None => {},
            }
        },
        None => {
            lemma_model_key_idx_push(s, (key, val), other, 0);
            lemma_model_key_idx_spec(s, other, 0);
            match model_key_idx(s, other) {
                Some(k) => {
                    assert(s.push((key, val))[k] == s[k]);
                },
                None => {},
            }
        },
    }
}

/// Two model lists whose keys agree position for position are searched
/// alike.
pub proof fn lemma_model_idx_same_keys<V, W>(
    a: Seq<(Seq<char>, V)>,
    b: Seq<(Seq<char>, W)>,
    key: Seq<char>,
    from: int,
)
    requires
        0 <= from <= a.len(),
        a.len() == b.len(),
        forall|i: int| 0 <= i < a.len() ==> #[trigger] a[i].0 == b[i].0,
    ensures
        model_key_idx_from(a, key, from) == model_key_idx_from(b, key, from),
    decreases a.len() - from,
{
    if from < a.len() {
        if a[from].0 != key {
            lemma_model_idx_same_keys(a, b, key, from + 1);
        }
    }
}

} // verus!
