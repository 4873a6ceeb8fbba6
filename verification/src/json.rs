//! JSON values as the schema generator builds them.
//!
//! An object is a list of entries whose keys are pairwise distinct; inserting
//! a key that is present replaces its value in place, as in a JSON map. An
//! object whose entries are a permutation of another's denotes the same JSON.

use vstd::prelude::*;
use crate::text::{chars_eq, to_chars};

verus! {

/// A JSON value.
///
/// `Bare` holds an unquoted `const_values` literal that is neither a boolean
/// nor an `i64`: it denotes a JSON number where the text reads as a finite
/// `f64`, and the JSON string of the text otherwise.
pub enum JsonValue {
    Null,
    Bool(bool),
    Int(i64),
    Str(String),
    Bare(String),
    Array(Vec<JsonValue>),
    Object(Vec<(String, JsonValue)>),
}

/// The mathematical model of a `JsonValue`.
pub enum Json {
    Null,
    Bool(bool),
    Int(int),
    Str(Seq<char>),
    Bare(Seq<char>),
    Array(Seq<Json>),
    Object(Seq<(Seq<char>, Json)>),
}

impl JsonValue {
    pub open spec fn model(self) -> Json
        decreases self,
    {
        match self {
            JsonValue::Null => Json::Null,
            JsonValue::Bool(b) => Json::Bool(b),
            JsonValue::Int(n) => Json::Int(n as int),
            JsonValue::Str(s) => Json::Str(s@),
            JsonValue::Bare(s) => Json::Bare(s@),
            JsonValue::Array(items) => Json::Array(model_items(items@)),
            JsonValue::Object(entries) => Json::Object(model_entries(entries@)),
        }
    }
}

pub open spec fn model_items(s: Seq<JsonValue>) -> Seq<Json>
    decreases s,
{
    if s.len() == 0 {
        Seq::empty()
    } else {
        model_items(s.drop_last()).push(s.last().model())
    }
}

pub open spec fn model_entries(s: Seq<(String, JsonValue)>) -> Seq<(Seq<char>, Json)>
    decreases s,
{
    if s.len() == 0 {
        Seq::empty()
    } else {
        model_entries(s.drop_last()).push((s.last().0@, s.last().1.model()))
    }
}

pub proof fn lemma_model_items(s: Seq<JsonValue>)
    ensures
        model_items(s).len() == s.len(),
        forall|i: int| 0 <= i < s.len() ==> #[trigger] model_items(s)[i] == s[i].model(),
    decreases s.len(),
{
    if s.len() > 0 {
        lemma_model_items(s.drop_last());
        assert forall|i: int| 0 <= i < s.len() implies #[trigger] model_items(s)[i]
            == s[i].model() by {
            if i < s.len() - 1 {
                assert(s.drop_last()[i] == s[i]);
            }
        }
    }
}

pub proof fn lemma_model_entries(s: Seq<(String, JsonValue)>)
    ensures
        model_entries(s).len() == s.len(),
        forall|i: int|
            0 <= i < s.len() ==> #[trigger] model_entries(s)[i] == (s[i].0@, s[i].1.model()),
    decreases s.len(),
{
    if s.len() > 0 {
        lemma_model_entries(s.drop_last());
        assert forall|i: int| 0 <= i < s.len() implies #[trigger] model_entries(s)[i] == (
        s[i].0@, s[i].1.model()) by {
            if i < s.len() - 1 {
                assert(s.drop_last()[i] == s[i]);
            }
        }
    }
}

/// Index of the entry with key `k`.
pub open spec fn key_index(es: Seq<(Seq<char>, Json)>, k: Seq<char>) -> Option<nat>
    decreases es.len(),
{
    if es.len() == 0 {
        None
    } else if es[0].0 == k {
        Some(0)
    } else {
        match key_index(es.drop_first(), k) {
            Some(i) => Some(i + 1),
            None => None,
        }
    }
}

/// The value of key `k` in the entries `es`.
pub open spec fn lookup(es: Seq<(Seq<char>, Json)>, k: Seq<char>) -> Option<Json> {
    match key_index(es, k) {
        Some(i) => Some(es[i as int].1),
        None => None,
    }
}

/// The entries `es` after setting key `k` to `v`: a present key keeps its
/// place and takes the new value, an absent one is appended.
pub open spec fn insert_entry(es: Seq<(Seq<char>, Json)>, k: Seq<char>, v: Json) -> Seq<
    (Seq<char>, Json),
> {
    match key_index(es, k) {
        Some(i) => es.update(i as int, (k, v)),
        None => es.push((k, v)),
    }
}

/// The value at key `k` of an object.
pub open spec fn field(j: Json, k: Seq<char>) -> Option<Json> {
    match j {
        Json::Object(es) => lookup(es, k),
        _ => None,
    }
}

/// No two entries share a key.
pub open spec fn keys_distinct(es: Seq<(Seq<char>, Json)>) -> bool {
    forall|i: int, j: int| 0 <= i < j < es.len() ==> es[i].0 != es[j].0
}

pub proof fn lemma_key_index_exact(es: Seq<(Seq<char>, Json)>, k: Seq<char>, n: int)
    requires
        0 <= n <= es.len(),
        forall|j: int| 0 <= j < n ==> #[trigger] es[j].0 != k,
    ensures
        n < es.len() && es[n].0 == k ==> key_index(es, k) == Some(n as nat),
        n == es.len() ==> key_index(es, k) is None,
    decreases n,
{
    if n > 0 {
        assert forall|j: int| 0 <= j < n - 1 implies #[trigger] es.drop_first()[j].0 != k by {
            assert(es.drop_first()[j] == es[j + 1]);
        }
        lemma_key_index_exact(es.drop_first(), k, n - 1);
    }
}

pub proof fn lemma_insert_keeps_distinct(es: Seq<(Seq<char>, Json)>, k: Seq<char>, v: Json)
    requires
        keys_distinct(es),
    ensures
        keys_distinct(insert_entry(es, k, v)),
        lookup(insert_entry(es, k, v), k) == Some(v),
{
    lemma_key_index_props(es, k);
    let r = insert_entry(es, k, v);
    match key_index(es, k) {
        Some(i) => {
            assert forall|a: int| 0 <= a < i implies #[trigger] r[a].0 != k by {}
            lemma_key_index_exact(r, k, i as int);
        },
        None => {
            assert forall|a: int| 0 <= a < es.len() implies #[trigger] r[a].0 != k by {}
            lemma_key_index_exact(r, k, es.len() as int);
        },
    }
}

pub proof fn lemma_key_index_props(es: Seq<(Seq<char>, Json)>, k: Seq<char>)
    ensures
        match key_index(es, k) {
            Some(i) => i < es.len() && es[i as int].0 == k && forall|j: int|
                0 <= j < i ==> #[trigger] es[j].0 != k,
            None => forall|j: int| 0 <= j < es.len() ==> #[trigger] es[j].0 != k,
        },
    decreases es.len(),
{
    if es.len() > 0 && es[0].0 != k {
        lemma_key_index_props(es.drop_first(), k);
        match key_index(es.drop_first(), k) {
            Some(i) => {
                assert forall|j: int| 0 <= j < i + 1 implies #[trigger] es[j].0 != k by {
                    if j > 0 {
                        assert(es[j] == es.drop_first()[j - 1]);
                    }
                }
            },
            None => {
                assert forall|j: int| 0 <= j < es.len() implies #[trigger] es[j].0 != k by {
                    if j > 0 {
                        assert(es[j] == es.drop_first()[j - 1]);
                    }
                }
            },
        }
    }
}

/// Sets key `key` of the object entries `entries` to `val`.
pub fn insert_field(entries: &mut Vec<(String, JsonValue)>, key: String, val: JsonValue)
    ensures
        model_entries(final(entries)@) == insert_entry(
            model_entries(old(entries)@),
            key@,
            val.model(),
        ),
{
    let ghost old_es = model_entries(entries@);
    proof {
        lemma_model_entries(entries@);
    }
    let kc = to_chars(key.as_str());
    let mut i: usize = 0;
    while i < entries.len()
        invariant
            0 <= i <= entries.len(),
            entries@ == old(entries)@,
            old_es == model_entries(entries@),
            old_es.len() == entries@.len(),
            kc@ == key@,
            forall|j: int|
                0 <= j < entries@.len() ==> #[trigger] old_es[j] == (
                entries@[j].0@,
                entries@[j].1.model(),
            ),
            forall|j: int| 0 <= j < i ==> #[trigger] old_es[j].0 != key@,
        decreases entries.len() - i,
    {
        let ec = to_chars(entries[i].0.as_str());
        if chars_eq(&ec, &kc) {
            proof {
                lemma_key_index_exact(old_es, key@, i as int);
            }
            let ghost pre = entries@;
            entries.set(i, (key, val));
            proof {
                lemma_model_entries(entries@);
                assert(model_entries(entries@) =~= old_es.update(i as int, (key@, val.model())))
                    by {
                    assert forall|j: int| 0 <= j < entries@.len() implies #[trigger] model_entries(
                        entries@,
                    )[j] == old_es.update(i as int, (key@, val.model()))[j] by {
                        if j != i {
                            assert(entries@[j] == pre[j]);
                        }
                    }
                }
            }
            return;
        }
        i = i + 1;
    }
    proof {
        lemma_key_index_exact(old_es, key@, entries@.len() as int);
    }
    let ghost pre = entries@;
    entries.push((key, val));
    proof {
        assert(entries@.drop_last() == pre);
    }
}

/// An empty object's entries.
pub fn new_entries() -> (r: Vec<(String, JsonValue)>)
    ensures
        model_entries(r@) == Seq::<(Seq<char>, Json)>::empty(),
{
    Vec::new()
}

/// The string at key `key` of an object, where it is a string.
pub fn get_str_field(j: &JsonValue, key: &str) -> (r: Option<String>)
    ensures
        match field(j.model(), key@) {
            Some(Json::Str(s)) => r matches Some(t) && t@ == s,
            _ => r is None,
        },
{
    match j {
        JsonValue::Object(entries) => {
            proof {
                lemma_model_entries(entries@);
            }
            let ghost es = model_entries(entries@);
            assert(j.model() == Json::Object(es));
            let kc = to_chars(key);
            let mut i: usize = 0;
            while i < entries.len()
                invariant
                    0 <= i <= entries.len(),
                    es == model_entries(entries@),
                    j.model() == Json::Object(es),
                    es.len() == entries@.len(),
                    kc@ == key@,
                    forall|m: int|
                        0 <= m < entries@.len() ==> #[trigger] es[m] == (
                        entries@[m].0@,
                        entries@[m].1.model(),
                    ),
                    forall|m: int| 0 <= m < i ==> #[trigger] es[m].0 != key@,
                decreases entries.len() - i,
            {
                let ec = to_chars(entries[i].0.as_str());
                if chars_eq(&ec, &kc) {
                    proof {
                        lemma_key_index_exact(es, key@, i as int);
                        assert(j.model() == Json::Object(es));
                        assert(es[i as int].1 == entries@[i as int].1.model());
                    }
                    return match &entries[i].1 {
                        JsonValue::Str(s) => {
                            let t = s.clone();
                            assert(entries@[i as int].1.model() == Json::Str(s@));
                            Some(t)
                        },
                        _ => None,
                    };
                }
                i = i + 1;
            }
            proof {
                lemma_key_index_exact(es, key@, entries@.len() as int);
                assert(j.model() == Json::Object(es));
            }
            None
        },
        _ => None,
    }
}

/// A copy of `j`.
#[verifier::loop_isolation(false)]
pub fn clone_json(j: &JsonValue) -> (r: JsonValue)
    ensures
        r.model() == j.model(),
    decreases j,
{
    match j {
        JsonValue::Null => JsonValue::Null,
        JsonValue::Bool(b) => JsonValue::Bool(*b),
        JsonValue::Int(n) => JsonValue::Int(*n),
        JsonValue::Str(s) => JsonValue::Str(s.clone()),
        JsonValue::Bare(s) => JsonValue::Bare(s.clone()),
        JsonValue::Array(items) => {
            let mut out: Vec<JsonValue> = Vec::new();
            let mut i: usize = 0;
            proof {
                lemma_model_items(items@);
            }
            while i < items.len()
                invariant
                    0 <= i <= items.len(),
                    model_items(out@) == model_items(items@).take(i as int),
                    model_items(items@).len() == items@.len(),
                    forall|m: int|
                        0 <= m < items@.len() ==> #[trigger] model_items(items@)[m]
                            == items@[m].model(),
                decreases items.len() - i,
            {
                assert(decreases_to!(j => items@[i as int]));
                let c = clone_json(&items[i]);
                let ghost pre = out@;
                out.push(c);
                assert(out@.drop_last() == pre);
                assert(model_items(out@) =~= model_items(items@).take(i + 1));
                i = i + 1;
            }
            assert(model_items(items@).take(items.len() as int) =~= model_items(items@));
            JsonValue::Array(out)
        },
        JsonValue::Object(entries) => {
            let mut out: Vec<(String, JsonValue)> = Vec::new();
            let mut i: usize = 0;
            proof {
                lemma_model_entries(entries@);
            }
            while i < entries.len()
                invariant
                    0 <= i <= entries.len(),
                    model_entries(out@) == model_entries(entries@).take(i as int),
                    model_entries(entries@).len() == entries@.len(),
                    forall|m: int|
                        0 <= m < entries@.len() ==> #[trigger] model_entries(entries@)[m] == (
                        entries@[m].0@,
                        entries@[m].1.model(),
                    ),
                decreases entries.len() - i,
            {
                assert(decreases_to!(j => entries@[i as int].1));
                let c = clone_json(&entries[i].1);
                let k = entries[i].0.clone();
                let ghost pre = out@;
                out.push((k, c));
                assert(out@.drop_last() == pre);
                assert(model_entries(out@) =~= model_entries(entries@).take(i + 1));
                i = i + 1;
            }
            assert(model_entries(entries@).take(entries.len() as int) =~= model_entries(entries@));
            JsonValue::Object(out)
        },
    }
}

/// Setting a key of an object gives that key the new value and leaves every
/// other key as it was.
pub proof fn lemma_insert_lookup(es: Seq<(Seq<char>, Json)>, k: Seq<char>, v: Json, k2: Seq<char>)
    ensures
        lookup(insert_entry(es, k, v), k) == Some(v),
        k2 != k ==> lookup(insert_entry(es, k, v), k2) == lookup(es, k2),
{
    lemma_key_index_props(es, k);
    lemma_key_index_props(es, k2);
    let r = insert_entry(es, k, v);
    match key_index(es, k) {
        Some(i) => {
            assert forall|a: int| 0 <= a < i implies #[trigger] r[a].0 != k by {}
            lemma_key_index_exact(r, k, i as int);
            if k2 != k {
                match key_index(es, k2) {
                    Some(j) => {
                        assert forall|a: int| 0 <= a < j implies #[trigger] r[a].0 != k2 by {}
                        lemma_key_index_exact(r, k2, j as int);
                    },
                    None => {
                        assert forall|a: int| 0 <= a < r.len() implies #[trigger] r[a].0 != k2 by {}
                        lemma_key_index_exact(r, k2, r.len() as int);
                    },
                }
            }
        },
        None => {
            assert forall|a: int| 0 <= a < es.len() implies #[trigger] r[a].0 != k by {}
            lemma_key_index_exact(r, k, es.len() as int);
            if k2 != k {
                match key_index(es, k2) {
                    Some(j) => {
                        assert forall|a: int| 0 <= a < j implies #[trigger] r[a].0 != k2 by {}
                        lemma_key_index_exact(r, k2, j as int);
                    },
                    None => {
                        assert forall|a: int| 0 <= a < r.len() implies #[trigger] r[a].0 != k2 by {}
                        lemma_key_index_exact(r, k2, r.len() as int);
                    },
                }
            }
        },
    }
}

} // verus!
