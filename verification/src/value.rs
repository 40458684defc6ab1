//! A plain model of YAML and JSON documents.
//!
//! Configuration files and adapter manifests are parsed outside the library
//! into this model; every schema rule of the project is then checked over it.
use vstd::prelude::*;

verus! {

/// A YAML or JSON number.  Integers keep their value; other numbers keep
/// their textual form.
pub enum Number {
    Unsigned(u64),
    Negative(i64),
    Other(String),
}

/// A YAML or JSON value.
pub enum Value {
    Null,
    Bool(bool),
    Number(Number),
    String(String),
    Sequence(Vec<Value>),
    Mapping(Vec<Entry>),
    Tagged(String, Box<Value>),
}

/// One key/value pair of a mapping, in document order.
pub struct Entry {
    pub key: Value,
    pub value: Value,
}

/// A copy of a number.
pub fn copy_number(n: &Number) -> (r: Number)
    ensures
        r == *n,
{
    match n {
        Number::Unsigned(u) => Number::Unsigned(*u),
        Number::Negative(i) => Number::Negative(*i),
        Number::Other(s) => Number::Other(s.clone()),
    }
}

/// Whether two values hold the same document: equal scalars, and
/// sequences, mappings and tags whose parts hold the same documents.
pub open spec fn same_value(a: Value, b: Value) -> bool
    decreases a,
{
    match a {
        Value::Sequence(x) => match b {
            Value::Sequence(y) => x@.len() == y@.len() && forall|i: int|
                0 <= i < x@.len() ==> same_value(#[trigger] x[i], y[i]),
            _ => false,
        },
        Value::Mapping(x) => match b {
            Value::Mapping(y) => x@.len() == y@.len() && forall|i: int|
                0 <= i < x@.len() ==> same_value((#[trigger] x[i]).key, y[i].key) && same_value(
                    x[i].value,
                    y[i].value,
                ),
            _ => false,
        },
        Value::Tagged(t, x) => match b {
            Value::Tagged(u, y) => t@ == u@ && same_value(*x, *y),
            _ => false,
        },
        _ => a == b,
    }
}

/// A copy of a value.
pub fn copy_value(v: &Value) -> (r: Value)
    ensures
        same_value(r, *v),
        (r is Null) == (v is Null),
        (r is Mapping) == (v is Mapping),
        (r is Sequence) == (v is Sequence),
        (r is String) == (v is String),
        (r is Tagged) == (v is Tagged),
        !(v is Sequence || v is Mapping || v is Tagged) ==> r == *v,
        v matches Value::Sequence(items) ==> r->Sequence_0@.len() == items@.len(),
        v matches Value::Mapping(es) ==> r->Mapping_0@.len() == es@.len(),
    decreases v,
{
    match v {
        Value::Null => Value::Null,
        Value::Bool(b) => Value::Bool(*b),
        Value::Number(n) => Value::Number(copy_number(n)),
        Value::String(s) => Value::String(s.clone()),
        Value::Sequence(items) => {
            let mut out: Vec<Value> = Vec::new();
            let mut i: usize = 0;
            while i < items.len()
                invariant
                    *v == Value::Sequence(*items),
                    i <= items@.len(),
                    out@.len() == i,
                    forall|j: int| 0 <= j < i ==> same_value(#[trigger] out@[j], items@[j]),
                decreases items.len() - i,
            {
                proof {
                    assert(decreases_to!(v => v->Sequence_0));
                    assert(decreases_to!(v => items[i as int]));
                }
                out.push(copy_value(&items[i]));
                i = i + 1;
            }
            Value::Sequence(out)
        },
        Value::Mapping(es) => {
            let mut out: Vec<Entry> = Vec::new();
            let mut i: usize = 0;
            while i < es.len()
                invariant
                    *v == Value::Mapping(*es),
                    i <= es@.len(),
                    out@.len() == i,
                    forall|j: int|
                        0 <= j < i ==> same_value((#[trigger] out@[j]).key, es@[j].key) && same_value(
                            out@[j].value,
                            es@[j].value,
                        ),
                decreases es.len() - i,
            {
                proof {
                    assert(decreases_to!(v => v->Mapping_0));
                    assert(decreases_to!(v => es[i as int]));
                    assert(decreases_to!(v => es[i as int].key));
                    assert(decreases_to!(v => es[i as int].value));
                }
                out.push(Entry { key: copy_value(&es[i].key), value: copy_value(&es[i].value) });
                i = i + 1;
            }
            Value::Mapping(out)
        },
        Value::Tagged(tag, inner) => Value::Tagged(tag.clone(), Box::new(copy_value(inner))),
    }
}

/// The value under any number of tags.
pub open spec fn untagged(v: Value) -> Value
    decreases v,
{
    match v {
        Value::Tagged(_, inner) => untagged(*inner),
        _ => v,
    }
}

/// `v` with its tags removed.
pub fn untag(v: &Value) -> (r: &Value)
    ensures
        *r == untagged(*v),
    decreases v,
{
    match v {
        Value::Tagged(_, inner) => untag(inner),
        _ => v,
    }
}

/// Whether `key` is the string `name`.
pub open spec fn is_key(key: Value, name: Seq<char>) -> bool {
    match key {
        Value::String(s) => s@ == name,
        _ => false,
    }
}

/// The index of the first entry whose key is the string `name`.
pub open spec fn key_index(entries: Seq<Entry>, name: Seq<char>) -> Option<int>
    decreases entries.len(),
{
    if entries.len() == 0 {
        None
    } else if is_key(entries[0].key, name) {
        Some(0)
    } else {
        match key_index(entries.drop_first(), name) {
            Some(i) => Some(i + 1),
            None => None,
        }
    }
}

/// The value of the first entry whose key is the string `name`.
pub open spec fn lookup(entries: Seq<Entry>, name: Seq<char>) -> Option<Value> {
    match key_index(entries, name) {
        Some(i) => Some(entries[i].value),
        None => None,
    }
}

pub proof fn lemma_key_index(entries: Seq<Entry>, name: Seq<char>)
    ensures
        key_index(entries, name) matches Some(i) ==> 0 <= i < entries.len() && is_key(
            entries[i].key,
            name,
        ) && forall|j: int| 0 <= j < i ==> !is_key(#[trigger] entries[j].key, name),
        key_index(entries, name) is None ==> forall|j: int|
            0 <= j < entries.len() ==> !is_key(#[trigger] entries[j].key, name),
    decreases entries.len(),
{
    if entries.len() > 0 {
        lemma_key_index(entries.drop_first(), name);
        assert forall|j: int| 1 <= j < entries.len() implies entries[j].key == entries.drop_first()[j
            - 1].key by {}
    }
}

/// Whether a key is the string `name`.
pub fn key_is(key: &Value, name: &str) -> (r: bool)
    ensures
        r == is_key(*key, name@),
{
    match key {
        Value::String(s) => crate::text::str_eq(s.as_str(), name),
        _ => false,
    }
}

/// The value under the first key equal to the string `name`.
pub fn get<'a>(entries: &'a Vec<Entry>, name: &str) -> (r: Option<&'a Value>)
    ensures
        r matches Some(v) ==> lookup(entries@, name@) == Some(*v),
        r is None ==> lookup(entries@, name@) is None,
{
    proof {
        lemma_key_index(entries@, name@);
    }
    let mut i: usize = 0;
    while i < entries.len()
        invariant
            i <= entries@.len(),
            forall|j: int| 0 <= j < i ==> !is_key(#[trigger] entries@[j].key, name@),
            key_index(entries@, name@) matches Some(k) ==> i <= k && k < entries@.len() && is_key(
                entries@[k].key,
                name@,
            ) && forall|j: int| 0 <= j < k ==> !is_key(#[trigger] entries@[j].key, name@),
            key_index(entries@, name@) is None ==> forall|j: int|
                0 <= j < entries@.len() ==> !is_key(#[trigger] entries@[j].key, name@),
        decreases entries.len() - i,
    {
        if key_is(&entries[i].key, name) {
            assert(key_index(entries@, name@) == Some(i as int));
            return Some(&entries[i].value);
        }
        i = i + 1;
    }
    None
}

/// The position of the first entry whose key is the string `name`.
pub fn find_key(entries: &Vec<Entry>, name: &str) -> (r: Option<usize>)
    ensures
        r matches Some(k) ==> k < entries@.len() && key_index(entries@, name@) == Some(k as int)
            && lookup(entries@, name@) == Some(entries@[k as int].value) && is_key(
            entries@[k as int].key,
            name@,
        ),
        r is None ==> key_index(entries@, name@) is None && lookup(entries@, name@) is None,
{
    proof {
        lemma_key_index(entries@, name@);
    }
    let mut i: usize = 0;
    while i < entries.len()
        invariant
            i <= entries@.len(),
            forall|j: int| 0 <= j < i ==> !is_key(#[trigger] entries@[j].key, name@),
            key_index(entries@, name@) matches Some(k) ==> i <= k && k < entries@.len() && is_key(
                entries@[k].key,
                name@,
            ) && forall|j: int| 0 <= j < k ==> !is_key(#[trigger] entries@[j].key, name@),
            key_index(entries@, name@) is None ==> forall|j: int|
                0 <= j < entries@.len() ==> !is_key(#[trigger] entries@[j].key, name@),
        decreases entries.len() - i,
    {
        if key_is(&entries[i].key, name) {
            assert(key_index(entries@, name@) == Some(i as int));
            return Some(i);
        }
        i = i + 1;
    }
    None
}

/// Whether `key` is one of the strings in `names`.
pub open spec fn is_known(key: Value, names: Seq<Seq<char>>) -> bool {
    exists|j: int| 0 <= j < names.len() && is_key(key, names[j])
}

/// Whether every key of `entries` is one of the strings in `names`.
pub open spec fn keys_within(entries: Seq<Entry>, names: Seq<Seq<char>>) -> bool {
    forall|i: int| 0 <= i < entries.len() ==> is_known(#[trigger] entries[i].key, names)
}

/// The character sequences of a list of names.
pub open spec fn views_of(names: Seq<&str>) -> Seq<Seq<char>> {
    names.map_values(|n: &str| n@)
}

/// Whether `key` is one of the strings in `names`.
pub fn key_in(key: &Value, names: &[&str]) -> (r: bool)
    ensures
        r == is_known(*key, views_of(names@)),
{
    let ghost views = views_of(names@);
    let mut j: usize = 0;
    while j < names.len()
        invariant
            j <= names@.len(),
            views == views_of(names@),
            forall|m: int| 0 <= m < j ==> !is_key(*key, #[trigger] views[m]),
        decreases names.len() - j,
    {
        if key_is(key, names[j]) {
            assert(is_key(*key, views[j as int]));
            return true;
        }
        j = j + 1;
    }
    false
}

/// The position of the first key of `entries` that is not one of `names`.
pub fn first_unknown_key(entries: &Vec<Entry>, names: &[&str]) -> (r: Option<usize>)
    ensures
        r is None <==> keys_within(entries@, views_of(names@)),
        r matches Some(i) ==> i < entries@.len() && !is_known(entries@[i as int].key, views_of(names@)),
{
    let mut i: usize = 0;
    while i < entries.len()
        invariant
            i <= entries@.len(),
            forall|k: int| 0 <= k < i ==> is_known(#[trigger] entries@[k].key, views_of(names@)),
        decreases entries.len() - i,
    {
        if !key_in(&entries[i].key, names) {
            return Some(i);
        }
        i = i + 1;
    }
    None
}

} // verus!
