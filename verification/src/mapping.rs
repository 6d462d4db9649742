//! The ordered key-value mapping that a proxy record is written into:
//! `serde_yaml::Mapping`, filled and read through a few operations.

use serde_yaml::{Mapping, Value};
use vstd::prelude::*;

verus! {

#[verifier::external_type_specification]
#[verifier::external_body]
pub struct ExMapping(serde_yaml::Mapping);

/// A value that a record holds under a key.
#[derive(Debug)]
pub enum Field {
    Text(String),
    Number(u32),
    Flag(bool),
}

/// What a mapping holds under a key, as a mathematical value. A value
/// with a tag reads as the value without it, so a tagged text is a text.
pub enum FieldValue {
    Text(Seq<char>),
    Number(u32),
    Flag(bool),
    /// Anything else that a mapping can hold: no value, a larger or a
    /// fractional number, a sequence, a mapping.
    Other,
}

impl DeepView for Field {
    type V = FieldValue;

    open spec fn deep_view(&self) -> FieldValue {
        match self {
            Field::Text(t) => FieldValue::Text(t@),
            Field::Number(n) => FieldValue::Number(*n),
            Field::Flag(b) => FieldValue::Flag(*b),
        }
    }
}

/// The entries of `m` whose key is a text, in the mapping's order, each as
/// its key and its value.
pub uninterp spec fn entries_of(m: Mapping) -> Seq<(Seq<char>, FieldValue)>;

/// Whether some entry has the key `key`.
pub open spec fn has_key(entries: Seq<(Seq<char>, FieldValue)>, key: Seq<char>) -> bool {
    exists|i: int| 0 <= i < entries.len() && (#[trigger] entries[i]).0 == key
}

/// The index of the first entry with the key `key`.
pub open spec fn key_index(entries: Seq<(Seq<char>, FieldValue)>, key: Seq<char>) -> int {
    choose|i: int|
        0 <= i < entries.len() && (#[trigger] entries[i]).0 == key && forall|j: int|
            0 <= j < i ==> (#[trigger] entries[j]).0 != key
}

/// The entries after `value` was put under `key`: an entry that has the key
/// keeps its place and takes the value; otherwise the pair comes last.
pub open spec fn put(
    entries: Seq<(Seq<char>, FieldValue)>,
    key: Seq<char>,
    value: FieldValue,
) -> Seq<(Seq<char>, FieldValue)> {
    if has_key(entries, key) {
        entries.update(key_index(entries, key), (key, value))
    } else {
        entries.push((key, value))
    }
}

/// The text under `key`, if the first entry with that key holds a text.
pub open spec fn text_under(entries: Seq<(Seq<char>, FieldValue)>, key: Seq<char>) -> Option<
    Seq<char>,
> {
    if has_key(entries, key) {
        match entries[key_index(entries, key)].1 {
            FieldValue::Text(t) => Some(t),
            _ => None,
        }
    } else {
        None
    }
}

/// `Mapping::new`: a mapping without entries.
#[verifier::external_body]
pub(crate) fn empty_mapping() -> (m: Mapping)
    ensures
        entries_of(m) == Seq::<(Seq<char>, FieldValue)>::empty(),
{
    Mapping::new()
}

/// `Mapping::insert` with a text key: where the key is present its value is
/// replaced in place, otherwise the pair is added after the others.
#[verifier::external_body]
pub(crate) fn insert_field(m: &mut Mapping, key: &str, value: Field)
    ensures
        entries_of(*final(m)) == put(entries_of(*old(m)), key@, value.deep_view()),
{
    let v = match value {
        Field::Text(t) => Value::from(t),
        Field::Number(n) => Value::from(n),
        Field::Flag(b) => Value::from(b),
    };
    m.insert(Value::from(key), v);
}

/// `Mapping::get` with a text key, then `Value::as_str`: the text that the
/// mapping holds under the key, if it holds a text there.
#[verifier::external_body]
pub(crate) fn text_field(m: &Mapping, key: &str) -> (r: Option<String>)
    ensures
        r.deep_view() == text_under(entries_of(*m), key@),
{
    match m.get(key) {
        Some(v) => match v.as_str() {
            Some(s) => Some(s.to_owned()),
            None => None,
        },
        None => None,
    }
}

/// Putting a value under a key that no entry has adds the pair at the end.
pub proof fn lemma_put_fresh(entries: Seq<(Seq<char>, FieldValue)>, key: Seq<char>, value: FieldValue)
    requires
        forall|i: int| 0 <= i < entries.len() ==> (#[trigger] entries[i]).0 != key,
    ensures
        put(entries, key, value) == entries.push((key, value)),
{
}

/// The first entry's text is the text under its key.
pub proof fn lemma_text_under_first(entries: Seq<(Seq<char>, FieldValue)>, key: Seq<char>, t: Seq<char>)
    requires
        entries.len() > 0,
        entries[0] == (key, FieldValue::Text(t)),
    ensures
        text_under(entries, key) == Some(t),
{
    assert(entries[0].0 == key);
    let k = key_index(entries, key);
    if k > 0 {
        assert(entries[0].0 != key);
    }
}

} // verus!
