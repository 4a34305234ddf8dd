//! The library's model of a JSON (or TOML) document: what the parsers read
//! of records, replies and configuration files. Records and replies are
//! parsed by the application with serde and handed over in this form; a
//! configuration file is parsed in `config`.
use vstd::prelude::*;
use crate::status::Percent;
use crate::text::str_eq;

verus! {

/// A number as the readers see it: as an unsigned integer, as a signed
/// integer, and, when read as a double that is a percentage from 0 to 100,
/// the double 100 minus it.
#[derive(Debug, Clone, Copy, PartialEq, Eq)]
pub struct JsonNumber {
    pub unsigned: Option<u64>,
    pub signed: Option<i64>,
    pub share_left: Option<Percent>,
}

/// A JSON value. An object keeps its entries in the order the parser gave
/// them; a key is looked up at its first entry. A TOML document also has
/// floats, held here by the bits of the double, and date-times, held in
/// their TOML text form.
#[derive(Debug)]
pub enum Json {
    Null,
    Bool(bool),
    Number(JsonNumber),
    Str(String),
    Array(Vec<Json>),
    Object(Vec<(String, Json)>),
    Float(u64),
    Datetime(String),
}

/// The value of the first entry with the given key.
pub open spec fn lookup(entries: Seq<(String, Json)>, key: Seq<char>) -> Option<Json>
    decreases entries.len(),
{
    if entries.len() == 0 {
        None
    } else if entries[0].0@ == key {
        Some(entries[0].1)
    } else {
        lookup(entries.drop_first(), key)
    }
}

/// A looked-up value, where nothing found reads as `null`.
pub open spec fn found(value: Option<&Json>) -> Json {
    match value {
        Some(v) => *v,
        None => Json::Null,
    }
}

impl Json {
    /// `value[key]`: the entry of an object, `null` for anything else.
    pub open spec fn at(self, key: Seq<char>) -> Json {
        match self {
            Json::Object(entries) => match lookup(entries@, key) {
                Some(v) => v,
                None => Json::Null,
            },
            _ => Json::Null,
        }
    }

    /// The text of a string.
    pub open spec fn text_of(self) -> Option<Seq<char>> {
        match self {
            Json::Str(s) => Some(s@),
            _ => None,
        }
    }

    /// The number as an unsigned integer.
    pub open spec fn u64_of(self) -> Option<u64> {
        match self {
            Json::Number(n) => n.unsigned,
            _ => None,
        }
    }

    /// The number as a signed integer.
    pub open spec fn i64_of(self) -> Option<i64> {
        match self {
            Json::Number(n) => n.signed,
            _ => None,
        }
    }

    /// For a percentage from 0 to 100, what is left of 100.
    pub open spec fn share_left_of(self) -> Option<Percent> {
        match self {
            Json::Number(n) => n.share_left,
            _ => None,
        }
    }

    /// The boolean.
    pub open spec fn bool_of(self) -> Option<bool> {
        match self {
            Json::Bool(b) => Some(b),
            _ => None,
        }
    }

    /// Whether the value is an object.
    pub open spec fn is_object(self) -> bool {
        self is Object
    }

    /// Whether the value is the string `text`.
    pub open spec fn is_text(self, text: Seq<char>) -> bool {
        self.text_of() == Some(text)
    }

    /// Whether the value is an object with an entry for the key.
    pub open spec fn has(self, key: Seq<char>) -> bool {
        match self {
            Json::Object(entries) => lookup(entries@, key) is Some,
            _ => false,
        }
    }

    /// `value.get(key)`: the entry of an object, if it has one (reading it
    /// as `value[key]` gives `null` when it has none).
    pub fn get(&self, key: &str) -> (value: Option<&Json>)
        ensures
            found(value) == self.at(key@),
            value is Some <==> self.has(key@),
    {
        match self {
            Json::Object(entries) => {
                let mut i: usize = 0;
                proof {
                    assert(entries@.skip(0) =~= entries@);
                }
                while i < entries.len()
                    invariant
                        i <= entries@.len(),
                        lookup(entries@, key@) == lookup(entries@.skip(i as int), key@),
                        self.at(key@) == (match lookup(entries@, key@) {
                            Some(v) => v,
                            None => Json::Null,
                        }),
                        self.has(key@) == (lookup(entries@, key@) is Some),
                    decreases entries@.len() - i,
                {
                    proof {
                        assert(entries@.skip(i as int).drop_first() =~= entries@.skip(i + 1));
                    }
                    if str_eq(entries[i].0.as_str(), key) {
                        proof {
                            assert(entries@.skip(i as int)[0] == entries@[i as int]);
                            assert(entries@[i as int].0@ == key@);
                            assert(lookup(entries@.skip(i as int), key@) == Some(entries@[i as int].1));
                            assert(self.at(key@) == entries@[i as int].1);
                        }
                        let v = &entries[i].1;
                        proof {
                            assert(*v == entries@[i as int].1);
                        }
                        return Some(v);
                    }
                    i = i + 1;
                }
                proof {
                    assert(entries@.skip(i as int).len() == 0);
                }
                None
            },
            _ => None,
        }
    }

    /// The text of a string.
    pub fn as_str(&self) -> (text: Option<&str>)
        ensures
            text is Some <==> self.text_of() is Some,
            text is Some ==> text.unwrap()@ == self.text_of().unwrap(),
    {
        match self {
            Json::Str(s) => Some(s.as_str()),
            _ => None,
        }
    }
}

/// `value[key]` on a looked-up value.
pub fn member<'a>(value: Option<&'a Json>, key: &str) -> (r: Option<&'a Json>)
    ensures
        found(r) == found(value).at(key@),
{
    match value {
        Some(v) => v.get(key),
        None => None,
    }
}

/// The text of a looked-up value.
pub fn text_in<'a>(value: Option<&'a Json>) -> (text: Option<&'a str>)
    ensures
        text is Some <==> found(value).text_of() is Some,
        text is Some ==> text.unwrap()@ == found(value).text_of().unwrap(),
{
    match value {
        Some(v) => v.as_str(),
        None => None,
    }
}

/// A looked-up value as an unsigned integer.
pub fn u64_in(value: Option<&Json>) -> (n: Option<u64>)
    ensures
        n == found(value).u64_of(),
{
    match value {
        Some(Json::Number(n)) => n.unsigned,
        _ => None,
    }
}

/// A looked-up value as a signed integer.
pub fn i64_in(value: Option<&Json>) -> (n: Option<i64>)
    ensures
        n == found(value).i64_of(),
{
    match value {
        Some(Json::Number(n)) => n.signed,
        _ => None,
    }
}

/// What is left of 100 for a looked-up percentage.
pub fn share_left_in(value: Option<&Json>) -> (share: Option<Percent>)
    ensures
        share == found(value).share_left_of(),
{
    match value {
        Some(Json::Number(n)) => n.share_left,
        _ => None,
    }
}

/// A looked-up value as a boolean.
pub fn bool_in(value: Option<&Json>) -> (b: Option<bool>)
    ensures
        b == found(value).bool_of(),
{
    match value {
        Some(Json::Bool(b)) => Some(*b),
        _ => None,
    }
}

/// Whether a looked-up value is an object.
pub fn object_in(value: Option<&Json>) -> (is_object: bool)
    ensures
        is_object == found(value).is_object(),
{
    match value {
        Some(Json::Object(_)) => true,
        _ => false,
    }
}

/// Whether a looked-up value is the string `text` (`value == text`).
pub fn text_is(value: Option<&Json>, text: &str) -> (same: bool)
    ensures
        same == found(value).is_text(text@),
{
    match text_in(value) {
        Some(t) => str_eq(t, text),
        None => false,
    }
}

/// A non-empty string of at most `max` bytes, copied.
pub open spec fn bounded_text(value: Json, max: nat) -> Option<Seq<char>> {
    match value.text_of() {
        Some(t) => if t.len() > 0 && vstd::utf8::encode_utf8(t).len() <= max {
            Some(t)
        } else {
            None
        },
        None => None,
    }
}

/// A non-empty string of at most `max` bytes, copied.
pub fn text(value: Option<&Json>, max: usize) -> (r: Option<String>)
    ensures
        r is Some <==> bounded_text(found(value), max as nat) is Some,
        r is Some ==> r.unwrap()@ == bounded_text(found(value), max as nat).unwrap(),
{
    match text_in(value) {
        Some(t) => {
            if !t.is_empty() && t.as_bytes().len() <= max {
                Some(t.to_owned())
            } else {
                None
            }
        },
        None => None,
    }
}

/// The entry of an object for a key, taken out of it.
pub fn into_member(value: Json, key: &str) -> (member: Option<Json>)
    ensures
        member is Some <==> value.has(key@),
        member is Some ==> member.unwrap() == value.at(key@),
{
    let ghost whole = value;
    match value {
        Json::Object(entries) => {
            let mut entries = entries;
            let ghost all = entries@;
            let mut i: usize = 0;
            proof {
                assert(all.skip(0) =~= all);
            }
            while i < entries.len()
                invariant
                    entries@ == all,
                    whole == value,
                    whole.has(key@) == (lookup(all, key@) is Some),
                    whole.at(key@) == (match lookup(all, key@) {
                        Some(v) => v,
                        None => Json::Null,
                    }),
                    i <= all.len(),
                    lookup(all, key@) == lookup(all.skip(i as int), key@),
                decreases all.len() - i,
            {
                proof {
                    assert(all.skip(i as int).drop_first() =~= all.skip(i + 1));
                }
                if str_eq(entries[i].0.as_str(), key) {
                    proof {
                        assert(all.skip(i as int)[0] == all[i as int]);
                        assert(lookup(all.skip(i as int), key@) == Some(all[i as int].1));
                    }
                    let (_, v) = entries.remove(i);
                    proof {
                        assert(v == all[i as int].1);
                        assert(whole.has(key@));
                        assert(whole.at(key@) == v);
                    }
                    return Some(v);
                }
                i = i + 1;
            }
            proof {
                assert(all.skip(i as int).len() == 0);
            }
            None
        },
        _ => None,
    }
}

} // verus!
