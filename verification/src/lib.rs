//! A verified core for a game-item browser: a dynamically typed item-record
//! model, a catalog that is filtered and stably sorted by display name, a
//! case-insensitive substring query engine, and a detail projector that turns
//! one record into a structured rendering.

pub mod catalog;
pub mod detail;
pub mod load;
pub mod text;

use vstd::prelude::*;

verus! {

/// A dynamically typed JSON-like value, the open field model of one item
/// record. Numbers carry no payload: the browser never displays a numeric
/// leaf, it only needs to tell numbers apart from the other kinds.
pub enum JsonValue {
    Null,
    Bool(bool),
    Num,
    Str(String),
    Arr(Vec<JsonValue>),
    Obj(Vec<(String, JsonValue)>),
}

/// The value of the first field named `key`, if any.
pub open spec fn lookup_field(fields: Seq<(String, JsonValue)>, key: Seq<char>) -> Option<
    JsonValue,
>
    decreases fields.len(),
{
    if fields.len() == 0 {
        None
    } else if fields[0].0@ == key {
        Some(fields[0].1)
    } else {
        lookup_field(fields.drop_first(), key)
    }
}

/// The value of field `key` of a record; `None` when the record is not a
/// mapping or has no such field.
pub open spec fn spec_get(rec: JsonValue, key: Seq<char>) -> Option<JsonValue> {
    match rec {
        JsonValue::Obj(fields) => lookup_field(fields@, key),
        _ => None,
    }
}

/// The string value of field `key`; `None` when absent or not a string.
pub open spec fn spec_str_prop(rec: JsonValue, key: Seq<char>) -> Option<Seq<char>> {
    match spec_get(rec, key) {
        Some(JsonValue::Str(s)) => Some(s@),
        _ => None,
    }
}

/// The display name of a record: the string under the `name.str` path.
pub open spec fn spec_name(rec: JsonValue) -> Option<Seq<char>> {
    match spec_get(rec, "name"@) {
        Some(n) => spec_str_prop(n, "str"@),
        None => None,
    }
}

/// A record is named when its display name resolves and is non-empty; only
/// named records enter the catalog.
pub open spec fn spec_named(rec: JsonValue) -> bool {
    &&& spec_name(rec) is Some
    &&& spec_name(rec).unwrap().len() > 0
}

/// The display name of a named record.
pub open spec fn name_of(rec: JsonValue) -> Seq<char> {
    spec_name(rec).unwrap()
}

impl JsonValue {
    /// True when the value is an array.
    pub fn is_array(&self) -> (r: bool)
        ensures
            r == (self matches JsonValue::Arr(_)),
    {
        match self {
            JsonValue::Arr(_) => true,
            _ => false,
        }
    }

    /// True when the value is a string.
    pub fn is_string(&self) -> (r: bool)
        ensures
            r == (self matches JsonValue::Str(_)),
    {
        match self {
            JsonValue::Str(_) => true,
            _ => false,
        }
    }

    /// Checked field access: the first field of this mapping named `key`.
    pub fn get<'a>(&'a self, key: &str) -> (r: Option<&'a JsonValue>)
        ensures
            match r {
                Some(v) => spec_get(*self, key@) == Some(*v),
                None => spec_get(*self, key@) is None,
            },
    {
        match self {
            JsonValue::Obj(fields) => {
                proof {
                    assert(fields@.skip(0) =~= fields@);
                }
                let mut i: usize = 0;
                while i < fields.len()
                    invariant
                        i <= fields.len(),
                        spec_get(*self, key@) == lookup_field(fields@, key@),
                        lookup_field(fields@, key@) == lookup_field(fields@.skip(i as int), key@),
                    decreases fields.len() - i,
                {
                    if crate::text::str_eq(fields[i].0.as_str(), key) {
                        proof {
                            assert(fields@.skip(i as int)[0] == fields@[i as int]);
                            assert(lookup_field(fields@.skip(i as int), key@) == Some(
                                fields@[i as int].1,
                            ));
                        }
                        return Some(&fields[i].1);
                    }
                    proof {
                        assert(fields@.skip(i as int).drop_first() =~= fields@.skip(i + 1));
                        assert(fields@.skip(i as int)[0] == fields@[i as int]);
                    }
                    i += 1;
                }
                proof {
                    assert(fields@.skip(i as int) =~= Seq::<(String, JsonValue)>::empty());
                }
                None
            },
            _ => None,
        }
    }
}

/// The string value of one field of a record, cloned for display; `None`
/// when the field is absent or not a string.
pub fn get_property(data: &JsonValue, property: &str) -> (r: Option<String>)
    ensures
        match r {
            Some(s) => spec_str_prop(*data, property@) == Some(s@),
            None => spec_str_prop(*data, property@) is None,
        },
{
    match data.get(property) {
        Some(JsonValue::Str(s)) => Some(s.clone()),
        _ => None,
    }
}

/// The display name of an item record, read through the `name.str` path.
pub fn get_name(item: &JsonValue) -> (r: Option<String>)
    ensures
        match r {
            Some(s) => spec_name(*item) == Some(s@),
            None => spec_name(*item) is None,
        },
{
    match item.get("name") {
        Some(name) => get_property(name, "str"),
        None => None,
    }
}

} // verus!
