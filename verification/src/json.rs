//! JSON values as the TrueNAS API sends and receives them.
//!
//! Numbers are held as values of type `N`, which the caller chooses; the rules
//! here only carry them. An object keeps its members in order, and a lookup by
//! key finds the first member with that key.
use crate::text::str_eq;
use vstd::prelude::*;

verus! {

/// A JSON value.
#[derive(Debug)]
pub enum JsonValue<N> {
    Null,
    Bool(bool),
    Number(N),
    String(String),
    Array(Vec<JsonValue<N>>),
    Object(Vec<(String, JsonValue<N>)>),
}

/// Position `i` holds the first member of `fields` named `key`.
pub open spec fn is_first_field<N>(fields: Seq<(String, JsonValue<N>)>, key: Seq<char>, i: int) -> bool {
    &&& 0 <= i < fields.len()
    &&& fields[i].0@ == key
    &&& forall|j: int| 0 <= j < i ==> (#[trigger] fields[j]).0@ != key
}

/// The position of the first member of `fields` named `key`, or -1 where none is.
pub open spec fn first_field_index<N>(fields: Seq<(String, JsonValue<N>)>, key: Seq<char>) -> int {
    if exists|i: int| is_first_field(fields, key, i) {
        choose|i: int| is_first_field(fields, key, i)
    } else {
        -1
    }
}

/// The member of `v` named `key`, where `v` is an object that has one (what
/// `serde_json::Value::get` with a `&str` gives).
pub open spec fn json_get<N>(v: JsonValue<N>, key: Seq<char>) -> Option<JsonValue<N>> {
    match v {
        JsonValue::Object(fields) => {
            let i = first_field_index(fields@, key);
            if i >= 0 {
                Some(fields@[i].1)
            } else {
                None
            }
        },
        _ => None,
    }
}

/// The text of `v`, where `v` is a string.
pub open spec fn json_as_str<N>(v: JsonValue<N>) -> Option<Seq<char>> {
    match v {
        JsonValue::String(s) => Some(s@),
        _ => None,
    }
}

/// The text of the member `key` of `v`, where it is a string.
pub open spec fn json_get_str<N>(v: JsonValue<N>, key: Seq<char>) -> Option<Seq<char>> {
    match json_get(v, key) {
        Some(m) => json_as_str(m),
        None => None,
    }
}

proof fn lemma_first_field_unique<N>(fields: Seq<(String, JsonValue<N>)>, key: Seq<char>, i: int)
    requires
        is_first_field(fields, key, i),
    ensures
        first_field_index(fields, key) == i,
{
    let c = choose|c: int| is_first_field(fields, key, c);
    if c < i {
        assert(fields[c].0@ != key);
    } else if i < c {
        assert(fields[i].0@ != key);
    }
}

/// The position of the first member of `fields` named `key`.
pub fn find_field<N>(fields: &Vec<(String, JsonValue<N>)>, key: &str) -> (res: Option<usize>)
    ensures
        match res {
            Some(i) => first_field_index(fields@, key@) == i as int && i < fields@.len(),
            None => first_field_index(fields@, key@) == -1,
        },
{
    let n = fields.len();
    let mut i: usize = 0;
    while i < n
        invariant
            n == fields@.len(),
            i <= n,
            forall|j: int| 0 <= j < i ==> (#[trigger] fields@[j]).0@ != key@,
        decreases n - i,
    {
        if str_eq(fields[i].0.as_str(), key) {
            proof {
                lemma_first_field_unique(fields@, key@, i as int);
            }
            return Some(i);
        }
        i = i + 1;
    }
    proof {
        if exists|c: int| is_first_field(fields@, key@, c) {
            let c = choose|c: int| is_first_field(fields@, key@, c);
            assert(fields@[c].0@ != key@);
        }
    }
    None
}

impl<N> JsonValue<N> {
    /// The member named `key`, where this is an object that has one.
    pub fn get(&self, key: &str) -> (res: Option<&JsonValue<N>>)
        ensures
            match res {
                Some(m) => json_get(*self, key@) == Some(*m),
                None => json_get(*self, key@) is None,
            },
    {
        match self {
            JsonValue::Object(fields) => match find_field(fields, key) {
                Some(i) => Some(&fields[i].1),
                None => None,
            },
            _ => None,
        }
    }

    /// The member named `key`, taken out of this value.
    pub fn take(self, key: &str) -> (res: Option<JsonValue<N>>)
        ensures
            res == json_get(self, key@),
    {
        match self {
            JsonValue::Object(fields) => {
                let mut fields = fields;
                match find_field(&fields, key) {
                    Some(i) => {
                        let (_, v) = fields.remove(i);
                        Some(v)
                    },
                    None => None,
                }
            },
            _ => None,
        }
    }

    /// The text, where this is a string.
    pub fn as_str(&self) -> (res: Option<&String>)
        ensures
            match res {
                Some(s) => json_as_str(*self) == Some(s@),
                None => json_as_str(*self) is None,
            },
    {
        match self {
            JsonValue::String(s) => Some(s),
            _ => None,
        }
    }

    /// The flag, where this is a boolean.
    pub fn as_bool(&self) -> (res: Option<bool>)
        ensures
            res == match *self {
                JsonValue::Bool(b) => Some(b),
                _ => None::<bool>,
            },
    {
        match self {
            JsonValue::Bool(b) => Some(*b),
            _ => None,
        }
    }

    /// The text of the member named `key`, where it is a string.
    pub fn get_str(&self, key: &str) -> (res: Option<&String>)
        ensures
            match res {
                Some(s) => json_get_str(*self, key@) == Some(s@),
                None => json_get_str(*self, key@) is None,
            },
    {
        match self.get(key) {
            Some(m) => m.as_str(),
            None => None,
        }
    }
}

} // verus!
