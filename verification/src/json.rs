//! A JSON document as plain values, and the accessors the scraper uses on
//! it, with the meaning of `serde_json::Value`'s `get`, `as_str`, `as_i64`,
//! `as_array` and `as_object`.
use vstd::prelude::*;

verus! {

/// A JSON number: its value as an `i64` when it is an integer in range, and
/// the text a floating-point rendering of it prints as.
#[derive(Debug)]
pub struct JsonNumber {
    pub int: Option<i64>,
    pub text: String,
}

/// A JSON value.  An object lists its members with distinct keys.
#[derive(Debug)]
pub enum Json {
    Null,
    Bool(bool),
    Number(JsonNumber),
    Text(String),
    Array(Vec<Json>),
    Object(Vec<(String, Json)>),
}

/// Whether `i` is the first member of `members` whose key is `key`.
pub open spec fn is_first_key(members: Seq<(String, Json)>, key: Seq<char>, i: int) -> bool {
    &&& 0 <= i < members.len()
    &&& members[i].0@ == key
    &&& forall|j: int| 0 <= j < i ==> (#[trigger] members[j]).0@ != key
}

/// The member value stored under `key`, for an object; nothing for any
/// other value.
pub open spec fn json_get(v: Json, key: Seq<char>) -> Option<Json> {
    match v {
        Json::Object(members) => if exists|i: int| is_first_key(members@, key, i) {
            Some(members@[choose|i: int| is_first_key(members@, key, i)].1)
        } else {
            None
        },
        _ => None,
    }
}

proof fn lemma_first_key_unique(members: Seq<(String, Json)>, key: Seq<char>, a: int, b: int)
    requires
        is_first_key(members, key, a),
        is_first_key(members, key, b),
    ensures
        a == b,
{
    if a < b {
        assert(members[a].0@ != key);
    } else if b < a {
        assert(members[b].0@ != key);
    }
}

impl Json {
    /// The member stored under `key`, as `Value::get` with a string key.
    pub fn get(&self, key: &str) -> (r: Option<&Json>)
        ensures
            match json_get(*self, key@) {
                Some(x) => r is Some && *(r->0) == x,
                None => r is None,
            },
    {
        match self {
            Json::Object(members) => {
                let wanted = String::from_str(key);
                let mut i: usize = 0;
                while i < members.len()
                    invariant
                        i <= members.len(),
                        wanted@ == key@,
                        *self == Json::Object(*members),
                        forall|j: int| 0 <= j < i ==> (#[trigger] members@[j]).0@ != key@,
                    decreases members.len() - i,
                {
                    if members[i].0 == wanted {
                        proof {
                            assert(is_first_key(members@, key@, i as int));
                            let c = choose|c: int| is_first_key(members@, key@, c);
                            lemma_first_key_unique(members@, key@, i as int, c);
                            assert(json_get(*self, key@) == Some(members@[i as int].1));
                        }
                        return Some(&members[i].1);
                    }
                    i = i + 1;
                }
                proof {
                    assert forall|c: int| !is_first_key(members@, key@, c) by {
                        if 0 <= c < members.len() {
                            assert(members@[c].0@ != key@);
                        }
                    }
                }
                None
            },
            _ => None,
        }
    }

    /// The text of a string value, as `Value::as_str`.
    pub fn as_str(&self) -> (r: Option<&String>)
        ensures
            match *self {
                Json::Text(s) => r is Some && *(r->0) == s,
                _ => r is None,
            },
    {
        match self {
            Json::Text(s) => Some(s),
            _ => None,
        }
    }

    /// The value of an integer number that fits an `i64`, as `Value::as_i64`.
    pub fn as_i64(&self) -> (r: Option<i64>)
        ensures
            r == json_i64(*self),
    {
        match self {
            Json::Number(n) => n.int,
            _ => None,
        }
    }

    /// The rendering of a number as a floating-point value, where
    /// `Value::as_f64` would give one.
    pub fn as_f64_text(&self) -> (r: Option<&String>)
        ensures
            match *self {
                Json::Number(n) => r is Some && *(r->0) == n.text,
                _ => r is None,
            },
    {
        match self {
            Json::Number(n) => Some(&n.text),
            _ => None,
        }
    }

    /// The elements of an array, as `Value::as_array`.
    pub fn as_array(&self) -> (r: Option<&Vec<Json>>)
        ensures
            match *self {
                Json::Array(items) => r is Some && *(r->0) == items,
                _ => r is None,
            },
    {
        match self {
            Json::Array(items) => Some(items),
            _ => None,
        }
    }

    /// Whether the value is an object, as `Value::as_object(..).is_some()`.
    pub fn is_object(&self) -> (r: bool)
        ensures
            r == (*self is Object),
    {
        match self {
            Json::Object(_) => true,
            _ => false,
        }
    }
}

/// The `i64` value of an integer number.
pub open spec fn json_i64(v: Json) -> Option<i64> {
    match v {
        Json::Number(n) => n.int,
        _ => None,
    }
}

} // verus!
