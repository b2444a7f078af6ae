//! A JSON document as the library reads it.
//!
//! A number is held as decimal text that writes its value exactly (see
//! `crate::number`), so that what is computed from it is computed from the exact value.

use vstd::prelude::*;
use crate::text::same_text;

verus! {

/// A JSON value. An object keeps its members in document order.
pub enum Json {
    Null,
    Bool(bool),
    Number(String),
    Text(String),
    Array(Vec<Json>),
    Object(Vec<(String, Json)>),
}

/// `i` is the position of the first member named `key`.
pub open spec fn first_member(members: Seq<(String, Json)>, key: Seq<char>, i: int) -> bool {
    &&& 0 <= i < members.len()
    &&& members[i].0@ == key
    &&& forall|j: int| 0 <= j < i ==> (#[trigger] members[j]).0@ != key
}

/// The member `key` of an object (the first one, should the name repeat); nothing for
/// any other kind of value.
pub open spec fn member(v: Json, key: Seq<char>) -> Option<Json> {
    match v {
        Json::Object(members) => if exists|i: int| first_member(members@, key, i) {
            Some(members@[choose|i: int| first_member(members@, key, i)].1)
        } else {
            None
        },
        _ => None,
    }
}

/// The text of a string value.
pub open spec fn text_of(v: Option<Json>) -> Option<String> {
    match v {
        Some(Json::Text(s)) => Some(s),
        _ => None,
    }
}

/// The text of a number.
pub open spec fn number_of(v: Option<Json>) -> Option<String> {
    match v {
        Some(Json::Number(n)) => Some(n),
        _ => None,
    }
}

/// The elements of an array.
pub open spec fn elements_of(v: Option<Json>) -> Option<Seq<Json>> {
    match v {
        Some(Json::Array(a)) => Some(a@),
        _ => None,
    }
}

proof fn lemma_first_member_unique(members: Seq<(String, Json)>, key: Seq<char>, i: int, k: int)
    requires
        first_member(members, key, i),
        first_member(members, key, k),
    ensures
        i == k,
{
    if i < k {
        assert(members[i].0@ != key);
    } else if k < i {
        assert(members[k].0@ != key);
    }
}

impl Json {
    /// The member `key` of an object.
    pub fn get(&self, key: &str) -> (r: Option<&Json>)
        ensures
            r matches Some(x) ==> member(*self, key@) == Some(*x),
            r is None ==> member(*self, key@) is None,
    {
        match self {
            Json::Object(members) => {
                let mut i: usize = 0;
                while i < members.len()
                    invariant
                        *self == Json::Object(*members),
                        i <= members@.len(),
                        forall|j: int| 0 <= j < i ==> (#[trigger] members@[j]).0@ != key@,
                    decreases members@.len() - i,
                {
                    if same_text(members[i].0.as_str(), key) {
                        proof {
                            assert(first_member(members@, key@, i as int));
                            let k = choose|k: int| first_member(members@, key@, k);
                            lemma_first_member_unique(members@, key@, i as int, k);
                            assert(member(*self, key@) == Some(members@[i as int].1));
                        }
                        return Some(&members[i].1);
                    }
                    i += 1;
                }
                None
            },
            _ => None,
        }
    }

    /// The text of a string value.
    pub fn as_text(&self) -> (r: Option<&String>)
        ensures
            r matches Some(s) ==> text_of(Some(*self)) == Some(*s),
            r is None ==> text_of(Some(*self)) is None,
    {
        match self {
            Json::Text(s) => Some(s),
            _ => None,
        }
    }

    /// The text of a number.
    pub fn as_number(&self) -> (r: Option<&String>)
        ensures
            r matches Some(t) ==> number_of(Some(*self)) == Some(*t),
            r is None ==> number_of(Some(*self)) is None,
    {
        match self {
            Json::Number(n) => Some(n),
            _ => None,
        }
    }

    /// The elements of an array.
    pub fn as_array(&self) -> (r: Option<&Vec<Json>>)
        ensures
            r matches Some(a) ==> elements_of(Some(*self)) == Some(a@),
            r is None ==> elements_of(Some(*self)) is None,
    {
        match self {
            Json::Array(a) => Some(a),
            _ => None,
        }
    }
}

/// `serde_json::Value`, carried as an opaque value.
#[verifier::external_type_specification]
#[verifier::external_body]
pub struct ExJsonValue(serde_json::Value);

/// `serde_json::Number`, carried as an opaque value.
#[verifier::external_type_specification]
#[verifier::external_body]
pub struct ExJsonNumber(serde_json::Number);

/// What serde_json's parser reads in `text`, in the library's document model (a number
/// written as the exact decimal text of the value serde_json holds for it); when
/// serde_json refuses the text, its error message.
pub uninterp spec fn json_document(text: Seq<char>) -> Result<Json, Seq<char>>;

/// The exact decimal text of the value that serde_json holds for a number: an integer
/// as it is, a floating-point value with every digit of its binary value.
#[verifier::external_body]
fn number_text(n: &serde_json::Number) -> String {
    if n.is_i64() || n.is_u64() {
        n.to_string()
    } else {
        match n.as_f64() {
            Some(f) => format!("{:.1074}", f),
            None => n.to_string(),
        }
    }
}

/// serde_json's value, converted one for one into the library's document model.
#[verifier::external_body]
fn value_to_json(v: &serde_json::Value) -> Json {
    match v {
        serde_json::Value::Null => Json::Null,
        serde_json::Value::Bool(b) => Json::Bool(*b),
        serde_json::Value::Number(n) => Json::Number(number_text(n)),
        serde_json::Value::String(s) => Json::Text(s.clone()),
        serde_json::Value::Array(a) => Json::Array(a.iter().map(value_to_json).collect()),
        serde_json::Value::Object(m) => Json::Object(m.iter().map(|(k, x)| (k.clone(), value_to_json(x))).collect()),
    }
}

/// `serde_json::from_str::<serde_json::Value>`, with the value converted into the
/// library's document model and the error into its message. Trusted to return
/// `json_document(text@)`, a function of the text alone; which texts serde_json
/// accepts, and what it reads in them, is left unsaid.
#[verifier::external_body]
pub fn parse_json_text(text: &str) -> (r: Result<Json, String>)
    ensures
        json_document(text@) == match r {
            Ok(v) => Ok(v),
            Err(m) => Err(m@),
        },
{
    match serde_json::from_str::<serde_json::Value>(text) {
        Ok(v) => Ok(value_to_json(&v)),
        Err(e) => Err(e.to_string()),
    }
}

} // verus!
