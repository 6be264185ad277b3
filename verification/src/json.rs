//! A JSON document model that the library reads and builds.
//!
//! `Json` holds, as plain values, what a `serde_json::Value` holds; numbers
//! keep the three shapes that serde_json distinguishes (non-negative integer,
//! negative integer, float), a float by its decimal text. Text is turned into
//! a `Json` and back only through serde_json (see `parse_json` and
//! `json_to_text`); the accessors mirror serde_json's `get`, `as_str`,
//! `as_u64`, `as_i64`, `as_bool` and `as_array`.

use vstd::prelude::*;
use crate::assoc::{last_index, lemma_last_index, lemma_last_index_at};

verus! {

/// A JSON number, in the shape serde_json stores it.
pub enum JsonNumber {
    /// A non-negative integer.
    PosInt(u64),
    /// A negative integer.
    NegInt(i64),
    /// A finite float, by its decimal text.
    Float(String),
}

/// A JSON value.
pub enum Json {
    Null,
    Bool(bool),
    Number(JsonNumber),
    Str(String),
    Array(Vec<Json>),
    Object(Vec<(String, Json)>),
}

/// The mathematical model of a `JsonNumber`.
pub enum NumberModel {
    PosInt(u64),
    NegInt(i64),
    Float(Seq<char>),
}

/// The mathematical model of a `Json` value.
pub enum JsonModel {
    Null,
    Bool(bool),
    Number(NumberModel),
    Str(Seq<char>),
    Array(Seq<JsonModel>),
    Object(Seq<(Seq<char>, JsonModel)>),
}

impl View for JsonNumber {
    type V = NumberModel;

    open spec fn view(&self) -> NumberModel {
        match self {
            JsonNumber::PosInt(n) => NumberModel::PosInt(*n),
            JsonNumber::NegInt(n) => NumberModel::NegInt(*n),
            JsonNumber::Float(s) => NumberModel::Float(s@),
        }
    }
}

impl Json {
    /// The model of a value, taken recursively.
    pub open spec fn model(self) -> JsonModel
        decreases self,
    {
        match self {
            Json::Null => JsonModel::Null,
            Json::Bool(b) => JsonModel::Bool(b),
            Json::Number(n) => JsonModel::Number(n@),
            Json::Str(s) => JsonModel::Str(s@),
            Json::Array(a) => JsonModel::Array(
                Seq::new(
                    a.len() as nat,
                    |i: int|
                        if 0 <= i < a.len() {
                            a@[i].model()
                        } else {
                            JsonModel::Null
                        },
                ),
            ),
            Json::Object(o) => JsonModel::Object(
                Seq::new(
                    o.len() as nat,
                    |i: int|
                        if 0 <= i < o.len() {
                            (o@[i].0@, o@[i].1.model())
                        } else {
                            (Seq::empty(), JsonModel::Null)
                        },
                ),
            ),
        }
    }
}

impl View for Json {
    type V = JsonModel;

    open spec fn view(&self) -> JsonModel {
        self.model()
    }
}

/// The model of a sequence of key/value entries.
pub open spec fn entries_model(o: Seq<(String, Json)>) -> Seq<(Seq<char>, JsonModel)> {
    Seq::new(o.len(), |i: int| (o[i].0@, o[i].1@))
}

/// The model of a sequence of values.
pub open spec fn values_model(a: Seq<Json>) -> Seq<JsonModel> {
    Seq::new(a.len(), |i: int| a[i]@)
}

pub proof fn lemma_array_model(a: Vec<Json>)
    ensures
        Json::Array(a)@ == JsonModel::Array(values_model(a@)),
{
    let m = Json::Array(a).model();
    assert(m->Array_0 =~= values_model(a@));
}

pub proof fn lemma_object_model(o: Vec<(String, Json)>)
    ensures
        Json::Object(o)@ == JsonModel::Object(entries_model(o@)),
{
    let m = Json::Object(o).model();
    assert(m->Object_0 =~= entries_model(o@));
}

/// The value that a key maps to in an object's entries: that of the last
/// entry with the key, as a map built by inserting the entries in order has it.
pub open spec fn entries_get(entries: Seq<(Seq<char>, JsonModel)>, key: Seq<char>) -> Option<
    JsonModel,
> {
    let i = last_index(entries, key);
    if i >= 0 {
        Some(entries[i].1)
    } else {
        None
    }
}

impl JsonModel {
    /// `Value::get` with a string key: the member of an object, else nothing.
    pub open spec fn get(self, key: Seq<char>) -> Option<JsonModel> {
        match self {
            JsonModel::Object(entries) => entries_get(entries, key),
            _ => None,
        }
    }

    /// `Value::as_str`.
    pub open spec fn as_str(self) -> Option<Seq<char>> {
        match self {
            JsonModel::Str(s) => Some(s),
            _ => None,
        }
    }

    /// `Value::as_bool`.
    pub open spec fn as_bool(self) -> Option<bool> {
        match self {
            JsonModel::Bool(b) => Some(b),
            _ => None,
        }
    }

    /// `Value::as_u64`.
    pub open spec fn as_u64(self) -> Option<u64> {
        match self {
            JsonModel::Number(NumberModel::PosInt(n)) => Some(n),
            _ => None,
        }
    }

    /// `Value::as_i64`.
    pub open spec fn as_i64(self) -> Option<i64> {
        match self {
            JsonModel::Number(NumberModel::PosInt(n)) => if n <= i64::MAX as u64 {
                Some(n as i64)
            } else {
                None
            },
            JsonModel::Number(NumberModel::NegInt(n)) => Some(n),
            _ => None,
        }
    }

    /// `Value::as_array`.
    pub open spec fn as_array(self) -> Option<Seq<JsonModel>> {
        match self {
            JsonModel::Array(a) => Some(a),
            _ => None,
        }
    }

    /// `Value::as_object`.
    pub open spec fn as_object(self) -> Option<Seq<(Seq<char>, JsonModel)>> {
        match self {
            JsonModel::Object(o) => Some(o),
            _ => None,
        }
    }
}

/// `v.get(key)` on an optional value.
pub open spec fn opt_get(v: Option<JsonModel>, key: Seq<char>) -> Option<JsonModel> {
    match v {
        Some(v) => v.get(key),
        None => None,
    }
}

/// `v.and_then(as_str)`.
pub open spec fn opt_str(v: Option<JsonModel>) -> Option<Seq<char>> {
    match v {
        Some(v) => v.as_str(),
        None => None,
    }
}

/// `v.and_then(as_u64)`.
pub open spec fn opt_u64(v: Option<JsonModel>) -> Option<u64> {
    match v {
        Some(v) => v.as_u64(),
        None => None,
    }
}

/// `v.and_then(as_i64)`.
pub open spec fn opt_i64(v: Option<JsonModel>) -> Option<i64> {
    match v {
        Some(v) => v.as_i64(),
        None => None,
    }
}

/// `v.and_then(as_bool)`.
pub open spec fn opt_bool(v: Option<JsonModel>) -> Option<bool> {
    match v {
        Some(v) => v.as_bool(),
        None => None,
    }
}

/// `v.and_then(as_array)`.
pub open spec fn opt_array(v: Option<JsonModel>) -> Option<Seq<JsonModel>> {
    match v {
        Some(v) => v.as_array(),
        None => None,
    }
}

/// `v.and_then(as_u64).unwrap_or(0)`.
pub open spec fn u64_or_zero(v: Option<JsonModel>) -> u64 {
    match opt_u64(v) {
        Some(n) => n,
        None => 0,
    }
}

/// The model of an optional reference to a value.
pub open spec fn opt_model(v: Option<&Json>) -> Option<JsonModel> {
    match v {
        Some(j) => Some(j@),
        None => None,
    }
}

/// The model of an optional value.
pub open spec fn opt_json_model(v: Option<Json>) -> Option<JsonModel> {
    match v {
        Some(j) => Some(j@),
        None => None,
    }
}

/// Does the text equal the literal?
pub fn str_eq(a: &str, b: &str) -> (r: bool)
    ensures
        r == (a@ == b@),
{
    let n = a.unicode_len();
    let m = b.unicode_len();
    if n != m {
        return false;
    }
    let mut i: usize = 0;
    while i < n
        invariant
            n == a@.len(),
            m == b@.len(),
            n == m,
            i <= n,
            forall|j: int| 0 <= j < i ==> a@[j] == b@[j],
        decreases n - i,
    {
        if a.get_char(i) != b.get_char(i) {
            return false;
        }
        i = i + 1;
    }
    assert(a@ =~= b@);
    true
}

impl Json {
    /// `Value::get(key)`: the member of an object with that key, else nothing.
    pub fn get(&self, key: &str) -> (r: Option<&Json>)
        ensures
            opt_model(r) == self@.get(key@),
    {
        match self {
            Json::Object(entries) => {
                proof {
                    lemma_object_model(*entries);
                }
                let ghost em = entries_model(entries@);
                let mut i = entries.len();
                while i > 0
                    invariant
                        i <= entries.len(),
                        em == entries_model(entries@),
                        self@ == JsonModel::Object(em),
                        forall|j: int| i <= j < entries.len() ==> em[j].0 != key@,
                    decreases i,
                {
                    let e = &entries[i - 1];
                    if str_eq(e.0.as_str(), key) {
                        proof {
                            lemma_last_index(em, key@);
                            lemma_last_index_at(em, key@, i - 1);
                        }
                        return Some(&e.1);
                    }
                    i = i - 1;
                }
                proof {
                    lemma_last_index(em, key@);
                    if last_index(em, key@) >= 0 {
                        assert(em[last_index(em, key@)].0 == key@);
                    }
                }
                None
            },
            _ => None,
        }
    }

    /// `Value::as_str`.
    pub fn as_str(&self) -> (r: Option<&str>)
        ensures
            match r {
                Some(s) => self@.as_str() == Some(s@),
                None => self@.as_str() is None,
            },
    {
        match self {
            Json::Str(s) => Some(s.as_str()),
            _ => None,
        }
    }

    /// `Value::as_bool`.
    pub fn as_bool(&self) -> (r: Option<bool>)
        ensures
            r == self@.as_bool(),
    {
        match self {
            Json::Bool(b) => Some(*b),
            _ => None,
        }
    }

    /// `Value::as_u64`.
    pub fn as_u64(&self) -> (r: Option<u64>)
        ensures
            r == self@.as_u64(),
    {
        match self {
            Json::Number(JsonNumber::PosInt(n)) => Some(*n),
            _ => None,
        }
    }

    /// `Value::as_i64`.
    pub fn as_i64(&self) -> (r: Option<i64>)
        ensures
            r == self@.as_i64(),
    {
        match self {
            Json::Number(JsonNumber::PosInt(n)) => {
                if *n <= i64::MAX as u64 {
                    Some(*n as i64)
                } else {
                    None
                }
            },
            Json::Number(JsonNumber::NegInt(n)) => Some(*n),
            _ => None,
        }
    }

    /// `Value::as_array`.
    pub fn as_array(&self) -> (r: Option<&Vec<Json>>)
        ensures
            match r {
                Some(a) => self@.as_array() == Some(values_model(a@)),
                None => self@.as_array() is None,
            },
    {
        match self {
            Json::Array(a) => {
                proof {
                    lemma_array_model(*a);
                }
                Some(a)
            },
            _ => None,
        }
    }

    /// A copy of the value with the same model.
    pub fn deep_clone(&self) -> (r: Json)
        ensures
            r@ == self@,
        decreases self,
    {
        match self {
            Json::Null => Json::Null,
            Json::Bool(b) => Json::Bool(*b),
            Json::Number(JsonNumber::PosInt(n)) => Json::Number(JsonNumber::PosInt(*n)),
            Json::Number(JsonNumber::NegInt(n)) => Json::Number(JsonNumber::NegInt(*n)),
            Json::Number(JsonNumber::Float(s)) => Json::Number(JsonNumber::Float(s.clone())),
            Json::Str(s) => Json::Str(s.clone()),
            Json::Array(a) => {
                let mut out: Vec<Json> = Vec::new();
                let mut i: usize = 0;
                while i < a.len()
                    invariant
                        i <= a.len(),
                        out.len() == i,
                        forall|j: int| 0 <= j < i ==> out@[j]@ == a@[j]@,
                        *self == Json::Array(*a),
                    decreases a.len() - i,
                {
                    proof {
                        assert(decreases_to!(*a => a[i as int]));
                        assert(decreases_to!(*self => (*self)->Array_0));
                        assert(decreases_to!(*self => a[i as int]));
                    }
                    let c = a[i].deep_clone();
                    out.push(c);
                    i = i + 1;
                }
                proof {
                    lemma_array_model(*a);
                    lemma_array_model(out);
                    assert(values_model(out@) =~= values_model(a@));
                }
                Json::Array(out)
            },
            Json::Object(o) => {
                let mut out: Vec<(String, Json)> = Vec::new();
                let mut i: usize = 0;
                while i < o.len()
                    invariant
                        i <= o.len(),
                        out.len() == i,
                        forall|j: int| 0 <= j < i ==> out@[j].0@ == o@[j].0@ && out@[j].1@ == o@[j].1@,
                        *self == Json::Object(*o),
                    decreases o.len() - i,
                {
                    proof {
                        assert(decreases_to!(*o => o[i as int]));
                        assert(decreases_to!(*self => (*self)->Object_0));
                        assert(decreases_to!(o[i as int] => o[i as int].1));
                        assert(decreases_to!(*self => o[i as int].1));
                    }
                    let k = o[i].0.clone();
                    let v = o[i].1.deep_clone();
                    out.push((k, v));
                    i = i + 1;
                }
                proof {
                    lemma_object_model(*o);
                    lemma_object_model(out);
                    assert(entries_model(out@) =~= entries_model(o@));
                }
                Json::Object(out)
            },
        }
    }
}

} // verus!
