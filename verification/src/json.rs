use vstd::prelude::*;

verus! {

/// A JSON document as the library reads it.  Numbers are kept in the
/// decimal form in which the parser writes them back.
#[derive(Debug)]
pub enum Json {
    Null,
    Bool(bool),
    Number(String),
    Str(String),
    Array(Vec<Json>),
    Object(Vec<(String, Json)>),
}

/// The mathematical value of a JSON document.
pub enum JsonValue {
    Null,
    Bool(bool),
    Number(Seq<char>),
    Str(Seq<char>),
    Array(Seq<JsonValue>),
    Object(Seq<(Seq<char>, JsonValue)>),
}

/// The value of a document.
pub open spec fn json_view(j: Json) -> JsonValue
    decreases j,
{
    match j {
        Json::Null => JsonValue::Null,
        Json::Bool(b) => JsonValue::Bool(b),
        Json::Number(n) => JsonValue::Number(n@),
        Json::Str(s) => JsonValue::Str(s@),
        Json::Array(items) => JsonValue::Array(
            Seq::new(
                items@.len(),
                |i: int|
                    if 0 <= i < items@.len() {
                        json_view(items@[i])
                    } else {
                        JsonValue::Null
                    },
            ),
        ),
        Json::Object(fields) => JsonValue::Object(
            Seq::new(
                fields@.len(),
                |i: int|
                    if 0 <= i < fields@.len() {
                        (fields@[i].0@, json_view(fields@[i].1))
                    } else {
                        (Seq::empty(), JsonValue::Null)
                    },
            ),
        ),
    }
}

impl View for Json {
    type V = JsonValue;

    open spec fn view(&self) -> JsonValue {
        json_view(*self)
    }
}


/// Why a text is not read as JSON, after the categories of the parser.
#[derive(Clone, Copy, Debug)]
pub enum JsonError {
    Io,
    Syntax,
    Data,
    Eof,
}

/// `serde_json::Value`, the document that `serde_json` builds; opaque here.
#[verifier::external_type_specification]
#[verifier::external_body]
pub struct ExValue(serde_json::Value);

/// What `serde_json::from_str::<serde_json::Value>` gives for a text: the
/// document, or the category of its error.  The parser is a function of
/// the text alone.
pub uninterp spec fn parsed_json(text: Seq<char>) -> Result<JsonValue, JsonError>;

/// Carries a value that `serde_json` built over into the library's own
/// type, one variant for one variant; numbers are written back in the form
/// that `serde_json` gives them.  Nothing is claimed of it: `parse_value`
/// states what the two together give.
#[verifier::external_body]
fn json_of(v: serde_json::Value) -> Json {
    match v {
        serde_json::Value::Null => Json::Null,
        serde_json::Value::Bool(b) => Json::Bool(b),
        serde_json::Value::Number(n) => Json::Number(n.to_string()),
        serde_json::Value::String(s) => Json::Str(s),
        serde_json::Value::Array(a) => Json::Array(a.into_iter().map(json_of).collect()),
        serde_json::Value::Object(m) => Json::Object(m.into_iter().map(|(k, v)| (k, json_of(v))).collect()),
    }
}

/// Calls `serde_json::from_str::<serde_json::Value>`, carries the document
/// over, and gives an error by its category (`serde_json::Error::classify`).
/// Claimed: the result, document or category, is the one named by
/// `parsed_json` for this text.
#[verifier::external_body]
fn parse_value(text: &str) -> (r: Result<Json, JsonError>)
    ensures
        match r {
            Ok(j) => parsed_json(text@) == Ok::<JsonValue, JsonError>(j@),
            Err(k) => parsed_json(text@) == Err::<JsonValue, JsonError>(k),
        },
{
    match serde_json::from_str::<serde_json::Value>(text) {
        Ok(v) => Ok(json_of(v)),
        Err(e) => Err(match e.classify() {
            serde_json::error::Category::Io => JsonError::Io,
            serde_json::error::Category::Syntax => JsonError::Syntax,
            serde_json::error::Category::Data => JsonError::Data,
            serde_json::error::Category::Eof => JsonError::Eof,
        }),
    }
}

/// Reads a JSON text: the document, or why it is none.
pub fn parse_json(text: &str) -> (r: Result<Json, JsonError>)
    ensures
        match r {
            Ok(j) => parsed_json(text@) == Ok::<JsonValue, JsonError>(j@),
            Err(k) => parsed_json(text@) == Err::<JsonValue, JsonError>(k),
        },
{
    parse_value(text)
}

/// The `i`-th item of an array; `None` past its end or for another kind of
/// value (where `serde_json` indexing gives `null`).
pub open spec fn jv_at(v: JsonValue, i: int) -> Option<JsonValue> {
    match v {
        JsonValue::Array(items) => if 0 <= i < items.len() {
            Some(items[i])
        } else {
            None
        },
        _ => None,
    }
}

/// The value of the first field named `key`.
pub open spec fn jv_lookup(fields: Seq<(Seq<char>, JsonValue)>, key: Seq<char>) -> Option<JsonValue>
    decreases fields.len(),
{
    if fields.len() == 0 {
        None
    } else if fields[0].0 == key {
        Some(fields[0].1)
    } else {
        jv_lookup(fields.drop_first(), key)
    }
}

/// The field `key` of an object; `None` where it has none or for another
/// kind of value (where `serde_json` indexing gives `null`).
pub open spec fn jv_get(v: JsonValue, key: Seq<char>) -> Option<JsonValue> {
    match v {
        JsonValue::Object(fields) => jv_lookup(fields, key),
        _ => None,
    }
}

proof fn lemma_lookup_skip(fields: Seq<(Seq<char>, JsonValue)>, k: int, key: Seq<char>)
    requires
        0 <= k <= fields.len(),
        forall|j: int| 0 <= j < k ==> (#[trigger] fields[j]).0 != key,
    ensures
        jv_lookup(fields, key) == jv_lookup(fields.subrange(k, fields.len() as int), key),
    decreases k,
{
    if k > 0 {
        assert(fields[0].0 != key);
        let rest = fields.drop_first();
        assert forall|j: int| 0 <= j < k - 1 implies (#[trigger] rest[j]).0 != key by {
            assert(rest[j] == fields[j + 1]);
        }
        lemma_lookup_skip(rest, k - 1, key);
        assert(rest.subrange(k - 1, rest.len() as int) =~= fields.subrange(k, fields.len() as int));
    } else {
        assert(fields.subrange(0, fields.len() as int) =~= fields);
    }
}

impl Json {
    /// `self[i]`: the `i`-th item of an array.
    pub fn at(&self, i: usize) -> (r: Option<&Json>)
        ensures
            match r {
                Some(x) => jv_at(self@, i as int) == Some(x@),
                None => jv_at(self@, i as int) is None,
            },
    {
        match self {
            Json::Array(items) => {
                if i < items.len() {
                    Some(&items[i])
                } else {
                    None
                }
            },
            _ => None,
        }
    }

    /// `self[key]`: the field `key` of an object.
    pub fn get(&self, key: &str) -> (r: Option<&Json>)
        ensures
            match r {
                Some(x) => jv_get(self@, key@) == Some(x@),
                None => jv_get(self@, key@) is None,
            },
    {
        match self {
            Json::Object(fields) => {
                let ghost fv = match self@ {
                    JsonValue::Object(f) => f,
                    _ => Seq::empty(),
                };
                assert(fv.len() == fields@.len());
                let key_string = String::from_str(key);
                let mut k: usize = 0;
                while k < fields.len()
                    invariant
                        k <= fields@.len(),
                        fv.len() == fields@.len(),
                        self@ == JsonValue::Object(fv),
                        *self == Json::Object(*fields),
                        key_string@ == key@,
                        forall|j: int| 0 <= j < fv.len() ==> (#[trigger] fv[j]) == (fields@[j].0@, fields@[j].1@),
                        forall|j: int| 0 <= j < k ==> (#[trigger] fv[j]).0 != key@,
                    decreases fields@.len() - k,
                {
                    if fields[k].0 == key_string {
                        proof {
                            lemma_lookup_skip(fv, k as int, key@);
                            assert(fv.subrange(k as int, fv.len() as int)[0] == fv[k as int]);
                        }
                        return Some(&fields[k].1);
                    }
                    k = k + 1;
                }
                proof {
                    lemma_lookup_skip(fv, k as int, key@);
                }
                None
            },
            _ => None,
        }
    }

    /// The items, where `self` is an array.
    pub fn as_array(&self) -> (r: Option<&Vec<Json>>)
        ensures
            match r {
                Some(items) => self@ is Array && self@->Array_0.len() == items@.len() && forall|i: int|
                    0 <= i < items@.len() ==> (#[trigger] self@->Array_0[i]) == items@[i]@,
                None => !(self@ is Array),
            },
    {
        match self {
            Json::Array(items) => Some(items),
            _ => None,
        }
    }

    /// The text, where `self` is a string.
    pub fn as_str(&self) -> (r: Option<&String>)
        ensures
            match r {
                Some(s) => self@ == JsonValue::Str(s@),
                None => !(self@ is Str),
            },
    {
        match self {
            Json::Str(s) => Some(s),
            _ => None,
        }
    }
}

} // verus!
