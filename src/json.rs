use vstd::prelude::*;

verus! {

/// A JSON number as it is held: a non-negative integer, a negative integer, or any other number,
/// kept as its decimal text.
#[derive(Debug, PartialEq)]
pub enum Number {
    PosInt(u64),
    NegInt(i64),
    Float(String),
}

/// A JSON document.
#[derive(Debug, PartialEq)]
pub enum JsonValue {
    Null,
    Bool(bool),
    Number(Number),
    String(String),
    Array(Vec<JsonValue>),
    Object(Vec<(String, JsonValue)>),
}

/// The mathematical model of a JSON document.
pub enum Json {
    Null,
    Bool(bool),
    Int(int),
    Float(Seq<char>),
    Str(Seq<char>),
    Array(Seq<Json>),
    Object(Seq<(Seq<char>, Json)>),
}

/// The model of one JSON document.
pub open spec fn json_of(v: JsonValue) -> Json
    decreases v, 0nat,
{
    match v {
        JsonValue::Null => Json::Null,
        JsonValue::Bool(b) => Json::Bool(b),
        JsonValue::Number(Number::PosInt(n)) => Json::Int(n as int),
        JsonValue::Number(Number::NegInt(n)) => Json::Int(n as int),
        JsonValue::Number(Number::Float(s)) => Json::Float(s@),
        JsonValue::String(s) => Json::Str(s@),
        JsonValue::Array(items) => Json::Array(jsons_of(items@)),
        JsonValue::Object(entries) => Json::Object(json_entries_of(entries@)),
    }
}

/// The models of a sequence of JSON documents.
pub open spec fn jsons_of(s: Seq<JsonValue>) -> Seq<Json>
    decreases s, 1nat,
{
    if s.len() == 0 {
        Seq::empty()
    } else {
        jsons_of(s.drop_last()).push(json_of(s.last()))
    }
}

/// The models of the entries of a JSON object.
pub open spec fn json_entries_of(s: Seq<(String, JsonValue)>) -> Seq<(Seq<char>, Json)>
    decreases s, 1nat,
{
    if s.len() == 0 {
        Seq::empty()
    } else {
        json_entries_of(s.drop_last()).push((s.last().0@, json_of(s.last().1)))
    }
}

impl View for JsonValue {
    type V = Json;

    open spec fn view(&self) -> Json {
        json_of(*self)
    }
}

/// The models of a sequence are the models of its elements.
pub proof fn lemma_jsons_of(s: Seq<JsonValue>)
    ensures
        jsons_of(s).len() == s.len(),
        forall|i: int| 0 <= i < s.len() ==> #[trigger] jsons_of(s)[i] == json_of(s[i]),
    decreases s.len(),
{
    if s.len() > 0 {
        lemma_jsons_of(s.drop_last());
    }
}

/// The models of a sequence of entries are the models of the entries.
pub proof fn lemma_json_entries_of(s: Seq<(String, JsonValue)>)
    ensures
        json_entries_of(s).len() == s.len(),
        forall|i: int|
            0 <= i < s.len() ==> #[trigger] json_entries_of(s)[i] == (s[i].0@, json_of(s[i].1)),
    decreases s.len(),
{
    if s.len() > 0 {
        lemma_json_entries_of(s.drop_last());
    }
}

impl Number {
    /// A copy of this number.
    pub fn copy(&self) -> (r: Number)
        ensures
            r == *self,
    {
        match self {
            Number::PosInt(n) => Number::PosInt(*n),
            Number::NegInt(n) => Number::NegInt(*n),
            Number::Float(s) => Number::Float(s.clone()),
        }
    }
}

impl JsonValue {
    /// A copy of this document.
    pub fn copy(&self) -> (r: JsonValue)
        ensures
            r@ == self@,
        decreases self,
    {
        match self {
            JsonValue::Null => JsonValue::Null,
            JsonValue::Bool(b) => JsonValue::Bool(*b),
            JsonValue::Number(n) => JsonValue::Number(n.copy()),
            JsonValue::String(s) => JsonValue::String(s.clone()),
            JsonValue::Array(items) => {
                proof {
                    lemma_jsons_of(items@);
                }
                let mut out: Vec<JsonValue> = Vec::new();
                let mut i: usize = 0;
                while i < items.len()
                    invariant
                        0 <= i <= items@.len(),
                        *self == JsonValue::Array(*items),
                        out@.len() == i,
                        forall|k: int| 0 <= k < i ==> (#[trigger] out@[k])@ == items@[k]@,
                    decreases items@.len() - i,
                {
                    proof {
                        assert((*self)->Array_0 == *items);
                        assert(decreases_to!(*self => (*self)->Array_0));
                        assert(decreases_to!(*items => items@));
                        assert(decreases_to!(items@ => items@[i as int]));
                    }
                    out.push(items[i].copy());
                    i += 1;
                }
                proof {
                    lemma_jsons_of(out@);
                    assert(jsons_of(out@) =~= jsons_of(items@));
                }
                JsonValue::Array(out)
            },
            JsonValue::Object(entries) => {
                proof {
                    lemma_json_entries_of(entries@);
                }
                let mut out: Vec<(String, JsonValue)> = Vec::new();
                let mut i: usize = 0;
                while i < entries.len()
                    invariant
                        0 <= i <= entries@.len(),
                        *self == JsonValue::Object(*entries),
                        out@.len() == i,
                        forall|k: int|
                            0 <= k < i ==> (#[trigger] out@[k]).0@ == entries@[k].0@ && out@[k].1@
                                == entries@[k].1@,
                    decreases entries@.len() - i,
                {
                    proof {
                        assert((*self)->Object_0 == *entries);
                        assert(decreases_to!(*self => (*self)->Object_0));
                        assert(decreases_to!(*entries => entries@));
                        assert(decreases_to!(entries@ => entries@[i as int]));
                        assert(decreases_to!(entries@[i as int] => entries@[i as int].1));
                    }
                    let value = entries[i].1.copy();
                    out.push((entries[i].0.clone(), value));
                    i += 1;
                }
                proof {
                    lemma_json_entries_of(out@);
                    assert(json_entries_of(out@) =~= json_entries_of(entries@));
                }
                JsonValue::Object(out)
            },
        }
    }
}

/// The name of a JSON document's kind.
pub open spec fn kind_name(j: Json) -> Seq<char> {
    match j {
        Json::Null => "Null"@,
        Json::Bool(_) => "Bool"@,
        Json::Int(_) | Json::Float(_) => "Number"@,
        Json::Str(_) => "String"@,
        Json::Array(_) => "Array"@,
        Json::Object(_) => "Object"@,
    }
}

/// Why a value could not be read from JSON.
#[derive(Debug, Clone, PartialEq, Eq)]
pub enum FromJsonError {
    /// The document is of another kind than the one expected.
    WrongKind { expected: String, actual: String },
    /// The document is of the expected kind, but its content is not accepted.
    ParseError { cause: String },
}

impl FromJsonError {
    /// A `ParseError` with the given cause.
    pub fn parsing(cause: String) -> (r: FromJsonError)
        ensures
            r == (FromJsonError::ParseError { cause }),
    {
        FromJsonError::ParseError { cause }
    }

    /// A `WrongKind` error for the document `actual`.
    pub fn wrong_kind(expected: &str, actual: &JsonValue) -> (r: FromJsonError)
        ensures
            r matches FromJsonError::WrongKind { expected: e, actual: a } && e@ == expected@ && a@
                == kind_name(actual@),
    {
        FromJsonError::WrongKind {
            expected: expected.to_string(),
            actual: json_kind(actual).to_string(),
        }
    }
}

/// The name of the kind of a JSON document.
pub fn json_kind(v: &JsonValue) -> (r: &'static str)
    ensures
        r@ == kind_name(v@),
{
    proof {
        reveal_strlit("Null");
        reveal_strlit("Bool");
        reveal_strlit("Number");
        reveal_strlit("String");
        reveal_strlit("Array");
        reveal_strlit("Object");
    }
    match v {
        JsonValue::Null => "Null",
        JsonValue::Bool(_) => "Bool",
        JsonValue::Number(_) => "Number",
        JsonValue::String(_) => "String",
        JsonValue::Array(_) => "Array",
        JsonValue::Object(_) => "Object",
    }
}

} // verus!
