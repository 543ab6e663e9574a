use vstd::prelude::*;

use crate::order::{compare, json_cmp, key_cmp, key_cmp_exec, lemma_cmp_eq, lemma_key_cmp};
use crate::json::{
    kind_name,
    json_entries_of, jsons_of, lemma_json_entries_of, lemma_jsons_of, FromJsonError, Json, JsonValue,
    Number,
};

verus! {

/// The integer types that a flag value can have.
#[derive(Debug, Clone, Copy, PartialEq, Eq, Structural)]
pub enum IntKind {
    U8,
    I8,
    U16,
    I16,
    U32,
    I32,
    U64,
    I64,
    /// A `usize`, as on 64-bit targets.
    Usize,
    /// An `isize`, as on 64-bit targets.
    Isize,
}

/// The least value of an integer type that JSON reading accepts.
pub open spec fn int_min(k: IntKind) -> int {
    match k {
        IntKind::U8 | IntKind::U16 | IntKind::U32 | IntKind::U64 | IntKind::Usize => 0,
        IntKind::I8 => i8::MIN as int,
        IntKind::I16 => i16::MIN as int,
        IntKind::I32 => i32::MIN as int,
        IntKind::I64 | IntKind::Isize => i64::MIN as int,
    }
}

/// The greatest value of an integer type that JSON reading accepts: numbers are read through a
/// 64-bit signed integer, so no type goes beyond `i64::MAX`.
pub open spec fn int_max(k: IntKind) -> int {
    match k {
        IntKind::U8 => u8::MAX as int,
        IntKind::I8 => i8::MAX as int,
        IntKind::U16 => u16::MAX as int,
        IntKind::I16 => i16::MAX as int,
        IntKind::U32 => u32::MAX as int,
        IntKind::I32 => i32::MAX as int,
        IntKind::U64 | IntKind::I64 | IntKind::Usize | IntKind::Isize => i64::MAX as int,
    }
}

/// The type of a flag value. A value of each type is held as JSON, in the canonical form that
/// reading it with [`parse`] gives.
#[derive(Debug, PartialEq, Eq)]
pub enum ValueType {
    Bool,
    Int(IntKind),
    /// A 64-bit floating-point number: any JSON number, kept as it is.
    Float,
    /// Any string.
    Str,
    /// One of a fixed, ordered list of strings.
    Choice(Vec<String>),
    /// An ordered list.
    List(Box<ValueType>),
    /// A set, held in ascending order (see [`json_cmp`]) without repetition.
    SetOf(Box<ValueType>),
    /// A map from keys of the first type (`Str` or `Choice`) to values of the second, held in
    /// ascending order of keys (see [`key_cmp`]), each key once.
    MapOf(Box<ValueType>, Box<ValueType>),
    /// A value that may be absent (JSON `null`).
    Optional(Box<ValueType>),
}

/// The error of reading a string that is none of a type's choices.
#[derive(Debug, Clone, Copy, PartialEq, Eq, Structural)]
pub struct ParseError;

impl ParseError {
    /// The message of this error.
    pub fn message(&self) -> (r: String)
        ensures
            r@ == "Matching variant not found"@,
    {
        proof {
            reveal_strlit("Matching variant not found");
        }
        "Matching variant not found".to_string()
    }
}

/// Whether `s` is one of `choices`.
pub open spec fn is_choice(choices: Seq<String>, s: Seq<char>) -> bool {
    exists|i: int| 0 <= i < choices.len() && #[trigger] choices[i]@ == s
}

/// The order of set elements of type `t`: the order of [`json_cmp`].
pub open spec fn json_lt(t: ValueType, a: Json, b: Json) -> bool {
    json_cmp(t, a, b) == -1
}

/// The index of the first element of `s` that is not below `x`.
pub open spec fn first_not_below(t: ValueType, s: Seq<Json>, x: Json) -> nat
    decreases s.len(),
{
    if s.len() == 0 {
        0
    } else if json_lt(t, s[0], x) {
        1 + first_not_below(t, s.drop_first(), x)
    } else {
        0
    }
}

/// `s` with `x` put in its place, unless it is there already.
pub open spec fn insert_sorted(t: ValueType, s: Seq<Json>, x: Json) -> Seq<Json> {
    let i = first_not_below(t, s, x) as int;
    if i < s.len() && s[i] == x {
        s
    } else {
        s.insert(i, x)
    }
}

/// The elements of `s` in ascending order, each once.
pub open spec fn set_norm(t: ValueType, s: Seq<Json>) -> Seq<Json>
    decreases s.len(),
{
    if s.len() == 0 {
        Seq::empty()
    } else {
        insert_sorted(t, set_norm(t, s.drop_last()), s.last())
    }
}

/// Whether `s` is a key that a map with keys of type `k` accepts.
pub open spec fn key_ok(k: ValueType, s: Seq<char>) -> bool {
    match k {
        ValueType::Str => true,
        ValueType::Choice(cs) => is_choice(cs@, s),
        _ => false,
    }
}

/// The index of the first entry of `s` whose key is not below `key`, keys of type `k`.
pub open spec fn key_index(k: ValueType, s: Seq<(Seq<char>, Json)>, key: Seq<char>) -> nat
    decreases s.len(),
{
    if s.len() == 0 {
        0
    } else if key_cmp(k, s[0].0, key) == -1 {
        1 + key_index(k, s.drop_first(), key)
    } else {
        0
    }
}

/// `s` with the entry `(key, v)`: it replaces the value of an entry with key `key`, or goes in
/// its place in the order of keys of type `k`.
pub open spec fn upsert(k: ValueType, s: Seq<(Seq<char>, Json)>, key: Seq<char>, v: Json) -> Seq<
    (Seq<char>, Json),
> {
    let i = key_index(k, s, key) as int;
    if i < s.len() && s[i].0 == key {
        s.update(i, (key, v))
    } else {
        s.insert(i, (key, v))
    }
}

/// The entries of `s` in ascending order of keys of type `k`, each key once: a later entry's
/// value replaces an earlier one's.
pub open spec fn map_norm(k: ValueType, s: Seq<(Seq<char>, Json)>) -> Seq<(Seq<char>, Json)>
    decreases s.len(),
{
    if s.len() == 0 {
        Seq::empty()
    } else {
        let l = s.last();
        upsert(k, map_norm(k, s.drop_last()), l.0, l.1)
    }
}

/// What reading `j` as a value of type `t` gives, in canonical form, or `None` where it fails.
pub open spec fn parse_spec(t: ValueType, j: Json) -> Option<Json>
    decreases t, 0nat,
{
    match t {
        ValueType::Bool => match j {
            Json::Bool(_) => Some(j),
            _ => None,
        },
        ValueType::Int(k) => match j {
            Json::Int(n) => if int_min(k) <= n <= int_max(k) {
                Some(j)
            } else {
                None
            },
            _ => None,
        },
        ValueType::Float => match j {
            Json::Int(_) | Json::Float(_) => Some(j),
            _ => None,
        },
        ValueType::Str => match j {
            Json::Str(_) => Some(j),
            _ => None,
        },
        ValueType::Choice(cs) => match j {
            Json::Str(s) => if is_choice(cs@, s) {
                Some(j)
            } else {
                None
            },
            _ => None,
        },
        ValueType::List(e) => match j {
            Json::Array(items) => match parse_all(*e, items) {
                Some(p) => Some(Json::Array(p)),
                None => None,
            },
            _ => None,
        },
        ValueType::SetOf(e) => match j {
            Json::Array(items) => match parse_all(*e, items) {
                Some(p) => Some(Json::Array(set_norm(*e, p))),
                None => None,
            },
            _ => None,
        },
        ValueType::MapOf(k, e) => match j {
            Json::Object(entries) => match parse_entries(*k, *e, entries) {
                Some(p) => Some(Json::Object(map_norm(*k, p))),
                None => None,
            },
            _ => None,
        },
        ValueType::Optional(e) => match j {
            Json::Null => Some(Json::Null),
            _ => parse_spec(*e, j),
        },
    }
}

/// What reading each of `s` as a value of type `t` gives, or `None` where one fails.
pub open spec fn parse_all(t: ValueType, s: Seq<Json>) -> Option<Seq<Json>>
    decreases t, s.len() + 1,
{
    if s.len() == 0 {
        Some(Seq::empty())
    } else {
        match (parse_all(t, s.drop_last()), parse_spec(t, s.last())) {
            (Some(p), Some(x)) => Some(p.push(x)),
            _ => None,
        }
    }
}

/// What reading the value of each of `s` as a value of type `t` gives, keys kept, or `None`
/// where a key is not of type `k` or a value cannot be read.
pub open spec fn parse_entries(k: ValueType, t: ValueType, s: Seq<(Seq<char>, Json)>) -> Option<
    Seq<(Seq<char>, Json)>,
>
    decreases t, s.len() + 1,
{
    if s.len() == 0 {
        Some(Seq::empty())
    } else {
        match (parse_entries(k, t, s.drop_last()), parse_spec(t, s.last().1)) {
            (Some(p), Some(x)) => if key_ok(k, s.last().0) {
                Some(p.push((s.last().0, x)))
            } else {
                None
            },
            _ => None,
        }
    }
}

/// Whether `j` has the kind of JSON document that type `t` is read from: where it does not,
/// reading fails with `WrongKind`.
pub open spec fn kind_fits(t: ValueType, j: Json) -> bool
    decreases t,
{
    match t {
        ValueType::Bool => j is Bool,
        ValueType::Int(_) => j matches Json::Int(n) && i64::MIN <= n <= i64::MAX,
        ValueType::Float => j is Int || j is Float,
        ValueType::Str | ValueType::Choice(_) => j is Str,
        ValueType::List(_) | ValueType::SetOf(_) => j is Array,
        ValueType::MapOf(_, _) => j is Object,
        ValueType::Optional(e) => j is Null || kind_fits(*e, j),
    }
}

/// The kind of JSON document that type `t` is read from, as a `WrongKind` error names it.
pub open spec fn expected_kind(t: ValueType) -> Seq<char>
    decreases t,
{
    match t {
        ValueType::Bool => "Bool"@,
        ValueType::Int(_) => "Number::i64"@,
        ValueType::Float => "Number::f64"@,
        ValueType::Str | ValueType::Choice(_) => "String"@,
        ValueType::List(_) | ValueType::SetOf(_) => "Array"@,
        ValueType::MapOf(_, _) => "Object"@,
        ValueType::Optional(e) => expected_kind(*e),
    }
}

/// Whether `r` is a `WrongKind` error that names `expected` and the kind of `j`.
pub open spec fn is_wrong_kind(r: Result<JsonValue, FromJsonError>, expected: Seq<char>, j: Json) -> bool {
    r matches Err(FromJsonError::WrongKind { expected: e, actual: a }) && e@ == expected && a@
        == kind_name(j)
}

/// Whether reading `j` as a value of type `t` fails on `j` itself, and not on a part of it:
/// an integer out of the type's range, or a string that is none of the choices. Reading then
/// fails with `ParseError`.
pub open spec fn content_refused(t: ValueType, j: Json) -> bool
    decreases t,
{
    match t {
        ValueType::Int(k) => j matches Json::Int(n) && i64::MIN <= n <= i64::MAX && !(int_min(k)
            <= n <= int_max(k)),
        ValueType::Choice(cs) => j matches Json::Str(s) && !is_choice(cs@, s),
        ValueType::Optional(e) => !(j is Null) && content_refused(*e, j),
        _ => false,
    }
}


/// Reads a JSON integer, if it fits in `i64`.
fn json_int(v: &JsonValue) -> (r: Option<i64>)
    ensures
        match v@ {
            Json::Int(n) => if i64::MIN <= n <= i64::MAX {
                r == Some(n as i64)
            } else {
                r is None
            },
            _ => r is None,
        },
{
    match v {
        JsonValue::Number(Number::PosInt(n)) => if *n <= i64::MAX as u64 {
            Some(*n as i64)
        } else {
            None
        },
        JsonValue::Number(Number::NegInt(n)) => Some(*n),
        _ => None,
    }
}

/// The canonical JSON form of an integer.
pub fn int_json(n: i64) -> (r: JsonValue)
    ensures
        r@ == Json::Int(n as int),
{
    if n >= 0 {
        JsonValue::Number(Number::PosInt(n as u64))
    } else {
        JsonValue::Number(Number::NegInt(n))
    }
}

/// Whether `s` is one of `choices`.
fn find_choice(choices: &Vec<String>, s: &String) -> (r: bool)
    ensures
        r == is_choice(choices@, s@),
{
    let mut i: usize = 0;
    while i < choices.len()
        invariant
            0 <= i <= choices@.len(),
            forall|k: int| 0 <= k < i ==> choices@[k]@ != s@,
        decreases choices@.len() - i,
    {
        if choices[i] == *s {
            return true;
        }
        i += 1;
    }
    false
}

/// Reads `v` as an integer of kind `k`.
fn parse_int(k: IntKind, v: &JsonValue) -> (r: Result<JsonValue, FromJsonError>)
    ensures
        match parse_spec(ValueType::Int(k), v@) {
            Some(j) => r is Ok && r->Ok_0@ == j,
            None => r is Err,
        },
        !kind_fits(ValueType::Int(k), v@) ==> is_wrong_kind(r, "Number::i64"@, v@),
        content_refused(ValueType::Int(k), v@) ==> r matches Err(FromJsonError::ParseError { .. }),
{
    let n = match json_int(v) {
        Some(n) => n,
        None => {
            return Err(FromJsonError::wrong_kind("Number::i64", v));
        },
    };
    let (lo, hi): (i64, i64) = match k {
        IntKind::U8 => (0, u8::MAX as i64),
        IntKind::I8 => (i8::MIN as i64, i8::MAX as i64),
        IntKind::U16 => (0, u16::MAX as i64),
        IntKind::I16 => (i16::MIN as i64, i16::MAX as i64),
        IntKind::U32 => (0, u32::MAX as i64),
        IntKind::I32 => (i32::MIN as i64, i32::MAX as i64),
        IntKind::U64 => (0, i64::MAX),
        IntKind::I64 | IntKind::Isize => (i64::MIN, i64::MAX),
        IntKind::Usize => (0, i64::MAX),
    };
    if lo <= n && n <= hi {
        Ok(int_json(n))
    } else {
        Err(FromJsonError::parsing("out of range integral type conversion attempted".to_string()))
    }
}

pub proof fn lemma_first_not_below(t: ValueType, s: Seq<Json>, x: Json, i: int)
    requires
        0 <= i <= s.len(),
        forall|k: int| 0 <= k < i ==> json_lt(t, #[trigger] s[k], x),
        i == s.len() || !json_lt(t, s[i], x),
    ensures
        first_not_below(t, s, x) == i,
    decreases i,
{
    if i > 0 {
        assert(json_lt(t, s[0], x));
        assert forall|k: int| 0 <= k < i - 1 implies json_lt(t, #[trigger] s.drop_first()[k], x) by {
            assert(s.drop_first()[k] == s[k + 1]);
        }
        lemma_first_not_below(t, s.drop_first(), x, i - 1);
    }
}

/// Where every element of `s` is below `x`, `x` goes last.
pub proof fn lemma_first_not_below_all(t: ValueType, s: Seq<Json>, x: Json)
    requires
        forall|k: int| 0 <= k < s.len() ==> json_lt(t, #[trigger] s[k], x),
    ensures
        first_not_below(t, s, x) == s.len(),
{
    lemma_first_not_below(t, s, x, s.len() as int);
}

/// Puts `x` in its place in the ascending `s`, unless it is there already.
fn insert_sorted_exec(t: &ValueType, s: &mut Vec<JsonValue>, x: JsonValue)
    ensures
        jsons_of(final(s)@) == insert_sorted(*t, jsons_of(old(s)@), x@),
{
    let ghost js = jsons_of(s@);
    proof {
        lemma_jsons_of(s@);
    }
    let mut i: usize = 0;
    while i < s.len() && compare(t, &s[i], &x) == -1
        invariant
            0 <= i <= s@.len(),
            js == jsons_of(s@),
            js.len() == s@.len(),
            forall|k: int| 0 <= k < s@.len() ==> #[trigger] js[k] == s@[k]@,
            forall|k: int| 0 <= k < i ==> json_lt(*t, #[trigger] js[k], x@),
        decreases s@.len() - i,
    {
        i += 1;
    }
    proof {
        lemma_first_not_below(*t, js, x@, i as int);
    }
    if i < s.len() && compare(t, &s[i], &x) == 0 {
        proof {
            lemma_cmp_eq(*t, s@[i as int]@, x@);
        }
        return;
    }
    proof {
        if i < s.len() {
            lemma_cmp_eq(*t, s@[i as int]@, x@);
        }
    }
    let ghost x_model = x@;
    s.insert(i, x);
    proof {
        lemma_jsons_of(s@);
        assert(jsons_of(s@) =~= js.insert(i as int, x_model));
    }
}

/// The set of the values `items` of type `t`, in ascending order.
fn sorted_set(t: &ValueType, items: &Vec<JsonValue>) -> (r: Vec<JsonValue>)
    ensures
        jsons_of(r@) == set_norm(*t, jsons_of(items@)),
{
    let ghost js = jsons_of(items@);
    proof {
        lemma_jsons_of(items@);
    }
    let mut out: Vec<JsonValue> = Vec::new();
    let mut i: usize = 0;
    while i < items.len()
        invariant
            0 <= i <= items@.len(),
            js == jsons_of(items@),
            js.len() == items@.len(),
            forall|k: int| 0 <= k < items@.len() ==> #[trigger] js[k] == items@[k]@,
            jsons_of(out@) == set_norm(*t, js.take(i as int)),
        decreases items@.len() - i,
    {
        assert(js.take(i + 1).drop_last() =~= js.take(i as int));
        let x = items[i].copy();
        insert_sorted_exec(t, &mut out, x);
        i += 1;
    }
    assert(js.take(i as int) =~= js);
    out
}

proof fn lemma_key_index(k: ValueType, s: Seq<(Seq<char>, Json)>, key: Seq<char>, i: int)
    requires
        0 <= i <= s.len(),
        forall|j: int| 0 <= j < i ==> key_cmp(k, (#[trigger] s[j]).0, key) == -1,
        i == s.len() || key_cmp(k, s[i].0, key) != -1,
    ensures
        key_index(k, s, key) == i,
    decreases i,
{
    if i > 0 {
        assert(key_cmp(k, s[0].0, key) == -1);
        assert forall|j: int| 0 <= j < i - 1 implies key_cmp(k, (#[trigger] s.drop_first()[j]).0, key)
            == -1 by {
            assert(s.drop_first()[j] == s[j + 1]);
        }
        lemma_key_index(k, s.drop_first(), key, i - 1);
    }
}

/// Gives the entry with key `key` the value `v`, or adds the entry in its place.
fn upsert_exec(k: &ValueType, s: &mut Vec<(String, JsonValue)>, key: String, v: JsonValue)
    ensures
        json_entries_of(final(s)@) == upsert(*k, json_entries_of(old(s)@), key@, v@),
{
    let ghost es = json_entries_of(s@);
    proof {
        lemma_json_entries_of(s@);
    }
    let mut i: usize = 0;
    while i < s.len() && key_cmp_exec(k, &s[i].0, &key) == -1
        invariant
            0 <= i <= s@.len(),
            es == json_entries_of(s@),
            es.len() == s@.len(),
            forall|j: int| 0 <= j < s@.len() ==> #[trigger] es[j] == (s@[j].0@, s@[j].1@),
            forall|j: int| 0 <= j < i ==> key_cmp(*k, (#[trigger] es[j]).0, key@) == -1,
        decreases s@.len() - i,
    {
        i += 1;
    }
    proof {
        lemma_key_index(*k, es, key@, i as int);
    }
    let ghost entry = (key@, v@);
    if i < s.len() && s[i].0 == key {
        s.set(i, (key, v));
        proof {
            lemma_json_entries_of(s@);
            assert(json_entries_of(s@) =~= es.update(i as int, entry));
        }
    } else {
        s.insert(i, (key, v));
        proof {
            lemma_json_entries_of(s@);
            assert(json_entries_of(s@) =~= es.insert(i as int, entry));
        }
    }
}

/// Whether `key` is a key that a map with keys of type `k` accepts.
fn key_ok_exec(k: &ValueType, key: &String) -> (r: bool)
    ensures
        r == key_ok(*k, key@),
{
    match k {
        ValueType::Str => true,
        ValueType::Choice(cs) => find_choice(cs, key),
        _ => false,
    }
}

/// Reads the value of each of `entries` as a value of type `e`, stopping at the first that
/// fails, and orders them by key, each key once.
fn parse_map_entries(k: &ValueType, e: &ValueType, entries: &Vec<(String, JsonValue)>) -> (r:
    Result<Vec<(String, JsonValue)>, FromJsonError>)
    ensures
        match parse_entries(*k, *e, json_entries_of(entries@)) {
            Some(p) => r is Ok && json_entries_of(r->Ok_0@) == map_norm(*k, p),
            None => r is Err,
        },
    decreases e, 1nat,
{
    let ghost es = json_entries_of(entries@);
    proof {
        lemma_json_entries_of(entries@);
    }
    let ghost mut pe: Seq<(Seq<char>, Json)> = Seq::empty();
    let mut out: Vec<(String, JsonValue)> = Vec::new();
    let mut i: usize = 0;
    while i < entries.len()
        invariant
            0 <= i <= entries@.len(),
            es == json_entries_of(entries@),
            es.len() == entries@.len(),
            forall|j: int|
                0 <= j < entries@.len() ==> #[trigger] es[j] == (entries@[j].0@, entries@[j].1@),
            parse_entries(*k, *e, es.take(i as int)) == Some(pe),
            json_entries_of(out@) == map_norm(*k, pe),
        decreases entries@.len() - i,
    {
        assert(es.take(i + 1).drop_last() =~= es.take(i as int));
        assert(es.take(i + 1).last() == es[i as int]);
        if !key_ok_exec(k, &entries[i].0) {
            proof {
                if parse_entries(*k, *e, es) is Some {
                    lemma_parse_entries_prefix(*k, *e, es, i + 1);
                }
            }
            return Err(FromJsonError::parsing(ParseError.message()));
        }
        match parse(e, &entries[i].1) {
            Ok(x) => {
                proof {
                    let old_pe = pe;
                    pe = pe.push((es[i as int].0, x@));
                    assert(pe.drop_last() =~= old_pe);
                    assert(entries@[i as int].0@ == es[i as int].0);
                }
                let key = entries[i].0.clone();
                upsert_exec(k, &mut out, key, x);
            },
            Err(err) => {
                proof {
                    if parse_entries(*k, *e, es) is Some {
                        lemma_parse_entries_prefix(*k, *e, es, i + 1);
                    }
                }
                return Err(err);
            },
        }
        i += 1;
    }
    assert(es.take(i as int) =~= es);
    Ok(out)
}

/// Where the entries can be read, so can each prefix of them.
pub proof fn lemma_parse_entries_prefix(
    k: ValueType,
    t: ValueType,
    s: Seq<(Seq<char>, Json)>,
    n: int,
)
    requires
        0 <= n <= s.len(),
        parse_entries(k, t, s) is Some,
    ensures
        parse_entries(k, t, s.take(n)) is Some,
    decreases s.len(),
{
    if n == s.len() {
        assert(s.take(n) =~= s);
    } else {
        assert(s.drop_last().take(n) =~= s.take(n));
        lemma_parse_entries_prefix(k, t, s.drop_last(), n);
    }
}

/// Reads `v` as a value of type `t`, giving its canonical form.
pub fn parse(t: &ValueType, v: &JsonValue) -> (r: Result<JsonValue, FromJsonError>)
    ensures
        match parse_spec(*t, v@) {
            Some(j) => r is Ok && r->Ok_0@ == j,
            None => r is Err,
        },
        !kind_fits(*t, v@) ==> is_wrong_kind(r, expected_kind(*t), v@),
        content_refused(*t, v@) ==> r matches Err(FromJsonError::ParseError { .. }),
    decreases t, 0nat,
{
    match t {
        ValueType::Bool => match v {
            JsonValue::Bool(b) => Ok(JsonValue::Bool(*b)),
            _ => Err(FromJsonError::wrong_kind("Bool", v)),
        },
        ValueType::Int(k) => parse_int(*k, v),
        ValueType::Float => match v {
            JsonValue::Number(n) => Ok(JsonValue::Number(n.copy())),
            _ => Err(FromJsonError::wrong_kind("Number::f64", v)),
        },
        ValueType::Str => match v {
            JsonValue::String(s) => Ok(JsonValue::String(s.clone())),
            _ => Err(FromJsonError::wrong_kind("String", v)),
        },
        ValueType::Choice(cs) => match v {
            JsonValue::String(s) => if find_choice(cs, s) {
                Ok(JsonValue::String(s.clone()))
            } else {
                Err(FromJsonError::parsing(ParseError.message()))
            },
            _ => Err(FromJsonError::wrong_kind("String", v)),
        },
        ValueType::List(e) => match v {
            JsonValue::Array(items) => {
                let out = parse_items(e, items)?;
                Ok(JsonValue::Array(out))
            },
            _ => Err(FromJsonError::wrong_kind("Array", v)),
        },
        ValueType::SetOf(e) => match v {
            JsonValue::Array(items) => {
                let parsed = parse_items(e, items)?;
                proof {
                    lemma_jsons_of(parsed@);
                }
                Ok(JsonValue::Array(sorted_set(e, &parsed)))
            },
            _ => Err(FromJsonError::wrong_kind("Array", v)),
        },
        ValueType::MapOf(k, e) => match v {
            JsonValue::Object(entries) => {
                let out = parse_map_entries(k, e, entries)?;
                Ok(JsonValue::Object(out))
            },
            _ => Err(FromJsonError::wrong_kind("Object", v)),
        },
        ValueType::Optional(e) => match v {
            JsonValue::Null => Ok(JsonValue::Null),
            _ => parse(e, v),
        },
    }
}

/// Reads each of `items` as a value of type `e`, stopping at the first that fails.
fn parse_items(e: &ValueType, items: &Vec<JsonValue>) -> (r: Result<Vec<JsonValue>, FromJsonError>)
    ensures
        match parse_all(*e, jsons_of(items@)) {
            Some(p) => r is Ok && jsons_of(r->Ok_0@) == p,
            None => r is Err,
        },
    decreases e, 1nat,
{
    let ghost js = jsons_of(items@);
    proof {
        lemma_jsons_of(items@);
    }
    let mut out: Vec<JsonValue> = Vec::new();
    let mut i: usize = 0;
    while i < items.len()
        invariant
            0 <= i <= items@.len(),
            js == jsons_of(items@),
            js.len() == items@.len(),
            forall|k: int| 0 <= k < items@.len() ==> #[trigger] js[k] == items@[k]@,
            parse_all(*e, js.take(i as int)) == Some(jsons_of(out@)),
        decreases items@.len() - i,
    {
        let ghost before = out@;
        assert(js.take(i + 1).drop_last() =~= js.take(i as int));
        match parse(e, &items[i]) {
            Ok(x) => {
                out.push(x);
                assert(out@.drop_last() =~= before);
            },
            Err(err) => {
                proof {
                    assert(js.take(i + 1).last() == js[i as int]);
                    if parse_all(*e, js) is Some {
                        lemma_parse_all_prefix(*e, js, i + 1);
                    }
                }
                return Err(err);
            },
        }
        i += 1;
    }
    assert(js.take(i as int) =~= js);
    Ok(out)
}

/// Where a sequence can be read, so can each of its prefixes.
pub proof fn lemma_parse_all_prefix(t: ValueType, s: Seq<Json>, n: int)
    requires
        0 <= n <= s.len(),
        parse_all(t, s) is Some,
    ensures
        parse_all(t, s.take(n)) is Some,
    decreases s.len(),
{
    if n == s.len() {
        assert(s.take(n) =~= s);
    } else {
        assert(s.drop_last().take(n) =~= s.take(n));
        lemma_parse_all_prefix(t, s.drop_last(), n);
    }
}

} // verus!

