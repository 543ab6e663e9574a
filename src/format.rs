use vstd::prelude::*;
use vstd::string::StringExecFns;

use crate::overview::{join, join_exec, texts};
use crate::value::{IntKind, ValueType};

verus! {

/// The strings that a string type accepts.
#[derive(Debug, PartialEq, Eq)]
pub enum StringFormatKind {
    /// Any string.
    Any,
    /// A string that matches, as a whole, this pattern (JavaScript regular expression syntax,
    /// in Unicode mode).
    Pattern(String),
    /// One of these strings.
    Choices(Vec<String>),
}

/// A description of a string type, with a tag for people to read.
#[derive(Debug, PartialEq, Eq)]
pub struct StringFormat {
    pub kind: StringFormatKind,
    pub tag: String,
}

/// The shape of a flag's values, for building forms and checking input without the type.
#[derive(Debug, PartialEq, Eq)]
pub enum SerializedFormatKind {
    Bool,
    Integer,
    Float,
    String(StringFormatKind),
    /// An ordered list of values of one shape.
    List(Box<SerializedFormatKind>),
    /// A set of values of one shape.
    SetOf(Box<SerializedFormatKind>),
    /// Values of one shape under string keys.
    MapOf(StringFormatKind, Box<SerializedFormatKind>),
    Optional(Box<SerializedFormatKind>),
}

/// A description of a flag type, with a tag for people to read.
#[derive(Debug, PartialEq, Eq)]
pub struct SerializedFormat {
    pub kind: SerializedFormatKind,
    pub tag: String,
}

/// Whether `k` describes the type `t`.
pub open spec fn describes(k: SerializedFormatKind, t: ValueType) -> bool
    decreases t,
{
    match (k, t) {
        (SerializedFormatKind::Bool, ValueType::Bool) => true,
        (SerializedFormatKind::Integer, ValueType::Int(_)) => true,
        (SerializedFormatKind::Float, ValueType::Float) => true,
        (SerializedFormatKind::String(StringFormatKind::Any), ValueType::Str) => true,
        (
            SerializedFormatKind::String(StringFormatKind::Choices(v)),
            ValueType::Choice(cs),
        ) => texts(v@) == texts(cs@),
        (SerializedFormatKind::List(a), ValueType::List(e)) => describes(*a, *e),
        (SerializedFormatKind::SetOf(a), ValueType::SetOf(e)) => describes(*a, *e),
        (SerializedFormatKind::MapOf(sk, a), ValueType::MapOf(k, e)) => describes_key(sk, *k)
            && describes(*a, *e),
        (SerializedFormatKind::Optional(a), ValueType::Optional(e)) => describes(*a, *e),
        _ => false,
    }
}

/// Whether `sk` describes the keys of type `k`: choices by their list, other keys as any
/// string.
pub open spec fn describes_key(sk: StringFormatKind, k: ValueType) -> bool {
    match (sk, k) {
        (StringFormatKind::Choices(v), ValueType::Choice(cs)) => texts(v@) == texts(cs@),
        (StringFormatKind::Any, k) => !(k is Choice),
        _ => false,
    }
}

/// The name of an integer type.
pub open spec fn int_tag(k: IntKind) -> Seq<char> {
    match k {
        IntKind::U8 => "u8"@,
        IntKind::I8 => "i8"@,
        IntKind::U16 => "u16"@,
        IntKind::I16 => "i16"@,
        IntKind::U32 => "u32"@,
        IntKind::I32 => "i32"@,
        IntKind::U64 => "u64"@,
        IntKind::I64 => "i64"@,
        IntKind::Usize => "usize"@,
        IntKind::Isize => "isize"@,
    }
}

/// The tag of the type `t`, as a Rust type would be written.
pub open spec fn tag_spec(t: ValueType) -> Seq<char>
    decreases t,
{
    match t {
        ValueType::Bool => "bool"@,
        ValueType::Int(k) => int_tag(k),
        ValueType::Float => "f64"@,
        ValueType::Str => "String"@,
        ValueType::Choice(cs) => "enum {"@ + join(texts(cs@)) + "}"@,
        ValueType::List(e) => "Vec<"@ + tag_spec(*e) + ">"@,
        ValueType::SetOf(e) => "Set<"@ + tag_spec(*e) + ">"@,
        ValueType::MapOf(k, e) => "Map<"@ + tag_spec(*k) + ", "@ + tag_spec(*e) + ">"@,
        ValueType::Optional(e) => "Option<"@ + tag_spec(*e) + ">"@,
    }
}

/// A copy of a list of strings.
fn copy_choices(v: &Vec<String>) -> (r: Vec<String>)
    ensures
        texts(r@) == texts(v@),
{
    let mut out: Vec<String> = Vec::new();
    let mut i: usize = 0;
    while i < v.len()
        invariant
            0 <= i <= v@.len(),
            out@.len() == i,
            forall|k: int| 0 <= k < i ==> (#[trigger] out@[k])@ == v@[k]@,
        decreases v@.len() - i,
    {
        out.push(v[i].clone());
        i += 1;
    }
    assert(texts(out@) =~= texts(v@));
    out
}

/// The name of an integer type.
fn int_tag_exec(k: IntKind) -> (r: &'static str)
    ensures
        r@ == int_tag(k),
{
    proof {
        reveal_strlit("u8");
        reveal_strlit("i8");
        reveal_strlit("u16");
        reveal_strlit("i16");
        reveal_strlit("u32");
        reveal_strlit("i32");
        reveal_strlit("u64");
        reveal_strlit("i64");
        reveal_strlit("usize");
        reveal_strlit("isize");
    }
    match k {
        IntKind::U8 => "u8",
        IntKind::I8 => "i8",
        IntKind::U16 => "u16",
        IntKind::I16 => "i16",
        IntKind::U32 => "u32",
        IntKind::I32 => "i32",
        IntKind::U64 => "u64",
        IntKind::I64 => "i64",
        IntKind::Usize => "usize",
        IntKind::Isize => "isize",
    }
}

/// `inner` between `open` and `close`.
fn enclose(open: &str, inner: &str, close: &str) -> (r: String)
    ensures
        r@ == open@ + inner@ + close@,
{
    let mut s = open.to_string();
    s.append(inner);
    s.append(close);
    s
}

/// The description of the type `t`.
pub fn serialized_format(t: &ValueType) -> (r: SerializedFormat)
    ensures
        describes(r.kind, *t),
        r.tag@ == tag_spec(*t),
    decreases t,
{
    proof {
        reveal_strlit("bool");
        reveal_strlit("f64");
        reveal_strlit("String");
        reveal_strlit("enum {");
        reveal_strlit("}");
        reveal_strlit("Vec<");
        reveal_strlit("Set<");
        reveal_strlit("Map<");
        reveal_strlit(", ");
        reveal_strlit("Option<");
        reveal_strlit(">");
    }
    match t {
        ValueType::Bool => SerializedFormat {
            kind: SerializedFormatKind::Bool,
            tag: "bool".to_string(),
        },
        ValueType::Int(k) => SerializedFormat {
            kind: SerializedFormatKind::Integer,
            tag: int_tag_exec(*k).to_string(),
        },
        ValueType::Float => SerializedFormat {
            kind: SerializedFormatKind::Float,
            tag: "f64".to_string(),
        },
        ValueType::Str => SerializedFormat {
            kind: SerializedFormatKind::String(StringFormatKind::Any),
            tag: "String".to_string(),
        },
        ValueType::Choice(cs) => {
            let names = join_exec(cs, cs.len());
            assert(texts(cs@).take(cs@.len() as int) =~= texts(cs@));
            SerializedFormat {
                kind: SerializedFormatKind::String(StringFormatKind::Choices(copy_choices(cs))),
                tag: enclose("enum {", names.as_str(), "}"),
            }
        },
        ValueType::List(e) => {
            let f = serialized_format(e);
            SerializedFormat {
                kind: SerializedFormatKind::List(Box::new(f.kind)),
                tag: enclose("Vec<", f.tag.as_str(), ">"),
            }
        },
        ValueType::SetOf(e) => {
            let f = serialized_format(e);
            SerializedFormat {
                kind: SerializedFormatKind::SetOf(Box::new(f.kind)),
                tag: enclose("Set<", f.tag.as_str(), ">"),
            }
        },
        ValueType::MapOf(k, e) => {
            let fk = serialized_format(k);
            let f = serialized_format(e);
            let key_kind = match &**k {
                ValueType::Choice(cs) => StringFormatKind::Choices(copy_choices(cs)),
                _ => StringFormatKind::Any,
            };
            let mut tag = enclose("Map<", fk.tag.as_str(), ", ");
            tag.append(f.tag.as_str());
            tag.append(">");
            SerializedFormat { kind: SerializedFormatKind::MapOf(key_kind, Box::new(f.kind)), tag }
        },
        ValueType::Optional(e) => {
            let f = serialized_format(e);
            SerializedFormat {
                kind: SerializedFormatKind::Optional(Box::new(f.kind)),
                tag: enclose("Option<", f.tag.as_str(), ">"),
            }
        },
    }
}

} // verus!
