use feattle::format::{serialized_format, SerializedFormatKind, StringFormatKind};
use feattle::json::{FromJsonError, JsonValue, Number};
use feattle::overview::overview;
use feattle::value::{parse, IntKind, ValueType};

fn num(n: i64) -> JsonValue {
    if n >= 0 {
        JsonValue::Number(Number::PosInt(n as u64))
    } else {
        JsonValue::Number(Number::NegInt(n))
    }
}

fn uint(n: u64) -> JsonValue {
    JsonValue::Number(Number::PosInt(n))
}

fn float(text: &str) -> JsonValue {
    JsonValue::Number(Number::Float(text.to_string()))
}

fn text(s: &str) -> JsonValue {
    JsonValue::String(s.to_string())
}

fn ints(ns: &[i64]) -> JsonValue {
    JsonValue::Array(ns.iter().map(|n| num(*n)).collect())
}

fn object(entries: Vec<(&str, JsonValue)>) -> JsonValue {
    JsonValue::Object(entries.into_iter().map(|(k, v)| (k.to_string(), v)).collect())
}

fn list_of(t: ValueType) -> ValueType {
    ValueType::List(Box::new(t))
}

fn set_of(t: ValueType) -> ValueType {
    ValueType::SetOf(Box::new(t))
}

fn map_of(t: ValueType) -> ValueType {
    ValueType::MapOf(Box::new(ValueType::Str), Box::new(t))
}

fn option_of(t: ValueType) -> ValueType {
    ValueType::Optional(Box::new(t))
}

fn converts2(t: &ValueType, value: JsonValue, overview_text: &str, converted: JsonValue) {
    let parsed = parse(t, &value).unwrap();
    assert_eq!(parsed, converted);
    assert_eq!(overview(t, &parsed), overview_text);
    assert_eq!(parse(t, &parsed).unwrap(), converted);
}

fn converts(t: &ValueType, value: JsonValue, overview_text: &str) {
    let copy = value.copy();
    converts2(t, value, overview_text, copy);
}

fn fails(t: &ValueType, value: JsonValue) {
    assert!(parse(t, &value).is_err());
}

const ALL_INTS: [IntKind; 10] = [
    IntKind::U8,
    IntKind::I8,
    IntKind::U16,
    IntKind::I16,
    IntKind::U32,
    IntKind::I32,
    IntKind::U64,
    IntKind::I64,
    IntKind::Usize,
    IntKind::Isize,
];

#[test]
fn bool() {
    converts(&ValueType::Bool, JsonValue::Bool(true), "true");
    converts(&ValueType::Bool, JsonValue::Bool(false), "false");
    fails(&ValueType::Bool, num(0));
    fails(&ValueType::Bool, JsonValue::Null);
    assert_eq!(serialized_format(&ValueType::Bool).kind, SerializedFormatKind::Bool);
}

#[test]
fn integer() {
    for k in ALL_INTS {
        let t = ValueType::Int(k);
        converts(&t, num(17), "17");
        fails(&t, float("17.5"));
        fails(&t, JsonValue::Null);
        assert_eq!(serialized_format(&t).kind, SerializedFormatKind::Integer);
    }

    fails(&ValueType::Int(IntKind::U8), num(-17));
    converts(&ValueType::Int(IntKind::I8), num(-17), "-17");
    fails(&ValueType::Int(IntKind::U16), num(-17));
    converts(&ValueType::Int(IntKind::I16), num(-17), "-17");
    fails(&ValueType::Int(IntKind::U32), num(-17));
    converts(&ValueType::Int(IntKind::I32), num(-17), "-17");
    fails(&ValueType::Int(IntKind::U64), num(-17));
    converts(&ValueType::Int(IntKind::I64), num(-17), "-17");

    let overview_text = u32::MAX.to_string();
    let big = u32::MAX as u64;
    fails(&ValueType::Int(IntKind::U8), uint(big));
    fails(&ValueType::Int(IntKind::I8), uint(big));
    fails(&ValueType::Int(IntKind::U16), uint(big));
    fails(&ValueType::Int(IntKind::I16), uint(big));
    converts(&ValueType::Int(IntKind::U32), uint(big), &overview_text);
    fails(&ValueType::Int(IntKind::I32), uint(big));
    converts(&ValueType::Int(IntKind::U64), uint(big), &overview_text);
    converts(&ValueType::Int(IntKind::I64), uint(big), &overview_text);
    fails(&ValueType::Int(IntKind::Usize), num(-17));
    converts(&ValueType::Int(IntKind::Isize), num(-17), "-17");
    converts(&ValueType::Int(IntKind::Usize), uint(big), &overview_text);
}

#[test]
fn string() {
    converts(&ValueType::Str, text("17"), "17");
    converts(&ValueType::Str, text(""), "");
    fails(&ValueType::Str, num(17));
    fails(&ValueType::Str, JsonValue::Null);
    assert_eq!(
        serialized_format(&ValueType::Str).kind,
        SerializedFormatKind::String(StringFormatKind::Any)
    );
}

#[test]
fn vec() {
    let t = list_of(ValueType::Int(IntKind::I32));
    converts(&t, ints(&[3, 14, 15]), "[3, 14, 15]");
    converts(&t, ints(&[3, 14, 15, 92]), "[3, 14, 15, ... 1 more]");
    converts(&t, ints(&[3, 14, 15, 92, 65, 35]), "[3, 14, 15, ... 3 more]");
    fails(&t, JsonValue::Array(vec![num(3), num(14), text("15"), num(92)]));
    assert_eq!(
        serialized_format(&t).kind,
        SerializedFormatKind::List(Box::new(SerializedFormatKind::Integer))
    );
}

#[test]
fn set() {
    let t = set_of(ValueType::Int(IntKind::I32));
    converts(&t, ints(&[3, 14, 15]), "[3, 14, 15]");
    converts2(&t, ints(&[1, 2, 4, 4, 3]), "[1, 2, 3, ... 1 more]", ints(&[1, 2, 3, 4]));
    fails(&t, JsonValue::Array(vec![num(3), num(14), text("15"), num(92)]));
    assert_eq!(
        serialized_format(&t).kind,
        SerializedFormatKind::SetOf(Box::new(SerializedFormatKind::Integer))
    );
}

#[test]
fn map() {
    let t = map_of(ValueType::Int(IntKind::I32));
    converts(&t, object(vec![("a", num(1)), ("b", num(2)), ("x", num(1))]), "{a, x: 1, b: 2}");
    fails(
        &map_of(ValueType::Str),
        object(vec![("a", text("1")), ("b", num(2)), ("x", num(1))]),
    );
    assert_eq!(
        serialized_format(&t).kind,
        SerializedFormatKind::MapOf(StringFormatKind::Any, Box::new(SerializedFormatKind::Integer))
    );
}

#[test]
fn option() {
    let t = option_of(ValueType::Int(IntKind::I32));
    converts(&t, num(17), "Some(17)");
    converts(&t, JsonValue::Null, "None");
    fails(&t, float("17.5"));
    assert_eq!(
        serialized_format(&t).kind,
        SerializedFormatKind::Optional(Box::new(SerializedFormatKind::Integer))
    );
}

fn colors() -> ValueType {
    ValueType::Choice(vec!["Red".to_string(), "Green".to_string(), "Blue".to_string()])
}

#[test]
fn choices() {
    converts(&colors(), text("Red"), "Red");
    fails(&colors(), text("Black"));
    assert_eq!(
        serialized_format(&colors()).kind,
        SerializedFormatKind::String(StringFormatKind::Choices(vec![
            "Red".to_string(),
            "Green".to_string(),
            "Blue".to_string()
        ]))
    );
}

#[test]
fn format_tags() {
    assert_eq!(serialized_format(&list_of(ValueType::Int(IntKind::I32))).tag, "Vec<i32>");
    assert_eq!(serialized_format(&set_of(ValueType::Int(IntKind::U8))).tag, "Set<u8>");
    assert_eq!(serialized_format(&map_of(ValueType::Str)).tag, "Map<String, String>");
    assert_eq!(serialized_format(&option_of(ValueType::Bool)).tag, "Option<bool>");
    assert_eq!(serialized_format(&colors()).tag, "enum {Red, Green, Blue}");
}

#[test]
fn overview_truncates_long_lists() {
    let t = list_of(ValueType::Int(IntKind::I64));
    let v = parse(&t, &ints(&[3, 14, 15, 92, 65, 35])).unwrap();
    assert_eq!(overview(&t, &v), "[3, 14, 15, ... 3 more]");
}

#[test]
fn overview_of_extreme_integers() {
    let t = ValueType::Int(IntKind::I64);
    assert_eq!(overview(&t, &num(i64::MIN)), i64::MIN.to_string());
    assert_eq!(overview(&t, &num(i64::MAX)), i64::MAX.to_string());
    assert_eq!(overview(&t, &num(0)), "0");
}

#[test]
fn map_overview_groups_many_keys() {
    let t = map_of(ValueType::Bool);
    let v = object(vec![
        ("a", JsonValue::Bool(true)),
        ("b", JsonValue::Bool(true)),
        ("c", JsonValue::Bool(true)),
        ("d", JsonValue::Bool(true)),
        ("e", JsonValue::Bool(false)),
    ]);
    assert_eq!(overview(&t, &v), "{e: false, a, b, c, ... 1 more: true}");
}

#[test]
fn map_keeps_each_key_once() {
    let t = map_of(ValueType::Int(IntKind::I32));
    let v = object(vec![("a", num(1)), ("b", num(2)), ("a", num(3))]);
    assert_eq!(parse(&t, &v).unwrap(), object(vec![("a", num(3)), ("b", num(2))]));
}

#[test]
fn round_trip_of_nested_values() {
    let t = list_of(option_of(set_of(ValueType::Bool)));
    let v = JsonValue::Array(vec![
        JsonValue::Null,
        JsonValue::Array(vec![JsonValue::Bool(true), JsonValue::Bool(false), JsonValue::Bool(true)]),
    ]);
    let once = parse(&t, &v).unwrap();
    assert_eq!(
        once,
        JsonValue::Array(vec![
            JsonValue::Null,
            JsonValue::Array(vec![JsonValue::Bool(false), JsonValue::Bool(true)]),
        ])
    );
    assert_eq!(parse(&t, &once).unwrap(), once);
    assert_eq!(overview(&t, &once), "[None, Some([false, true])]");
}

#[test]
fn sets_of_any_values_are_sorted() {
    let t = set_of(option_of(ValueType::Int(IntKind::I32)));
    let v = JsonValue::Array(vec![num(3), JsonValue::Null, num(-1), num(3)]);
    let once = parse(&t, &v).unwrap();
    assert_eq!(once, JsonValue::Array(vec![JsonValue::Null, num(-1), num(3)]));
    assert_eq!(parse(&t, &once).unwrap(), once);
    assert_eq!(overview(&t, &once), "[None, Some(-1), Some(3)]");
    assert_eq!(parse(&t, &JsonValue::Array(vec![JsonValue::Null])).unwrap(), JsonValue::Array(vec![JsonValue::Null]));

    let lists = set_of(list_of(ValueType::Int(IntKind::U8)));
    let v = JsonValue::Array(vec![ints(&[2]), ints(&[1, 5]), ints(&[1]), ints(&[])]);
    assert_eq!(
        parse(&lists, &v).unwrap(),
        JsonValue::Array(vec![ints(&[]), ints(&[1]), ints(&[1, 5]), ints(&[2])])
    );
}

#[test]
fn sets_of_choices_follow_the_list() {
    let t = set_of(colors());
    let v = JsonValue::Array(vec![text("Blue"), text("Red"), text("Green"), text("Red")]);
    assert_eq!(
        parse(&t, &v).unwrap(),
        JsonValue::Array(vec![text("Red"), text("Green"), text("Blue")])
    );
}

#[test]
fn sets_of_strings_are_sorted() {
    let t = set_of(ValueType::Str);
    let v = JsonValue::Array(vec![text("pear"), text("apple"), text("pear"), text("app"), text("Zoo")]);
    let once = parse(&t, &v).unwrap();
    assert_eq!(
        once,
        JsonValue::Array(vec![text("Zoo"), text("app"), text("apple"), text("pear")])
    );
    assert_eq!(overview(&t, &once), "[Zoo, app, apple, ... 1 more]");
}

#[test]
fn map_keys_are_sorted() {
    let t = map_of(ValueType::Int(IntKind::U8));
    let v = object(vec![("b", num(1)), ("a", num(2)), ("c", num(1))]);
    let once = parse(&t, &v).unwrap();
    assert_eq!(once, object(vec![("a", num(2)), ("b", num(1)), ("c", num(1))]));
    assert_eq!(overview(&t, &once), "{b, c: 1, a: 2}");
}

#[test]
fn errors_tell_the_kinds_apart() {
    assert_eq!(
        parse(&ValueType::Bool, &num(1)),
        Err(FromJsonError::WrongKind { expected: "Bool".to_string(), actual: "Number".to_string() })
    );
    assert_eq!(
        parse(&ValueType::Str, &num(17)),
        Err(FromJsonError::WrongKind { expected: "String".to_string(), actual: "Number".to_string() })
    );
    assert_eq!(
        parse(&list_of(ValueType::Bool), &text("x")),
        Err(FromJsonError::WrongKind { expected: "Array".to_string(), actual: "String".to_string() })
    );
    assert_eq!(
        parse(&colors(), &text("Black")),
        Err(FromJsonError::ParseError { cause: "Matching variant not found".to_string() })
    );
    assert!(matches!(
        parse(&ValueType::Int(IntKind::U8), &num(300)),
        Err(FromJsonError::ParseError { .. })
    ));
    assert_eq!(FromJsonError::parsing("x".to_string()), FromJsonError::ParseError { cause: "x".to_string() });
}

#[test]
fn float_numbers() {
    let t = ValueType::Float;
    converts(&t, num(17), "17");
    converts(&t, float("17.5"), "17.5");
    fails(&t, JsonValue::Null);
    fails(&t, text("17"));
    assert_eq!(serialized_format(&t).kind, SerializedFormatKind::Float);
    assert_eq!(serialized_format(&t).tag, "f64");
}

#[test]
fn numbers_beyond_i64_are_a_wrong_kind() {
    assert!(matches!(
        parse(&ValueType::Int(IntKind::U64), &uint(u64::MAX)),
        Err(FromJsonError::WrongKind { .. })
    ));
    assert!(matches!(
        parse(&ValueType::Int(IntKind::I32), &float("1.5")),
        Err(FromJsonError::WrongKind { .. })
    ));
    converts(&ValueType::Int(IntKind::U64), uint(i64::MAX as u64), &i64::MAX.to_string());
}

#[test]
fn optional_values_read_their_inner_type() {
    let t = option_of(colors());
    converts(&t, text("Blue"), "Some(Blue)");
    assert!(matches!(parse(&t, &text("Black")), Err(FromJsonError::ParseError { .. })));
    assert!(matches!(parse(&t, &num(1)), Err(FromJsonError::WrongKind { .. })));
}

#[test]
fn empty_collections() {
    let list = list_of(ValueType::Int(IntKind::I32));
    converts(&list, JsonValue::Array(vec![]), "[]");
    converts(&set_of(ValueType::Bool), JsonValue::Array(vec![]), "[]");
    converts(&map_of(ValueType::Bool), JsonValue::Object(vec![]), "{}");
    converts(&list, ints(&[1, 2, 3]), "[1, 2, 3]");
}

#[test]
fn maps_with_choice_keys() {
    let t = ValueType::MapOf(Box::new(colors()), Box::new(ValueType::Int(IntKind::I32)));
    let v = object(vec![("Blue", num(1)), ("Red", num(2)), ("Green", num(1))]);
    let once = parse(&t, &v).unwrap();
    assert_eq!(once, object(vec![("Red", num(2)), ("Green", num(1)), ("Blue", num(1))]));
    assert_eq!(parse(&t, &once).unwrap(), once);
    assert!(matches!(
        parse(&t, &object(vec![("Black", num(1))])),
        Err(FromJsonError::ParseError { .. })
    ));
    let f = serialized_format(&t);
    assert_eq!(f.tag, "Map<enum {Red, Green, Blue}, i32>");
    assert_eq!(
        f.kind,
        SerializedFormatKind::MapOf(
            StringFormatKind::Choices(vec!["Red".to_string(), "Green".to_string(), "Blue".to_string()]),
            Box::new(SerializedFormatKind::Integer)
        )
    );
}

#[test]
fn sets_of_maps_compare_entry_by_entry() {
    let t = set_of(map_of(ValueType::Int(IntKind::I32)));
    let v = JsonValue::Array(vec![
        object(vec![("b", num(1))]),
        object(vec![("a", num(2))]),
        object(vec![("a", num(1)), ("c", num(0))]),
        object(vec![]),
    ]);
    assert_eq!(
        parse(&t, &v).unwrap(),
        JsonValue::Array(vec![
            object(vec![]),
            object(vec![("a", num(1)), ("c", num(0))]),
            object(vec![("a", num(2))]),
            object(vec![("b", num(1))]),
        ])
    );
}
