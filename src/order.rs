use vstd::prelude::*;
use vstd::string::StrSliceExecFns;

use crate::json::{
    json_entries_of, jsons_of, lemma_json_entries_of, lemma_jsons_of, Json, JsonValue, Number,
};
use crate::value::ValueType;

verus! {

/// The order of strings: character by character, by code point, a prefix first. This is the
/// order of `String`'s `Ord`.
pub open spec fn text_lt(a: Seq<char>, b: Seq<char>) -> bool
    decreases a.len(),
{
    if a.len() == 0 {
        b.len() > 0
    } else if b.len() == 0 {
        false
    } else if a[0] != b[0] {
        a[0] < b[0]
    } else {
        text_lt(a.drop_first(), b.drop_first())
    }
}

/// No string is below itself.
pub proof fn lemma_text_lt_irreflexive(a: Seq<char>)
    ensures
        !text_lt(a, a),
    decreases a.len(),
{
    if a.len() > 0 {
        lemma_text_lt_irreflexive(a.drop_first());
    }
}

/// Two different strings are ordered one way or the other.
pub proof fn lemma_text_lt_total(a: Seq<char>, b: Seq<char>)
    ensures
        a == b || text_lt(a, b) || text_lt(b, a),
    decreases a.len(),
{
    if a.len() > 0 && b.len() > 0 && a[0] == b[0] {
        lemma_text_lt_total(a.drop_first(), b.drop_first());
        if a.drop_first() == b.drop_first() {
            assert(a =~= seq![a[0]] + a.drop_first());
            assert(b =~= seq![b[0]] + b.drop_first());
        }
    } else if a.len() == 0 && b.len() == 0 {
        assert(a =~= b);
    }
}

/// The order of strings is transitive.
pub proof fn lemma_text_lt_transitive(a: Seq<char>, b: Seq<char>, c: Seq<char>)
    requires
        text_lt(a, b),
        text_lt(b, c),
    ensures
        text_lt(a, c),
    decreases a.len(),
{
    if a.len() > 0 && b.len() > 0 && c.len() > 0 && a[0] == b[0] && b[0] == c[0] {
        lemma_text_lt_transitive(a.drop_first(), b.drop_first(), c.drop_first());
    }
}

/// Whether `a` comes before `b` in the order of strings.
pub fn str_lt(a: &str, b: &str) -> (r: bool)
    ensures
        r == text_lt(a@, b@),
{
    let n = a.unicode_len();
    let m = b.unicode_len();
    let mut i: usize = 0;
    assert(a@.skip(0) =~= a@);
    assert(b@.skip(0) =~= b@);
    while i < n && i < m
        invariant
            n == a@.len(),
            m == b@.len(),
            0 <= i <= n,
            i <= m,
            text_lt(a@, b@) == text_lt(a@.skip(i as int), b@.skip(i as int)),
        decreases n - i,
    {
        let x = a.get_char(i);
        let y = b.get_char(i);
        proof {
            assert(a@.skip(i as int)[0] == x);
            assert(b@.skip(i as int)[0] == y);
        }
        if x != y {
            return x < y;
        }
        proof {
            assert(a@.skip(i as int).drop_first() =~= a@.skip(i + 1));
            assert(b@.skip(i as int).drop_first() =~= b@.skip(i + 1));
        }
        i += 1;
    }
    i < m && i == n
}

} // verus!

verus! {

/// `-1`, `0` or `1` as `a` is below, equal to or above `b`.
pub open spec fn int_cmp(a: int, b: int) -> int {
    if a < b {
        -1
    } else if a == b {
        0
    } else {
        1
    }
}

/// The comparison of two strings in the order of [`text_lt`].
pub open spec fn text_cmp(a: Seq<char>, b: Seq<char>) -> int {
    if a == b {
        0
    } else if text_lt(a, b) {
        -1
    } else {
        1
    }
}

/// The order of the kinds of JSON documents: `null` first.
pub open spec fn rank(j: Json) -> int {
    match j {
        Json::Null => 0,
        Json::Bool(_) => 1,
        Json::Int(_) => 2,
        Json::Float(_) => 3,
        Json::Str(_) => 4,
        Json::Array(_) => 5,
        Json::Object(_) => 6,
    }
}

/// `t` without the optional layers around it.
pub open spec fn base_type(t: ValueType) -> ValueType
    decreases t,
{
    match t {
        ValueType::Optional(e) => base_type(*e),
        _ => t,
    }
}

/// The type of the items of a value of type `t`, where `t` is a list, set or map (for a map,
/// of its values).
pub open spec fn item_type(t: ValueType) -> ValueType {
    match base_type(t) {
        ValueType::List(e) | ValueType::SetOf(e) | ValueType::MapOf(_, e) => *e,
        b => b,
    }
}

/// The type of the keys of a value of type `t`, where `t` is a map.
pub open spec fn key_type(t: ValueType) -> ValueType {
    match base_type(t) {
        ValueType::MapOf(k, _) => *k,
        b => b,
    }
}

/// The comparison of two strings as values of type `t`: choices in the order of their list,
/// other strings in the order of [`text_lt`].
pub open spec fn key_cmp(t: ValueType, x: Seq<char>, y: Seq<char>) -> int {
    match base_type(t) {
        ValueType::Choice(cs) => {
            let c = int_cmp(choice_index(cs@, x) as int, choice_index(cs@, y) as int);
            if c != 0 {
                c
            } else {
                text_cmp(x, y)
            }
        },
        _ => text_cmp(x, y),
    }
}

/// The position of `s` among `choices`, or their number if it is none of them.
pub open spec fn choice_index(choices: Seq<String>, s: Seq<char>) -> nat
    decreases choices.len(),
{
    if choices.len() == 0 {
        0
    } else if choices[0]@ == s {
        0
    } else {
        1 + choice_index(choices.drop_first(), s)
    }
}

/// The comparison of two values of type `t`: `-1`, `0` or `1`. Absent values come first;
/// booleans, integers and strings compare as in Rust, choices in the order of their list, and
/// lists, sets and maps item by item, a prefix first. This is the order of the `Ord` of the
/// corresponding Rust types.
pub open spec fn json_cmp(t: ValueType, a: Json, b: Json) -> int
    decreases a, 0nat,
{
    if rank(a) != rank(b) {
        int_cmp(rank(a), rank(b))
    } else {
        match (a, b) {
            (Json::Bool(x), Json::Bool(y)) => int_cmp(
                if x {
                    1
                } else {
                    0
                },
                if y {
                    1
                } else {
                    0
                },
            ),
            (Json::Int(x), Json::Int(y)) => int_cmp(x, y),
            (Json::Float(x), Json::Float(y)) => text_cmp(x, y),
            (Json::Str(x), Json::Str(y)) => key_cmp(t, x, y),
            (Json::Array(xs), Json::Array(ys)) => seq_cmp(item_type(t), xs, ys),
            (Json::Object(xs), Json::Object(ys)) => entries_cmp(key_type(t), item_type(t), xs, ys),
            _ => 0,
        }
    }
}

/// The comparison of two sequences of values of type `t`, item by item, a prefix first.
pub open spec fn seq_cmp(t: ValueType, xs: Seq<Json>, ys: Seq<Json>) -> int
    decreases xs, 1nat,
{
    if xs.len() == 0 {
        if ys.len() == 0 {
            0
        } else {
            -1
        }
    } else if ys.len() == 0 {
        1
    } else {
        let c = json_cmp(t, xs[0], ys[0]);
        if c != 0 {
            c
        } else {
            seq_cmp(t, xs.subrange(1, xs.len() as int), ys.subrange(1, ys.len() as int))
        }
    }
}

/// The comparison of two sequences of map entries with keys of type `kt` and values of type
/// `t`: entry by entry, by key and then by value, a prefix first.
pub open spec fn entries_cmp(
    kt: ValueType,
    t: ValueType,
    xs: Seq<(Seq<char>, Json)>,
    ys: Seq<(Seq<char>, Json)>,
) -> int
    decreases xs, 1nat,
{
    if xs.len() == 0 {
        if ys.len() == 0 {
            0
        } else {
            -1
        }
    } else if ys.len() == 0 {
        1
    } else {
        let k = key_cmp(kt, xs[0].0, ys[0].0);
        let c = if k != 0 {
            k
        } else {
            json_cmp(t, xs[0].1, ys[0].1)
        };
        if c != 0 {
            c
        } else {
            entries_cmp(kt, t, xs.subrange(1, xs.len() as int), ys.subrange(1, ys.len() as int))
        }
    }
}

proof fn lemma_text_cmp(a: Seq<char>, b: Seq<char>, c: Seq<char>)
    ensures
        text_cmp(a, b) == -text_cmp(b, a),
        text_cmp(a, b) == -1 && text_cmp(b, c) == -1 ==> text_cmp(a, c) == -1,
{
    lemma_text_lt_total(a, b);
    lemma_text_lt_irreflexive(a);
    if text_lt(a, b) && text_lt(b, a) {
        lemma_text_lt_transitive(a, b, a);
    }
    if text_cmp(a, b) == -1 && text_cmp(b, c) == -1 {
        lemma_text_lt_transitive(a, b, c);
        if a == c {
            lemma_text_lt_transitive(a, b, a);
        }
    }
}

/// The order of keys is a total order.
pub proof fn lemma_key_cmp(t: ValueType, a: Seq<char>, b: Seq<char>, c: Seq<char>)
    ensures
        key_cmp(t, a, b) == 0 <==> a == b,
        key_cmp(t, a, b) == -key_cmp(t, b, a),
        -1 <= key_cmp(t, a, b) <= 1,
        key_cmp(t, a, b) == -1 && key_cmp(t, b, c) == -1 ==> key_cmp(t, a, c) == -1,
{
    lemma_text_cmp(a, b, c);
    lemma_text_cmp(a, c, b);
    lemma_text_cmp(b, c, a);
    lemma_text_cmp(b, a, c);
}

/// Two values compare equal exactly when they are the same.
pub proof fn lemma_cmp_eq(t: ValueType, a: Json, b: Json)
    ensures
        json_cmp(t, a, b) == 0 <==> a == b,
    decreases a, 0nat,
{
    if rank(a) == rank(b) {
        match (a, b) {
            (Json::Str(x), Json::Str(y)) => lemma_key_cmp(t, x, y, x),
            (Json::Array(xs), Json::Array(ys)) => lemma_seq_cmp_eq(item_type(t), xs, ys),
            (Json::Object(xs), Json::Object(ys)) => lemma_entries_cmp_eq(
                key_type(t),
                item_type(t),
                xs,
                ys,
            ),
            _ => {},
        }
    }
}

proof fn lemma_seq_cmp_eq(t: ValueType, xs: Seq<Json>, ys: Seq<Json>)
    ensures
        seq_cmp(t, xs, ys) == 0 <==> xs == ys,
    decreases xs, 1nat,
{
    if xs.len() > 0 && ys.len() > 0 {
        lemma_cmp_eq(t, xs[0], ys[0]);
        let xr = xs.subrange(1, xs.len() as int);
        let yr = ys.subrange(1, ys.len() as int);
        lemma_seq_cmp_eq(t, xr, yr);
        if xs[0] == ys[0] && xr == yr {
            assert forall|k: int| 0 <= k < xs.len() implies xs[k] == ys[k] by {
                if k > 0 {
                    assert(xs[k] == xr[k - 1] && ys[k] == yr[k - 1]);
                }
            }
            assert(xs =~= ys);
        }
        if xs == ys {
            assert(xr =~= yr);
        }
    } else if xs.len() == 0 && ys.len() == 0 {
        assert(xs =~= ys);
    }
}

proof fn lemma_entries_cmp_eq(
    kt: ValueType,
    t: ValueType,
    xs: Seq<(Seq<char>, Json)>,
    ys: Seq<(Seq<char>, Json)>,
)
    ensures
        entries_cmp(kt, t, xs, ys) == 0 <==> xs == ys,
    decreases xs, 1nat,
{
    if xs.len() > 0 && ys.len() > 0 {
        lemma_key_cmp(kt, xs[0].0, ys[0].0, xs[0].0);
        lemma_cmp_eq(t, xs[0].1, ys[0].1);
        let xr = xs.subrange(1, xs.len() as int);
        let yr = ys.subrange(1, ys.len() as int);
        lemma_entries_cmp_eq(kt, t, xr, yr);
        if xs[0] == ys[0] && xr == yr {
            assert forall|k: int| 0 <= k < xs.len() implies xs[k] == ys[k] by {
                if k > 0 {
                    assert(xs[k] == xr[k - 1] && ys[k] == yr[k - 1]);
                }
            }
            assert(xs =~= ys);
        }
        if xs == ys {
            assert(xr =~= yr);
        }
    } else if xs.len() == 0 && ys.len() == 0 {
        assert(xs =~= ys);
    }
}

/// Comparing the other way round gives the opposite.
pub proof fn lemma_cmp_anti(t: ValueType, a: Json, b: Json)
    ensures
        json_cmp(t, a, b) == -json_cmp(t, b, a),
        -1 <= json_cmp(t, a, b) <= 1,
    decreases a, 0nat,
{
    if rank(a) == rank(b) {
        match (a, b) {
            (Json::Float(x), Json::Float(y)) => lemma_text_cmp(x, y, x),
            (Json::Str(x), Json::Str(y)) => lemma_key_cmp(t, x, y, x),
            (Json::Array(xs), Json::Array(ys)) => lemma_seq_cmp_anti(item_type(t), xs, ys),
            (Json::Object(xs), Json::Object(ys)) => lemma_entries_cmp_anti(
                key_type(t),
                item_type(t),
                xs,
                ys,
            ),
            _ => {},
        }
    }
}

proof fn lemma_seq_cmp_anti(t: ValueType, xs: Seq<Json>, ys: Seq<Json>)
    ensures
        seq_cmp(t, xs, ys) == -seq_cmp(t, ys, xs),
        -1 <= seq_cmp(t, xs, ys) <= 1,
    decreases xs, 1nat,
{
    if xs.len() > 0 && ys.len() > 0 {
        lemma_cmp_anti(t, xs[0], ys[0]);
        lemma_seq_cmp_anti(t, xs.subrange(1, xs.len() as int), ys.subrange(1, ys.len() as int));
    }
}

proof fn lemma_entries_cmp_anti(
    kt: ValueType,
    t: ValueType,
    xs: Seq<(Seq<char>, Json)>,
    ys: Seq<(Seq<char>, Json)>,
)
    ensures
        entries_cmp(kt, t, xs, ys) == -entries_cmp(kt, t, ys, xs),
        -1 <= entries_cmp(kt, t, xs, ys) <= 1,
    decreases xs, 1nat,
{
    if xs.len() > 0 && ys.len() > 0 {
        lemma_key_cmp(kt, xs[0].0, ys[0].0, xs[0].0);
        lemma_cmp_anti(t, xs[0].1, ys[0].1);
        lemma_entries_cmp_anti(
            kt,
            t,
            xs.subrange(1, xs.len() as int),
            ys.subrange(1, ys.len() as int),
        );
    }
}

/// The order of values is transitive.
pub proof fn lemma_cmp_trans(t: ValueType, a: Json, b: Json, c: Json)
    requires
        json_cmp(t, a, b) == -1,
        json_cmp(t, b, c) == -1,
    ensures
        json_cmp(t, a, c) == -1,
    decreases a, 0nat,
{
    if rank(a) == rank(b) && rank(b) == rank(c) {
        match (a, b, c) {
            (Json::Float(x), Json::Float(y), Json::Float(z)) => lemma_text_cmp(x, y, z),
            (Json::Str(x), Json::Str(y), Json::Str(z)) => lemma_key_cmp(t, x, y, z),
            (Json::Array(xs), Json::Array(ys), Json::Array(zs)) => lemma_seq_cmp_trans(
                item_type(t),
                xs,
                ys,
                zs,
            ),
            (Json::Object(xs), Json::Object(ys), Json::Object(zs)) => lemma_entries_cmp_trans(
                key_type(t),
                item_type(t),
                xs,
                ys,
                zs,
            ),
            _ => {},
        }
    }
}

proof fn lemma_seq_cmp_trans(t: ValueType, xs: Seq<Json>, ys: Seq<Json>, zs: Seq<Json>)
    requires
        seq_cmp(t, xs, ys) == -1,
        seq_cmp(t, ys, zs) == -1,
    ensures
        seq_cmp(t, xs, zs) == -1,
    decreases xs, 1nat,
{
    if xs.len() > 0 && ys.len() > 0 && zs.len() > 0 {
        let (x, y, z) = (xs[0], ys[0], zs[0]);
        lemma_cmp_eq(t, x, y);
        lemma_cmp_eq(t, y, z);
        lemma_cmp_anti(t, x, y);
        lemma_cmp_anti(t, y, z);
        lemma_cmp_anti(t, x, z);
        if json_cmp(t, x, y) == -1 && json_cmp(t, y, z) == -1 {
            lemma_cmp_trans(t, x, y, z);
        } else if json_cmp(t, x, y) == 0 && json_cmp(t, y, z) == 0 {
            lemma_seq_cmp_trans(
                t,
                xs.subrange(1, xs.len() as int),
                ys.subrange(1, ys.len() as int),
                zs.subrange(1, zs.len() as int),
            );
        }
    }
}

proof fn lemma_entries_cmp_trans(
    kt: ValueType,
    t: ValueType,
    xs: Seq<(Seq<char>, Json)>,
    ys: Seq<(Seq<char>, Json)>,
    zs: Seq<(Seq<char>, Json)>,
)
    requires
        entries_cmp(kt, t, xs, ys) == -1,
        entries_cmp(kt, t, ys, zs) == -1,
    ensures
        entries_cmp(kt, t, xs, zs) == -1,
    decreases xs, 1nat,
{
    if xs.len() > 0 && ys.len() > 0 && zs.len() > 0 {
        let (x, y, z) = (xs[0], ys[0], zs[0]);
        lemma_key_cmp(kt, x.0, y.0, z.0);
        lemma_key_cmp(kt, x.0, z.0, y.0);
        lemma_key_cmp(kt, y.0, z.0, x.0);
        lemma_key_cmp(kt, y.0, x.0, z.0);
        lemma_cmp_eq(t, x.1, y.1);
        lemma_cmp_eq(t, y.1, z.1);
        lemma_cmp_anti(t, x.1, y.1);
        lemma_cmp_anti(t, y.1, z.1);
        lemma_cmp_anti(t, x.1, z.1);
        if x.0 == y.0 && y.0 == z.0 && json_cmp(t, x.1, y.1) == -1 && json_cmp(t, y.1, z.1) == -1 {
            lemma_cmp_trans(t, x.1, y.1, z.1);
        } else if x == y && y == z {
            lemma_entries_cmp_trans(
                kt,
                t,
                xs.subrange(1, xs.len() as int),
                ys.subrange(1, ys.len() as int),
                zs.subrange(1, zs.len() as int),
            );
        }
    }
}

} // verus!

verus! {

/// `t` without the optional layers around it.
pub fn base_type_exec(t: &ValueType) -> (r: &ValueType)
    ensures
        *r == base_type(*t),
    decreases t,
{
    match t {
        ValueType::Optional(e) => base_type_exec(e),
        _ => t,
    }
}

/// The type of the items of a value of type `t`.
fn item_type_exec(t: &ValueType) -> (r: &ValueType)
    ensures
        *r == item_type(*t),
{
    let b = base_type_exec(t);
    match b {
        ValueType::List(e) | ValueType::SetOf(e) | ValueType::MapOf(_, e) => e,
        _ => b,
    }
}

/// The type of the keys of a value of type `t`.
fn key_type_exec(t: &ValueType) -> (r: &ValueType)
    ensures
        *r == key_type(*t),
{
    let b = base_type_exec(t);
    match b {
        ValueType::MapOf(k, _) => k,
        _ => b,
    }
}

/// The comparison of two strings as values of type `t`, as [`key_cmp`] gives it.
pub fn key_cmp_exec(t: &ValueType, x: &String, y: &String) -> (r: i8)
    ensures
        r as int == key_cmp(*t, x@, y@),
{
    match base_type_exec(t) {
        ValueType::Choice(cs) => {
            let c = int_cmp_exec(choice_index_exec(cs, x) as i128, choice_index_exec(cs, y) as i128);
            if c != 0 {
                c
            } else {
                text_cmp_exec(x.as_str(), y.as_str())
            }
        },
        _ => text_cmp_exec(x.as_str(), y.as_str()),
    }
}

/// The position of `s` among `choices`, or their number.
fn choice_index_exec(choices: &Vec<String>, s: &String) -> (r: usize)
    ensures
        r == choice_index(choices@, s@),
{
    let mut i: usize = 0;
    assert(choices@.skip(0) =~= choices@);
    while i < choices.len() && choices[i] != *s
        invariant
            0 <= i <= choices@.len(),
            choice_index(choices@, s@) == i + choice_index(choices@.skip(i as int), s@),
        decreases choices@.len() - i,
    {
        assert(choices@.skip(i as int).drop_first() =~= choices@.skip(i + 1));
        i += 1;
    }
    assert(i == choices@.len() ==> choices@.skip(i as int).len() == 0);
    i
}

/// `-1`, `0` or `1` as `a` is below, equal to or above `b`.
fn int_cmp_exec(a: i128, b: i128) -> (r: i8)
    ensures
        r as int == int_cmp(a as int, b as int),
{
    if a < b {
        -1
    } else if a == b {
        0
    } else {
        1
    }
}

/// The comparison of two strings in the order of [`text_lt`].
pub fn text_cmp_exec(a: &str, b: &str) -> (r: i8)
    ensures
        r as int == text_cmp(a@, b@),
{
    if crate::persist::str_eq(a, b) {
        0
    } else if str_lt(a, b) {
        -1
    } else {
        1
    }
}

/// The rank of the kind of a JSON document.
fn rank_exec(v: &JsonValue) -> (r: i128)
    ensures
        r as int == rank(v@),
{
    match v {
        JsonValue::Null => 0,
        JsonValue::Bool(_) => 1,
        JsonValue::Number(Number::Float(_)) => 3,
        JsonValue::Number(_) => 2,
        JsonValue::String(_) => 4,
        JsonValue::Array(_) => 5,
        JsonValue::Object(_) => 6,
    }
}

/// The comparison of two values of type `t`, as [`json_cmp`] gives it.
pub fn compare(t: &ValueType, a: &JsonValue, b: &JsonValue) -> (r: i8)
    ensures
        r as int == json_cmp(*t, a@, b@),
    decreases a,
{
    let (ra, rb) = (rank_exec(a), rank_exec(b));
    if ra != rb {
        return int_cmp_exec(ra, rb);
    }
    match (a, b) {
        (JsonValue::Bool(x), JsonValue::Bool(y)) => int_cmp_exec(
            if *x {
                1
            } else {
                0
            },
            if *y {
                1
            } else {
                0
            },
        ),
        (JsonValue::Number(Number::Float(x)), JsonValue::Number(Number::Float(y))) => text_cmp_exec(
            x.as_str(),
            y.as_str(),
        ),
        (JsonValue::Number(x), JsonValue::Number(y)) => {
            let m: i128 = match x {
                Number::PosInt(n) => *n as i128,
                Number::NegInt(n) => *n as i128,
                Number::Float(_) => 0,
            };
            let n: i128 = match y {
                Number::PosInt(n) => *n as i128,
                Number::NegInt(n) => *n as i128,
                Number::Float(_) => 0,
            };
            int_cmp_exec(m, n)
        },
        (JsonValue::String(x), JsonValue::String(y)) => key_cmp_exec(t, x, y),
        (JsonValue::Array(xs), JsonValue::Array(ys)) => {
            let e = item_type_exec(t);
            let ghost xm = jsons_of(xs@);
            let ghost ym = jsons_of(ys@);
            proof {
                lemma_jsons_of(xs@);
                lemma_jsons_of(ys@);
                assert(xm.subrange(0, xm.len() as int) =~= xm);
                assert(ym.subrange(0, ym.len() as int) =~= ym);
                assert(json_cmp(*t, a@, b@) == seq_cmp(*e, xm, ym));
            }
            let mut i: usize = 0;
            while i < xs.len() && i < ys.len()
                invariant
                    0 <= i <= xs@.len(),
                    i <= ys@.len(),
                    *a == JsonValue::Array(*xs),
                    *b == JsonValue::Array(*ys),
                    *e == item_type(*t),
                    json_cmp(*t, a@, b@) == seq_cmp(*e, xm, ym),
                    xm == jsons_of(xs@),
                    ym == jsons_of(ys@),
                    xm.len() == xs@.len(),
                    ym.len() == ys@.len(),
                    forall|k: int| 0 <= k < xs@.len() ==> #[trigger] xm[k] == xs@[k]@,
                    forall|k: int| 0 <= k < ys@.len() ==> #[trigger] ym[k] == ys@[k]@,
                    seq_cmp(*e, xm, ym) == seq_cmp(
                        *e,
                        xm.subrange(i as int, xm.len() as int),
                        ym.subrange(i as int, ym.len() as int),
                    ),
                decreases xs@.len() - i,
            {
                proof {
                    assert((*a)->Array_0 == *xs);
                    assert(decreases_to!(*a => (*a)->Array_0));
                    assert(decreases_to!(*xs => xs@));
                    assert(decreases_to!(xs@ => xs@[i as int]));
                }
                let c = compare(e, &xs[i], &ys[i]);
                let ghost xr = xm.subrange(i as int, xm.len() as int);
                let ghost yr = ym.subrange(i as int, ym.len() as int);
                assert(xr[0] == xm[i as int] && yr[0] == ym[i as int]);
                if c != 0 {
                    return c;
                }
                assert(xr.subrange(1, xr.len() as int) =~= xm.subrange(i + 1, xm.len() as int));
                assert(yr.subrange(1, yr.len() as int) =~= ym.subrange(i + 1, ym.len() as int));
                i += 1;
            }
            int_cmp_exec((xs.len() - i) as i128, (ys.len() - i) as i128)
        },
        (JsonValue::Object(xs), JsonValue::Object(ys)) => {
            let e = item_type_exec(t);
            let kt = key_type_exec(t);
            let ghost xm = json_entries_of(xs@);
            let ghost ym = json_entries_of(ys@);
            proof {
                lemma_json_entries_of(xs@);
                lemma_json_entries_of(ys@);
                assert(xm.subrange(0, xm.len() as int) =~= xm);
                assert(ym.subrange(0, ym.len() as int) =~= ym);
                assert(json_cmp(*t, a@, b@) == entries_cmp(*kt, *e, xm, ym));
            }
            let mut i: usize = 0;
            while i < xs.len() && i < ys.len()
                invariant
                    0 <= i <= xs@.len(),
                    i <= ys@.len(),
                    *a == JsonValue::Object(*xs),
                    *b == JsonValue::Object(*ys),
                    *e == item_type(*t),
                    *kt == key_type(*t),
                    json_cmp(*t, a@, b@) == entries_cmp(*kt, *e, xm, ym),
                    xm == json_entries_of(xs@),
                    ym == json_entries_of(ys@),
                    xm.len() == xs@.len(),
                    ym.len() == ys@.len(),
                    forall|k: int|
                        0 <= k < xs@.len() ==> #[trigger] xm[k] == (xs@[k].0@, xs@[k].1@),
                    forall|k: int|
                        0 <= k < ys@.len() ==> #[trigger] ym[k] == (ys@[k].0@, ys@[k].1@),
                    entries_cmp(*kt, *e, xm, ym) == entries_cmp(
                        *kt,
                        *e,
                        xm.subrange(i as int, xm.len() as int),
                        ym.subrange(i as int, ym.len() as int),
                    ),
                decreases xs@.len() - i,
            {
                proof {
                    assert((*a)->Object_0 == *xs);
                    assert(decreases_to!(*a => (*a)->Object_0));
                    assert(decreases_to!(*xs => xs@));
                    assert(decreases_to!(xs@ => xs@[i as int]));
                    assert(decreases_to!(xs@[i as int] => xs@[i as int].1));
                }
                let ghost xr = xm.subrange(i as int, xm.len() as int);
                let ghost yr = ym.subrange(i as int, ym.len() as int);
                assert(xr[0] == xm[i as int] && yr[0] == ym[i as int]);
                let k = key_cmp_exec(kt, &xs[i].0, &ys[i].0);
                let c = if k != 0 {
                    k
                } else {
                    compare(e, &xs[i].1, &ys[i].1)
                };
                if c != 0 {
                    return c;
                }
                assert(xr.subrange(1, xr.len() as int) =~= xm.subrange(i + 1, xm.len() as int));
                assert(yr.subrange(1, yr.len() as int) =~= ym.subrange(i + 1, ym.len() as int));
                i += 1;
            }
            int_cmp_exec((xs.len() - i) as i128, (ys.len() - i) as i128)
        },
        _ => 0,
    }
}

} // verus!
