use vstd::prelude::*;
use vstd::string::StringExecFns;

use crate::json::{json_entries_of, jsons_of, lemma_json_entries_of, lemma_jsons_of, Json, JsonValue};
use crate::order::{str_lt, text_lt};
use crate::value::ValueType;

verus! {

/// The character of a decimal digit.
pub open spec fn digit_char(d: nat) -> char {
    if d == 0 { '0' } else if d == 1 { '1' } else if d == 2 { '2' } else if d == 3 { '3' }
    else if d == 4 { '4' } else if d == 5 { '5' } else if d == 6 { '6' } else if d == 7 { '7' }
    else if d == 8 { '8' } else { '9' }
}

/// The decimal digits of a natural number, without leading zeros.
pub open spec fn decimal_nat(n: nat) -> Seq<char>
    decreases n,
{
    if n < 10 {
        seq![digit_char(n)]
    } else {
        decimal_nat(n / 10).push(digit_char(n % 10))
    }
}

/// The decimal text of an integer.
pub open spec fn decimal(n: int) -> Seq<char> {
    if n < 0 {
        seq!['-'] + decimal_nat((-n) as nat)
    } else {
        decimal_nat(n as nat)
    }
}

/// `parts` joined with `", "`.
pub open spec fn join(parts: Seq<Seq<char>>) -> Seq<char>
    decreases parts.len(),
{
    if parts.len() == 0 {
        Seq::empty()
    } else if parts.len() == 1 {
        parts[0]
    } else {
        join(parts.drop_last()) + ", "@ + parts.last()
    }
}

/// The number of items that an overview shows.
pub const MAX_ITEMS: usize = 3;

/// The first items of `parts`, joined, and how many more there are.
pub open spec fn iter_overview(parts: Seq<Seq<char>>) -> Seq<char> {
    if parts.len() <= MAX_ITEMS {
        join(parts)
    } else {
        join(parts.take(MAX_ITEMS as int)) + ", ... "@ + decimal(parts.len() - MAX_ITEMS)
            + " more"@
    }
}

/// `groups` with `key` added last to the group of `ov`, or a new group for it, in its place in
/// the order of overviews.
pub open spec fn add_to_group(
    groups: Seq<(Seq<char>, Seq<Seq<char>>)>,
    ov: Seq<char>,
    key: Seq<char>,
) -> Seq<(Seq<char>, Seq<Seq<char>>)> {
    let i = group_index(groups, ov) as int;
    if i < groups.len() && groups[i].0 == ov {
        groups.update(i, (ov, groups[i].1.push(key)))
    } else {
        groups.insert(i, (ov, seq![key]))
    }
}

/// The index of the first group whose overview is not below `ov`.
pub open spec fn group_index(groups: Seq<(Seq<char>, Seq<Seq<char>>)>, ov: Seq<char>) -> nat
    decreases groups.len(),
{
    if groups.len() == 0 {
        0
    } else if text_lt(groups[0].0, ov) {
        1 + group_index(groups.drop_first(), ov)
    } else {
        0
    }
}

/// The keys of `pairs` (key, overview) grouped by overview, groups in the order of their
/// overviews, keys in the order of `pairs`.
pub open spec fn group_keys(pairs: Seq<(Seq<char>, Seq<char>)>) -> Seq<(Seq<char>, Seq<Seq<char>>)>
    decreases pairs.len(),
{
    if pairs.len() == 0 {
        Seq::empty()
    } else {
        add_to_group(group_keys(pairs.drop_last()), pairs.last().1, pairs.last().0)
    }
}

/// The text of one group of a map's overview.
pub open spec fn group_text(g: (Seq<char>, Seq<Seq<char>>)) -> Seq<char> {
    iter_overview(g.1) + ": "@ + g.0
}

/// A short human description of the value `j` of type `t`. Lists and sets show at most three
/// items; maps group their keys by the overview of their values, and show at most three groups
/// and three keys in each.
pub open spec fn overview_spec(t: ValueType, j: Json) -> Seq<char>
    decreases t, 0nat,
{
    match (t, j) {
        (ValueType::Bool, Json::Bool(b)) => if b {
            "true"@
        } else {
            "false"@
        },
        (ValueType::Int(_), Json::Int(n)) => decimal(n),
        (ValueType::Float, Json::Int(n)) => decimal(n),
        (ValueType::Float, Json::Float(text)) => text,
        (ValueType::Str, Json::Str(s)) => s,
        (ValueType::Choice(_), Json::Str(s)) => s,
        (ValueType::List(e), Json::Array(items)) => "["@ + iter_overview(overviews(*e, items))
            + "]"@,
        (ValueType::SetOf(e), Json::Array(items)) => "["@ + iter_overview(overviews(*e, items))
            + "]"@,
        (ValueType::MapOf(_, e), Json::Object(entries)) => {
            let groups = group_keys(entry_overviews(*e, entries));
            "{"@ + iter_overview(Seq::new(groups.len(), |i: int| group_text(groups[i]))) + "}"@
        },
        (ValueType::Optional(e), Json::Null) => "None"@,
        (ValueType::Optional(e), _) => "Some("@ + overview_spec(*e, j) + ")"@,
        _ => Seq::empty(),
    }
}

/// The overviews of the values `s` of type `t`.
pub open spec fn overviews(t: ValueType, s: Seq<Json>) -> Seq<Seq<char>>
    decreases t, s.len() + 1,
{
    if s.len() == 0 {
        Seq::empty()
    } else {
        overviews(t, s.drop_last()).push(overview_spec(t, s.last()))
    }
}

/// The keys of the entries `s`, each with the overview of its value of type `t`.
pub open spec fn entry_overviews(t: ValueType, s: Seq<(Seq<char>, Json)>) -> Seq<
    (Seq<char>, Seq<char>),
>
    decreases t, s.len() + 1,
{
    if s.len() == 0 {
        Seq::empty()
    } else {
        entry_overviews(t, s.drop_last()).push((s.last().0, overview_spec(t, s.last().1)))
    }
}

/// The text of a decimal digit.
fn digit_str(d: u64) -> (r: &'static str)
    requires
        d < 10,
    ensures
        r@ == seq![digit_char(d as nat)],
{
    proof {
        reveal_strlit("0");
        reveal_strlit("1");
        reveal_strlit("2");
        reveal_strlit("3");
        reveal_strlit("4");
        reveal_strlit("5");
        reveal_strlit("6");
        reveal_strlit("7");
        reveal_strlit("8");
        reveal_strlit("9");
    }
    if d == 0 { "0" } else if d == 1 { "1" } else if d == 2 { "2" } else if d == 3 { "3" }
    else if d == 4 { "4" } else if d == 5 { "5" } else if d == 6 { "6" } else if d == 7 { "7" }
    else if d == 8 { "8" } else { "9" }
}

/// The decimal text of a natural number.
pub fn nat_text(n: u64) -> (r: String)
    ensures
        r@ == decimal_nat(n as nat),
    decreases n,
{
    if n < 10 {
        digit_str(n).to_string()
    } else {
        let mut s = nat_text(n / 10);
        s.append(digit_str(n % 10));
        s
    }
}

/// The decimal text of an integer.
pub fn int_text(n: i64) -> (r: String)
    ensures
        r@ == decimal(n as int),
{
    if n < 0 {
        let m: u64 = (-(n as i128)) as u64;
        let mut s = "-".to_string();
        proof {
            reveal_strlit("-");
        }
        s.append(nat_text(m).as_str());
        s
    } else {
        nat_text(n as u64)
    }
}

/// The texts of `parts`, as a sequence.
pub open spec fn texts(parts: Seq<String>) -> Seq<Seq<char>> {
    Seq::new(parts.len(), |i: int| parts[i]@)
}

/// `parts` joined with `", "`.
pub fn join_exec(parts: &Vec<String>, n: usize) -> (r: String)
    requires
        n <= parts@.len(),
    ensures
        r@ == join(texts(parts@).take(n as int)),
{
    let mut s = String::new();
    let mut i: usize = 0;
    proof {
        reveal_strlit(", ");
        assert(texts(parts@).take(0) =~= Seq::empty());
    }
    while i < n
        invariant
            0 <= i <= n <= parts@.len(),
            s@ == join(texts(parts@).take(i as int)),
        decreases n - i,
    {
        let ghost ts = texts(parts@);
        assert(ts.take(i + 1).drop_last() =~= ts.take(i as int));
        if i > 0 {
            s.append(", ");
        } else {
            assert(ts.take(0) =~= Seq::<Seq<char>>::empty());
            assert(s@ =~= Seq::<char>::empty());
        }
        s.append(parts[i].as_str());
        i += 1;
        proof {
            if i == 1 {
                assert(s@ =~= ts.take(1)[0]);
            }
        }
    }
    s
}

/// The first items of `parts`, joined, and how many more there are.
pub fn iter_overview_exec(parts: &Vec<String>) -> (r: String)
    ensures
        r@ == iter_overview(texts(parts@)),
{
    proof {
        reveal_strlit(", ... ");
        reveal_strlit(" more");
    }
    if parts.len() <= MAX_ITEMS {
        let r = join_exec(parts, parts.len());
        assert(texts(parts@).take(parts@.len() as int) =~= texts(parts@));
        r
    } else {
        let mut s = join_exec(parts, MAX_ITEMS);
        s.append(", ... ");
        s.append(nat_text((parts.len() - MAX_ITEMS) as u64).as_str());
        s.append(" more");
        s
    }
}

/// The model of groups of keys.
pub open spec fn groups_model(g: Seq<(String, Vec<String>)>) -> Seq<(Seq<char>, Seq<Seq<char>>)> {
    Seq::new(g.len(), |i: int| (g[i].0@, texts(g[i].1@)))
}

proof fn lemma_group_index(g: Seq<(Seq<char>, Seq<Seq<char>>)>, ov: Seq<char>, i: int)
    requires
        0 <= i <= g.len(),
        forall|j: int| 0 <= j < i ==> text_lt((#[trigger] g[j]).0, ov),
        i == g.len() || !text_lt(g[i].0, ov),
    ensures
        group_index(g, ov) == i,
    decreases i,
{
    if i > 0 {
        assert(text_lt(g[0].0, ov));
        assert forall|j: int| 0 <= j < i - 1 implies text_lt((#[trigger] g.drop_first()[j]).0, ov)
        by {
            assert(g.drop_first()[j] == g[j + 1]);
        }
        lemma_group_index(g.drop_first(), ov, i - 1);
    }
}

/// A copy of a list of strings.
fn copy_strings(v: &Vec<String>) -> (r: Vec<String>)
    ensures
        texts(r@) == texts(v@),
{
    let mut out: Vec<String> = Vec::new();
    let mut i: usize = 0;
    while i < v.len()
        invariant
            0 <= i <= v@.len(),
            out@.len() == i,
            forall|k: int| 0 <= k < i ==> (#[trigger] out@[k])@ == v@[k]@,
        decreases v@.len() - i,
    {
        out.push(v[i].clone());
        i += 1;
    }
    assert(texts(out@) =~= texts(v@));
    out
}

/// Adds `key` to the group of `ov`, or adds a new group for it in its place.
fn add_to_group_exec(groups: &mut Vec<(String, Vec<String>)>, ov: String, key: String)
    ensures
        groups_model(final(groups)@) == add_to_group(groups_model(old(groups)@), ov@, key@),
{
    let ghost gm = groups_model(groups@);
    let mut i: usize = 0;
    while i < groups.len() && str_lt(groups[i].0.as_str(), ov.as_str())
        invariant
            0 <= i <= groups@.len(),
            gm == groups_model(groups@),
            forall|j: int| 0 <= j < i ==> text_lt((#[trigger] gm[j]).0, ov@),
        decreases groups@.len() - i,
    {
        i += 1;
    }
    proof {
        lemma_group_index(gm, ov@, i as int);
    }
    if i < groups.len() && groups[i].0 == ov {
        let mut keys = copy_strings(&groups[i].1);
        let ghost before = texts(keys@);
        keys.push(key);
        assert(texts(keys@) =~= before.push(key@));
        let ghost entry = (ov@, texts(keys@));
        groups.set(i, (ov, keys));
        assert(groups_model(groups@) =~= gm.update(i as int, entry));
    } else {
        let mut keys: Vec<String> = Vec::new();
        keys.push(key);
        assert(texts(keys@) =~= seq![key@]);
        let ghost entry = (ov@, texts(keys@));
        groups.insert(i, (ov, keys));
        assert(groups_model(groups@) =~= gm.insert(i as int, entry));
    }
}

/// Puts `inner` between `open` and `close`.
fn wrap(open: &str, inner: String, close: &str) -> (r: String)
    ensures
        r@ == open@ + inner@ + close@,
{
    let mut s = open.to_string();
    s.append(inner.as_str());
    s.append(close);
    s
}

/// A short human description of the value `v` of type `t`.
pub fn overview(t: &ValueType, v: &JsonValue) -> (r: String)
    ensures
        r@ == overview_spec(*t, v@),
    decreases t, 0nat,
{
    proof {
        reveal_strlit("true");
        reveal_strlit("false");
        reveal_strlit("[");
        reveal_strlit("]");
        reveal_strlit("{");
        reveal_strlit("}");
        reveal_strlit("None");
        reveal_strlit("Some(");
        reveal_strlit(")");
        reveal_strlit(": ");
    }
    match t {
        ValueType::Bool => match v {
            JsonValue::Bool(b) => if *b {
                "true".to_string()
            } else {
                "false".to_string()
            },
            _ => String::new(),
        },
        ValueType::Int(_) | ValueType::Float => match v {
            JsonValue::Number(crate::json::Number::PosInt(n)) => nat_text(*n),
            JsonValue::Number(crate::json::Number::NegInt(n)) => int_text(*n),
            JsonValue::Number(crate::json::Number::Float(text)) => match t {
                ValueType::Float => text.clone(),
                _ => String::new(),
            },
            _ => String::new(),
        },
        ValueType::Str | ValueType::Choice(_) => match v {
            JsonValue::String(s) => s.clone(),
            _ => String::new(),
        },
        ValueType::List(e) => match v {
            JsonValue::Array(items) => overview_items(e, items),
            _ => String::new(),
        },
        ValueType::SetOf(e) => match v {
            JsonValue::Array(items) => overview_items(e, items),
            _ => String::new(),
        },
        ValueType::MapOf(_, e) => match v {
            JsonValue::Object(entries) => overview_entries(e, entries),
            _ => String::new(),
        },
        ValueType::Optional(e) => match v {
            JsonValue::Null => "None".to_string(),
            _ => wrap("Some(", overview(e, v), ")"),
        },
    }
}


/// The overview of a list or set of values of type `e`.
fn overview_items(e: &ValueType, items: &Vec<JsonValue>) -> (r: String)
    ensures
        r@ == "["@ + iter_overview(overviews(*e, jsons_of(items@))) + "]"@,
    decreases e, 1nat,
{
    let ghost js = jsons_of(items@);
    proof {
        lemma_jsons_of(items@);
        assert(texts(Seq::empty()) =~= overviews(*e, js.take(0)));
    }
    let mut parts: Vec<String> = Vec::new();
    let mut i: usize = 0;
    while i < items.len()
        invariant
            0 <= i <= items@.len(),
            js == jsons_of(items@),
            js.len() == items@.len(),
            forall|k: int| 0 <= k < items@.len() ==> #[trigger] js[k] == items@[k]@,
            parts@.len() == i,
            texts(parts@) == overviews(*e, js.take(i as int)),
        decreases items@.len() - i,
    {
        assert(js.take(i + 1).drop_last() =~= js.take(i as int));
        let x = overview(e, &items[i]);
        let ghost before = texts(parts@);
        parts.push(x);
        assert(texts(parts@) =~= before.push(parts@[i as int]@));
        i += 1;
    }
    assert(js.take(i as int) =~= js);
    wrap("[", iter_overview_exec(&parts), "]")
}

/// The overview of a map whose values have type `e`.
fn overview_entries(e: &ValueType, entries: &Vec<(String, JsonValue)>) -> (r: String)
    ensures
        ({
            let es = json_entries_of(entries@);
            let groups = group_keys(entry_overviews(*e, es));
            r@ == "{"@ + iter_overview(Seq::new(groups.len(), |i: int| group_text(groups[i])))
                + "}"@
        }),
    decreases e, 1nat,
{
    let ghost es = json_entries_of(entries@);
    proof {
        lemma_json_entries_of(entries@);
        assert(groups_model(Seq::empty()) =~= group_keys(entry_overviews(*e, es.take(0))));
    }
    let mut groups: Vec<(String, Vec<String>)> = Vec::new();
    let mut i: usize = 0;
    while i < entries.len()
        invariant
            0 <= i <= entries@.len(),
            es == json_entries_of(entries@),
            es.len() == entries@.len(),
            forall|k: int|
                0 <= k < entries@.len() ==> #[trigger] es[k] == (entries@[k].0@, entries@[k].1@),
            groups_model(groups@) == group_keys(entry_overviews(*e, es.take(i as int))),
        decreases entries@.len() - i,
    {
        let ghost prev = entry_overviews(*e, es.take(i as int));
        assert(es.take(i + 1).drop_last() =~= es.take(i as int));
        let ov = overview(e, &entries[i].1);
        let ghost pair = (es[i as int].0, ov@);
        assert(entry_overviews(*e, es.take(i + 1)) == prev.push(pair));
        assert(prev.push(pair).drop_last() =~= prev);
        add_to_group_exec(&mut groups, ov, entries[i].0.clone());
        i += 1;
    }
    assert(es.take(i as int) =~= es);
    let ghost gm = groups_model(groups@);
    let mut parts: Vec<String> = Vec::new();
    let mut k: usize = 0;
    while k < groups.len()
        invariant
            0 <= k <= groups@.len(),
            gm == groups_model(groups@),
            parts@.len() == k,
            forall|m: int| 0 <= m < k ==> (#[trigger] parts@[m])@ == group_text(gm[m]),
        decreases groups@.len() - k,
    {
        let mut s = iter_overview_exec(&groups[k].1);
        s.append(": ");
        s.append(groups[k].0.as_str());
        parts.push(s);
        k += 1;
    }
    assert(texts(parts@) =~= Seq::new(gm.len(), |m: int| group_text(gm[m])));
    wrap("{", iter_overview_exec(&parts), "}")
}

} // verus!
