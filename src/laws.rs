use vstd::prelude::*;

use crate::json::Json;
use crate::order::{key_cmp, lemma_cmp_anti, lemma_cmp_eq, lemma_cmp_trans, lemma_key_cmp};
use crate::last_reload::LastReload;
use crate::persist::{entry_by, entry_model, lemma_lookup_set_entry, lookup};
use crate::registry::{values_model, Feattles};
use crate::value::{
    first_not_below, insert_sorted, json_lt, key_index, map_norm, parse_all,
    key_ok, parse_entries, parse_spec, set_norm, upsert, ValueType,
};

verus! {

/// Whether `x` is a value of type `t` in canonical form.
pub open spec fn fixed(t: ValueType, x: Json) -> bool {
    parse_spec(t, x) == Some(x)
}

/// Whether `s` is in strictly ascending order of values of type `t`.
pub open spec fn sorted(t: ValueType, s: Seq<Json>) -> bool {
    forall|a: int, b: int| 0 <= a < b < s.len() ==> json_lt(t, #[trigger] s[a], #[trigger] s[b])
}

/// Whether the keys of `s` are in strictly ascending order of keys of type `k`.
pub open spec fn keys_sorted(k: ValueType, s: Seq<(Seq<char>, Json)>) -> bool {
    forall|a: int, b: int|
        0 <= a < b < s.len() ==> key_cmp(k, (#[trigger] s[a]).0, (#[trigger] s[b]).0) == -1
}

proof fn lemma_parse_all_index(t: ValueType, s: Seq<Json>)
    requires
        parse_all(t, s) is Some,
    ensures
        parse_all(t, s)->0.len() == s.len(),
        forall|k: int|
            0 <= k < s.len() ==> parse_spec(t, #[trigger] s[k]) == Some(parse_all(t, s)->0[k]),
    decreases s.len(),
{
    if s.len() > 0 {
        lemma_parse_all_index(t, s.drop_last());
        let p = parse_all(t, s.drop_last())->0;
        assert forall|k: int| 0 <= k < s.len() implies parse_spec(t, #[trigger] s[k]) == Some(
            parse_all(t, s)->0[k],
        ) by {
            if k < s.len() - 1 {
                assert(s.drop_last()[k] == s[k]);
            }
        }
    }
}

proof fn lemma_parse_all_fixed(t: ValueType, p: Seq<Json>)
    requires
        forall|k: int| 0 <= k < p.len() ==> fixed(t, #[trigger] p[k]),
    ensures
        parse_all(t, p) == Some(p),
    decreases p.len(),
{
    if p.len() > 0 {
        lemma_parse_all_fixed(t, p.drop_last());
        assert(p.drop_last().push(p.last()) =~= p);
    }
}

proof fn lemma_parse_entries_index(k: ValueType, t: ValueType, s: Seq<(Seq<char>, Json)>)
    requires
        parse_entries(k, t, s) is Some,
    ensures
        parse_entries(k, t, s)->0.len() == s.len(),
        forall|j: int|
            0 <= j < s.len() ==> (#[trigger] s[j]).0 == parse_entries(k, t, s)->0[j].0 && key_ok(
                k,
                s[j].0,
            ) && parse_spec(t, s[j].1) == Some(parse_entries(k, t, s)->0[j].1),
    decreases s.len(),
{
    if s.len() > 0 {
        lemma_parse_entries_index(k, t, s.drop_last());
        assert forall|j: int| 0 <= j < s.len() implies (#[trigger] s[j]).0 == parse_entries(
            k,
            t,
            s,
        )->0[j].0 && key_ok(k, s[j].0) && parse_spec(t, s[j].1) == Some(
            parse_entries(k, t, s)->0[j].1,
        ) by {
            if j < s.len() - 1 {
                assert(s.drop_last()[j] == s[j]);
            }
        }
    }
}

proof fn lemma_parse_entries_fixed(k: ValueType, t: ValueType, p: Seq<(Seq<char>, Json)>)
    requires
        forall|j: int| 0 <= j < p.len() ==> fixed(t, (#[trigger] p[j]).1) && key_ok(k, p[j].0),
    ensures
        parse_entries(k, t, p) == Some(p),
    decreases p.len(),
{
    if p.len() > 0 {
        lemma_parse_entries_fixed(k, t, p.drop_last());
        assert(p.drop_last().push((p.last().0, p.last().1)) =~= p);
    }
}

proof fn lemma_first_not_below_props(t: ValueType, s: Seq<Json>, x: Json)
    ensures
        first_not_below(t, s, x) <= s.len(),
        forall|k: int| 0 <= k < first_not_below(t, s, x) ==> json_lt(t, #[trigger] s[k], x),
        first_not_below(t, s, x) < s.len() ==> !json_lt(t, s[first_not_below(t, s, x) as int], x),
    decreases s.len(),
{
    if s.len() > 0 && json_lt(t, s[0], x) {
        lemma_first_not_below_props(t, s.drop_first(), x);
        assert forall|k: int| 0 <= k < first_not_below(t, s, x) implies json_lt(
            t,
            #[trigger] s[k],
            x,
        ) by {
            if k > 0 {
                assert(s[k] == s.drop_first()[k - 1]);
            }
        }
    }
}

proof fn lemma_total(t: ValueType, a: Json, b: Json)
    ensures
        json_lt(t, a, b) || json_lt(t, b, a) || a == b,
{
    lemma_cmp_eq(t, a, b);
    lemma_cmp_anti(t, a, b);
}

proof fn lemma_insert_sorted(t: ValueType, s: Seq<Json>, x: Json)
    requires
        sorted(t, s),
        forall|k: int| 0 <= k < s.len() ==> fixed(t, #[trigger] s[k]),
        fixed(t, x),
    ensures
        sorted(t, insert_sorted(t, s, x)),
        forall|k: int|
            0 <= k < insert_sorted(t, s, x).len() ==> fixed(t, #[trigger] insert_sorted(t, s, x)[k]),
{
    lemma_first_not_below_props(t, s, x);
    let i = first_not_below(t, s, x) as int;
    if !(i < s.len() && s[i] == x) {
        let r = s.insert(i, x);
        if i < s.len() {
            lemma_total(t, s[i], x);
        }
        assert forall|a: int, b: int| 0 <= a < b < r.len() implies json_lt(
            t,
            #[trigger] r[a],
            #[trigger] r[b],
        ) by {
            if b < i {
                assert(r[a] == s[a] && r[b] == s[b]);
            } else if b == i {
                assert(r[a] == s[a]);
            } else if a == i {
                assert(r[b] == s[b - 1]);
                if b - 1 > i {
                    lemma_cmp_trans(t, x, s[i], s[b - 1]);
                }
            } else if a < i {
                assert(r[a] == s[a] && r[b] == s[b - 1]);
            } else {
                assert(r[a] == s[a - 1] && r[b] == s[b - 1]);
            }
        }
        assert forall|k: int| 0 <= k < r.len() implies fixed(t, #[trigger] r[k]) by {
            if k < i {
                assert(r[k] == s[k]);
            } else if k > i {
                assert(r[k] == s[k - 1]);
            }
        }
    }
}

proof fn lemma_set_norm(t: ValueType, s: Seq<Json>)
    requires
        forall|k: int| 0 <= k < s.len() ==> fixed(t, #[trigger] s[k]),
    ensures
        sorted(t, set_norm(t, s)),
        forall|k: int| 0 <= k < set_norm(t, s).len() ==> fixed(t, #[trigger] set_norm(t, s)[k]),
    decreases s.len(),
{
    if s.len() > 0 {
        assert forall|k: int| 0 <= k < s.drop_last().len() implies fixed(
            t,
            #[trigger] s.drop_last()[k],
        ) by {
            assert(s.drop_last()[k] == s[k]);
        }
        lemma_set_norm(t, s.drop_last());
        lemma_insert_sorted(t, set_norm(t, s.drop_last()), s.last());
    }
}

proof fn lemma_set_norm_sorted(t: ValueType, s: Seq<Json>)
    requires
        sorted(t, s),
    ensures
        set_norm(t, s) == s,
    decreases s.len(),
{
    if s.len() > 0 {
        let d = s.drop_last();
        assert(sorted(t, d)) by {
            assert forall|a: int, b: int| 0 <= a < b < d.len() implies json_lt(
                t,
                #[trigger] d[a],
                #[trigger] d[b],
            ) by {
                assert(d[a] == s[a] && d[b] == s[b]);
            }
        }
        lemma_set_norm_sorted(t, d);
        let x = s.last();
        assert forall|k: int| 0 <= k < d.len() implies json_lt(t, #[trigger] d[k], x) by {
            assert(d[k] == s[k]);
        }
        crate::value::lemma_first_not_below_all(t, d, x);
        assert(d.insert(d.len() as int, x) =~= s);
    }
}

proof fn lemma_key_index_props(k: ValueType, s: Seq<(Seq<char>, Json)>, key: Seq<char>)
    ensures
        key_index(k, s, key) <= s.len(),
        forall|j: int| 0 <= j < key_index(k, s, key) ==> key_cmp(k, (#[trigger] s[j]).0, key) == -1,
        key_index(k, s, key) < s.len() ==> key_cmp(k, s[key_index(k, s, key) as int].0, key) != -1,
    decreases s.len(),
{
    if s.len() > 0 && key_cmp(k, s[0].0, key) == -1 {
        lemma_key_index_props(k, s.drop_first(), key);
        assert forall|j: int| 0 <= j < key_index(k, s, key) implies key_cmp(
            k,
            (#[trigger] s[j]).0,
            key,
        ) == -1 by {
            if j > 0 {
                assert(s[j] == s.drop_first()[j - 1]);
            }
        }
    }
}

/// Whether each entry of `s` has a key of type `k` and a value of type `t` in canonical form.
pub open spec fn entries_fixed(k: ValueType, t: ValueType, s: Seq<(Seq<char>, Json)>) -> bool {
    forall|j: int| 0 <= j < s.len() ==> fixed(t, (#[trigger] s[j]).1) && key_ok(k, s[j].0)
}

proof fn lemma_upsert(k: ValueType, t: ValueType, s: Seq<(Seq<char>, Json)>, key: Seq<char>, v: Json)
    requires
        keys_sorted(k, s),
        entries_fixed(k, t, s),
        fixed(t, v),
        key_ok(k, key),
    ensures
        keys_sorted(k, upsert(k, s, key, v)),
        entries_fixed(k, t, upsert(k, s, key, v)),
{
    lemma_key_index_props(k, s, key);
    let r = upsert(k, s, key, v);
    let i = key_index(k, s, key) as int;
    if i < s.len() && s[i].0 == key {
        assert forall|a: int, b: int| 0 <= a < b < r.len() implies key_cmp(
            k,
            (#[trigger] r[a]).0,
            (#[trigger] r[b]).0,
        ) == -1 by {
            assert(r[a].0 == s[a].0 && r[b].0 == s[b].0);
        }
        assert forall|j: int| 0 <= j < r.len() implies fixed(t, (#[trigger] r[j]).1) && key_ok(
            k,
            r[j].0,
        ) by {
            if j != i {
                assert(r[j] == s[j]);
            }
        }
    } else {
        if i < s.len() {
            lemma_key_cmp(k, s[i].0, key, key);
        }
        assert forall|a: int, b: int| 0 <= a < b < r.len() implies key_cmp(
            k,
            (#[trigger] r[a]).0,
            (#[trigger] r[b]).0,
        ) == -1 by {
            if b < i {
                assert(r[a] == s[a] && r[b] == s[b]);
            } else if b == i {
                assert(r[a] == s[a]);
            } else if a == i {
                assert(r[b] == s[b - 1]);
                if b - 1 > i {
                    lemma_key_cmp(k, key, s[i].0, s[b - 1].0);
                }
            } else if a < i {
                assert(r[a] == s[a] && r[b] == s[b - 1]);
            } else {
                assert(r[a] == s[a - 1] && r[b] == s[b - 1]);
            }
        }
        assert forall|j: int| 0 <= j < r.len() implies fixed(t, (#[trigger] r[j]).1) && key_ok(
            k,
            r[j].0,
        ) by {
            if j < i {
                assert(r[j] == s[j]);
            } else if j > i {
                assert(r[j] == s[j - 1]);
            }
        }
    }
}

proof fn lemma_map_norm(k: ValueType, t: ValueType, s: Seq<(Seq<char>, Json)>)
    requires
        entries_fixed(k, t, s),
    ensures
        keys_sorted(k, map_norm(k, s)),
        entries_fixed(k, t, map_norm(k, s)),
    decreases s.len(),
{
    if s.len() > 0 {
        assert forall|j: int| 0 <= j < s.drop_last().len() implies fixed(
            t,
            (#[trigger] s.drop_last()[j]).1,
        ) && key_ok(k, s.drop_last()[j].0) by {
            assert(s.drop_last()[j] == s[j]);
        }
        lemma_map_norm(k, t, s.drop_last());
        assert(fixed(t, s[s.len() - 1].1) && key_ok(k, s[s.len() - 1].0));
        lemma_upsert(k, t, map_norm(k, s.drop_last()), s.last().0, s.last().1);
    }
}

proof fn lemma_map_norm_sorted(k: ValueType, s: Seq<(Seq<char>, Json)>)
    requires
        keys_sorted(k, s),
    ensures
        map_norm(k, s) == s,
    decreases s.len(),
{
    if s.len() > 0 {
        let d = s.drop_last();
        assert(keys_sorted(k, d)) by {
            assert forall|a: int, b: int| 0 <= a < b < d.len() implies key_cmp(
                k,
                (#[trigger] d[a]).0,
                (#[trigger] d[b]).0,
            ) == -1 by {
                assert(d[a] == s[a] && d[b] == s[b]);
            }
        }
        lemma_map_norm_sorted(k, d);
        let key = s.last().0;
        lemma_key_index_props(k, d, key);
        if key_index(k, d, key) < d.len() {
            let j = key_index(k, d, key) as int;
            assert(d[j] == s[j]);
            assert(key_cmp(k, s[j].0, key) == -1);
            assert(false);
        }
        lemma_key_cmp(k, key, key, key);
        assert(d.insert(d.len() as int, (key, s.last().1)) =~= s);
    }
}

/// Reading a value back: a value of type `t` is held as the canonical JSON that reading gives,
/// and reading that JSON again gives the same value.
pub proof fn lemma_round_trip(t: ValueType, j: Json)
    requires
        parse_spec(t, j) is Some,
    ensures
        fixed(t, parse_spec(t, j)->0),
    decreases t,
{
    match t {
        ValueType::List(e) => {
            if let Json::Array(items) = j {
                lemma_parse_all_index(*e, items);
                let p = parse_all(*e, items)->0;
                assert forall|k: int| 0 <= k < p.len() implies fixed(*e, #[trigger] p[k]) by {
                    lemma_round_trip(*e, items[k]);
                }
                lemma_parse_all_fixed(*e, p);
            }
        },
        ValueType::SetOf(e) => {
            if let Json::Array(items) = j {
                lemma_parse_all_index(*e, items);
                let p = parse_all(*e, items)->0;
                assert forall|k: int| 0 <= k < p.len() implies fixed(*e, #[trigger] p[k]) by {
                    lemma_round_trip(*e, items[k]);
                }
                lemma_set_norm(*e, p);
                let q = set_norm(*e, p);
                lemma_parse_all_fixed(*e, q);
                lemma_set_norm_sorted(*e, q);
            }
        },
        ValueType::MapOf(kt, e) => {
            if let Json::Object(entries) = j {
                lemma_parse_entries_index(*kt, *e, entries);
                let p = parse_entries(*kt, *e, entries)->0;
                assert forall|k: int| 0 <= k < p.len() implies fixed(*e, (#[trigger] p[k]).1)
                    && key_ok(*kt, p[k].0) by {
                    lemma_round_trip(*e, entries[k].1);
                }
                lemma_map_norm(*kt, *e, p);
                let q = map_norm(*kt, p);
                lemma_parse_entries_fixed(*kt, *e, q);
                lemma_map_norm_sorted(*kt, q);
            }
        },
        ValueType::Optional(e) => {
            if !(j is Null) {
                lemma_round_trip(*e, j);
            }
        },
        _ => {},
    }
}

/// Reloading, again and again, from a persistence that holds nothing keeps every flag at its
/// default and records that nothing was found.
pub proof fn lemma_reload_nothing_stored(states: Seq<Feattles>, nows: Seq<i64>)
    requires
        states.len() == nows.len() + 1,
        states[0].all_default(),
        forall|i: int|
            0 <= i < nows.len() ==> #[trigger] states[i + 1].reloaded_from(
                states[i],
                None,
                nows[i],
            ),
    ensures
        forall|i: int| 0 <= i < states.len() ==> (#[trigger] states[i]).all_default(),
        forall|i: int|
            1 <= i < states.len() ==> (#[trigger] states[i]).last_reload == (LastReload::NoData {
                reload_date: nows[i - 1],
            }),
    decreases nows.len(),
{
    if nows.len() > 0 {
        let n = nows.len() - 1;
        lemma_reload_nothing_stored(states.take(n + 1), nows.take(n));
        assert(states.take(n + 1)[n] == states[n]);
        assert(states[n + 1].reloaded_from(states[n], None, nows[n]));
        assert forall|i: int| 0 <= i < states.len() implies (#[trigger] states[i]).all_default() by {
            if i <= n {
                assert(states.take(n + 1)[i] == states[i]);
            }
        }
        assert forall|i: int| 1 <= i < states.len() implies (#[trigger] states[i]).last_reload == (
        LastReload::NoData { reload_date: nows[i - 1] }) by {
            if i <= n {
                assert(states.take(n + 1)[i] == states[i]);
                assert(nows.take(n)[i - 1] == nows[i - 1]);
            }
        }
    }
}

/// After a successful update of a flag, a reload of the current values it saved gives the flag
/// the value that the update set, from the same stored value (same author, same date).
pub proof fn lemma_update_then_reload(
    s0: Feattles,
    s1: Feattles,
    s2: Feattles,
    i: int,
    value: Json,
    by: Seq<char>,
    now: i64,
)
    requires
        s1.updated(s0, i, value, by),
        s2.reloaded_from(s1, values_model(s1.current_values), now),
    ensures
        s2.feattles@[i].value@ == parse_spec(s0.feattles@[i].ty, value)->0,
        entry_model(s2.feattles@[i].current_value) == entry_model(s1.feattles@[i].current_value),
        entry_by(entry_model(s2.feattles@[i].current_value)->0) == by,
{
    let f = s1.feattles@[i];
    let e = entry_model(f.current_value)->0;
    let v = values_model(s1.current_values)->0;
    lemma_lookup_set_entry(s0.current_values->0@.2, f.key@, e);
    assert(s2.feattles@[i].updated_from(f, lookup(v.2, f.key@)));
}

/// The version of the current values grows by exactly one with each successful update.
pub proof fn lemma_update_versions(
    states: Seq<Feattles>,
    flags: Seq<int>,
    values: Seq<Json>,
    bys: Seq<Seq<char>>,
)
    requires
        states.len() == flags.len() + 1,
        flags.len() == values.len(),
        flags.len() == bys.len(),
        forall|k: int|
            0 <= k < flags.len() ==> #[trigger] states[k + 1].updated(
                states[k],
                flags[k],
                values[k],
                bys[k],
            ),
    ensures
        forall|k: int|
            1 <= k < states.len() ==> (#[trigger] states[k]).current_values is Some
                && states[k].current_values->0.version == states[0].current_values->0.version
                + k,
    decreases flags.len(),
{
    if flags.len() > 0 {
        let n = flags.len() - 1;
        lemma_update_versions(states.take(n + 1), flags.take(n), values.take(n), bys.take(n));
        assert(states[n + 1].updated(states[n], flags[n], values[n], bys[n]));
        assert forall|k: int| 1 <= k < states.len() implies (#[trigger] states[k]).current_values
            is Some && states[k].current_values->0.version == states[0].current_values->0.version
            + k by {
            if k <= n {
                assert(states.take(n + 1)[k] == states[k]);
            }
            if k == n + 1 && n >= 1 {
                assert(states.take(n + 1)[n] == states[n]);
            }
        }
    }
}

} // verus!
