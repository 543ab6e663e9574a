use vstd::prelude::*;

use crate::json::{Json, JsonValue};

verus! {

/// The model of a stored value: when it was set, by whom, and the value.
pub type EntryModel = (i64, Seq<char>, Json);

/// When a stored value was set.
pub open spec fn entry_at(e: EntryModel) -> i64 {
    e.0
}

/// Who made the modification of a stored value.
pub open spec fn entry_by(e: EntryModel) -> Seq<char> {
    e.1
}

/// The value of a stored value.
pub open spec fn entry_value(e: EntryModel) -> Json {
    e.2
}

/// The stored value of a single flag.
#[derive(Debug)]
pub struct CurrentValue {
    /// When this modification was made, in milliseconds since the Unix epoch.
    pub modified_at: i64,
    /// Who made this modification.
    pub modified_by: String,
    /// The value, as JSON.
    pub value: JsonValue,
}

impl View for CurrentValue {
    type V = EntryModel;

    open spec fn view(&self) -> EntryModel {
        (self.modified_at, self.modified_by@, self.value@)
    }
}

impl CurrentValue {
    /// A copy of this stored value.
    pub fn copy(&self) -> (r: CurrentValue)
        ensures
            r@ == self@,
    {
        CurrentValue {
            modified_at: self.modified_at,
            modified_by: self.modified_by.clone(),
            value: self.value.copy(),
        }
    }
}

/// The model of an optional stored value.
pub open spec fn entry_model(e: Option<CurrentValue>) -> Option<EntryModel> {
    match e {
        Some(v) => Some(v@),
        None => None,
    }
}

/// The models of keyed stored values.
pub open spec fn entries_model(s: Seq<(String, CurrentValue)>) -> Seq<(Seq<char>, EntryModel)> {
    Seq::new(s.len(), |i: int| (s[i].0@, s[i].1@))
}

/// The index of the first entry with key `k`, or the length if there is none.
pub open spec fn find_key(s: Seq<(Seq<char>, EntryModel)>, k: Seq<char>) -> nat
    decreases s.len(),
{
    if s.len() == 0 {
        0
    } else if s[0].0 == k {
        0
    } else {
        1 + find_key(s.drop_first(), k)
    }
}

/// The value stored for `k`, if any.
pub open spec fn lookup(s: Seq<(Seq<char>, EntryModel)>, k: Seq<char>) -> Option<EntryModel> {
    let i = find_key(s, k) as int;
    if i < s.len() {
        Some(s[i].1)
    } else {
        None
    }
}

/// `s` with `(k, e)`: it replaces the first entry with key `k`, or is added last.
pub open spec fn set_entry(s: Seq<(Seq<char>, EntryModel)>, k: Seq<char>, e: EntryModel) -> Seq<
    (Seq<char>, EntryModel),
> {
    let i = find_key(s, k) as int;
    if i < s.len() {
        s.update(i, (k, e))
    } else {
        s.push((k, e))
    }
}

proof fn lemma_find_key(s: Seq<(Seq<char>, EntryModel)>, k: Seq<char>, i: int)
    requires
        0 <= i <= s.len(),
        forall|j: int| 0 <= j < i ==> (#[trigger] s[j]).0 != k,
        i == s.len() || s[i].0 == k,
    ensures
        find_key(s, k) == i,
    decreases i,
{
    if i > 0 {
        assert(s[0].0 != k);
        assert forall|j: int| 0 <= j < i - 1 implies (#[trigger] s.drop_first()[j]).0 != k by {
            assert(s.drop_first()[j] == s[j + 1]);
        }
        lemma_find_key(s.drop_first(), k, i - 1);
    }
}

proof fn lemma_find_key_props(s: Seq<(Seq<char>, EntryModel)>, k: Seq<char>)
    ensures
        find_key(s, k) <= s.len(),
        forall|j: int| 0 <= j < find_key(s, k) ==> (#[trigger] s[j]).0 != k,
        find_key(s, k) < s.len() ==> s[find_key(s, k) as int].0 == k,
    decreases s.len(),
{
    if s.len() > 0 && s[0].0 != k {
        lemma_find_key_props(s.drop_first(), k);
        assert forall|j: int| 0 <= j < find_key(s, k) implies (#[trigger] s[j]).0 != k by {
            if j > 0 {
                assert(s[j] == s.drop_first()[j - 1]);
            }
        }
    }
}

/// What was just stored for a key is what is found for it.
pub proof fn lemma_lookup_set_entry(s: Seq<(Seq<char>, EntryModel)>, k: Seq<char>, e: EntryModel)
    ensures
        lookup(set_entry(s, k, e), k) == Some(e),
{
    lemma_find_key_props(s, k);
    let i = find_key(s, k) as int;
    let r = set_entry(s, k, e);
    assert forall|j: int| 0 <= j < i implies (#[trigger] r[j]).0 != k by {
        assert(r[j] == s[j]);
    }
    lemma_find_key(r, k, i);
}

/// The model of a snapshot: its version, its date and its entries.
pub type ValuesModel = (i32, i64, Seq<(Seq<char>, EntryModel)>);

/// The stored values of all flags.
#[derive(Debug)]
pub struct CurrentValues {
    /// A version that grows by one with each successful update.
    pub version: i32,
    /// When this version was created, in milliseconds since the Unix epoch.
    pub date: i64,
    /// The stored value of each flag that was ever modified, each key once. Keys that no flag of
    /// the registry has are kept as they are.
    pub feattles: Vec<(String, CurrentValue)>,
}

impl View for CurrentValues {
    type V = ValuesModel;

    open spec fn view(&self) -> ValuesModel {
        (self.version, self.date, entries_model(self.feattles@))
    }
}

impl CurrentValues {
    /// No two entries share a key.
    pub open spec fn keys_unique(&self) -> bool {
        forall|a: int, b: int|
            0 <= a < b < self.feattles@.len() ==> (#[trigger] self.feattles@[a]).0@
                != (#[trigger] self.feattles@[b]).0@
    }

    /// An empty snapshot.
    pub fn empty(version: i32, date: i64) -> (r: CurrentValues)
        ensures
            r@ == (version, date, Seq::<(Seq<char>, EntryModel)>::empty()),
            r.keys_unique(),
    {
        let r = CurrentValues { version, date, feattles: Vec::new() };
        assert(entries_model(r.feattles@) =~= Seq::empty());
        r
    }

    /// The index of the entry with key `key`, if any.
    fn position(&self, key: &str) -> (r: usize)
        ensures
            r == find_key(entries_model(self.feattles@), key@),
            r <= self.feattles@.len(),
    {
        let ghost es = entries_model(self.feattles@);
        let mut i: usize = 0;
        while i < self.feattles.len() && !str_eq(self.feattles[i].0.as_str(), key)
            invariant
                0 <= i <= self.feattles@.len(),
                es == entries_model(self.feattles@),
                forall|j: int| 0 <= j < i ==> (#[trigger] es[j]).0 != key@,
            decreases self.feattles@.len() - i,
        {
            i += 1;
        }
        proof {
            lemma_find_key(es, key@, i as int);
        }
        i
    }

    /// The value stored for `key`, if any.
    pub fn get(&self, key: &str) -> (r: Option<&CurrentValue>)
        ensures
            match r {
                Some(v) => lookup(self@.2, key@) == Some(v@),
                None => lookup(self@.2, key@) is None,
            },
    {
        let i = self.position(key);
        if i < self.feattles.len() {
            Some(&self.feattles[i].1)
        } else {
            None
        }
    }

    /// Stores `value` for `key`, in place of what was stored for it.
    pub fn insert(&mut self, key: String, value: CurrentValue)
        ensures
            final(self)@ == (old(self)@.0, old(self)@.1, set_entry(old(self)@.2, key@, value@)),
            old(self).keys_unique() ==> final(self).keys_unique(),
    {
        let i = self.position(key.as_str());
        proof {
            lemma_find_key_props(entries_model(self.feattles@), key@);
        }
        let ghost es = entries_model(self.feattles@);
        let ghost entry = (key@, value@);
        if i < self.feattles.len() {
            self.feattles.set(i, (key, value));
            assert(entries_model(self.feattles@) =~= es.update(i as int, entry));
            assert(es[i as int].0 == entry.0);
        } else {
            self.feattles.push((key, value));
            assert(entries_model(self.feattles@) =~= es.push(entry));
            assert forall|a: int| 0 <= a < i implies (#[trigger] self.feattles@[a]).0@ != key@ by {
                assert(es[a].0 == self.feattles@[a].0@);
            }
        }
    }

    /// A copy of this snapshot.
    pub fn copy(&self) -> (r: CurrentValues)
        ensures
            r@ == self@,
    {
        let mut out: Vec<(String, CurrentValue)> = Vec::new();
        let mut i: usize = 0;
        while i < self.feattles.len()
            invariant
                0 <= i <= self.feattles@.len(),
                out@.len() == i,
                forall|j: int|
                    0 <= j < i ==> (#[trigger] out@[j]).0@ == self.feattles@[j].0@ && out@[j].1@
                        == self.feattles@[j].1@,
            decreases self.feattles@.len() - i,
        {
            out.push((self.feattles[i].0.clone(), self.feattles[i].1.copy()));
            i += 1;
        }
        let r = CurrentValues { version: self.version, date: self.date, feattles: out };
        assert(entries_model(r.feattles@) =~= entries_model(self.feattles@));
        r
    }
}

/// Whether two strings are equal.
pub fn str_eq(a: &str, b: &str) -> (r: bool)
    ensures
        r == (a@ == b@),
{
    let x = a.to_string();
    let y = b.to_string();
    x == y
}

/// The value of a flag at one point in time.
#[derive(Debug)]
pub struct HistoryEntry {
    /// The value, as JSON.
    pub value: JsonValue,
    /// A short human description of the value.
    pub value_overview: String,
    /// When this modification was made, in milliseconds since the Unix epoch.
    pub modified_at: i64,
    /// Who made this modification.
    pub modified_by: String,
}

/// The model of a history entry: value, overview, date and author.
pub type HistoryEntryModel = (Json, Seq<char>, i64, Seq<char>);

impl View for HistoryEntry {
    type V = HistoryEntryModel;

    open spec fn view(&self) -> HistoryEntryModel {
        (self.value@, self.value_overview@, self.modified_at, self.modified_by@)
    }
}

/// The modifications of a single flag, in no particular order.
#[derive(Debug)]
pub struct ValueHistory {
    pub entries: Vec<HistoryEntry>,
}

impl View for ValueHistory {
    type V = Seq<HistoryEntryModel>;

    open spec fn view(&self) -> Seq<HistoryEntryModel> {
        Seq::new(self.entries@.len(), |i: int| self.entries@[i]@)
    }
}

impl ValueHistory {
    /// A history without entries.
    pub fn new() -> (r: ValueHistory)
        ensures
            r@ == Seq::<HistoryEntryModel>::empty(),
    {
        let r = ValueHistory { entries: Vec::new() };
        assert(r@ =~= Seq::empty());
        r
    }

    /// A copy of this history.
    pub fn copy(&self) -> (r: ValueHistory)
        ensures
            r@ == self@,
    {
        let mut out: Vec<HistoryEntry> = Vec::new();
        let mut i: usize = 0;
        while i < self.entries.len()
            invariant
                0 <= i <= self.entries@.len(),
                out@.len() == i,
                forall|j: int| 0 <= j < i ==> (#[trigger] out@[j])@ == self.entries@[j]@,
            decreases self.entries@.len() - i,
        {
            let e = &self.entries[i];
            out.push(
                HistoryEntry {
                    value: e.value.copy(),
                    value_overview: e.value_overview.clone(),
                    modified_at: e.modified_at,
                    modified_by: e.modified_by.clone(),
                },
            );
            i += 1;
        }
        let r = ValueHistory { entries: out };
        assert(r@ =~= self@);
        r
    }

    /// Adds an entry at the end.
    pub fn push(&mut self, entry: HistoryEntry)
        ensures
            final(self)@ == old(self)@.push(entry@),
    {
        let ghost e = entry@;
        self.entries.push(entry);
        assert(self@ =~= old(self)@.push(e));
    }
}

/// Where the current values and the history of each flag are kept. The registry calls these
/// methods and makes no assumption on what they store: each may fail.
pub trait Persist {
    type Error;

    /// Saves the current values of all flags.
    fn save_current(&self, value: &CurrentValues) -> Result<(), Self::Error>;

    /// Loads the current values of all flags; `None` where nothing was ever saved.
    fn load_current(&self) -> Result<Option<CurrentValues>, Self::Error>;

    /// Saves the whole history of one flag.
    fn save_history(&self, key: &str, value: &ValueHistory) -> Result<(), Self::Error>;

    /// Loads the whole history of one flag; `None` where it has none.
    fn load_history(&self, key: &str) -> Result<Option<ValueHistory>, Self::Error>;
}

/// A persistence that stores nothing: saving succeeds and loading finds nothing.
#[derive(Debug, Clone, Copy, PartialEq, Eq, Structural)]
pub struct NoPersistence;

impl Persist for NoPersistence {
    type Error = ();

    fn save_current(&self, _value: &CurrentValues) -> Result<(), ()> {
        Ok(())
    }

    fn load_current(&self) -> Result<Option<CurrentValues>, ()> {
        Ok(None)
    }

    fn save_history(&self, _key: &str, _value: &ValueHistory) -> Result<(), ()> {
        Ok(())
    }

    fn load_history(&self, _key: &str) -> Result<Option<ValueHistory>, ()> {
        Ok(None)
    }
}

} // verus!
