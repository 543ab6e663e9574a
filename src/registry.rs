use vstd::prelude::*;

use crate::format::{describes, serialized_format, tag_spec, SerializedFormat};
use crate::json::{FromJsonError, Json, JsonValue, Number};
use crate::last_reload::LastReload;
use crate::overview::{overview, overview_spec};
use crate::persist::{
    entry_by, entry_model, entry_value, lookup, set_entry, str_eq, CurrentValue, CurrentValues,
    EntryModel, HistoryEntry, HistoryEntryModel, Persist, ValueHistory, ValuesModel, entry_at,
};
use crate::value::{parse, parse_spec, ValueType};

verus! {

/// A snapshot that describes one flag. Dates are milliseconds since the Unix epoch.
#[derive(Debug)]
pub struct FeattleDefinition {
    pub key: String,
    pub description: String,
    pub format: SerializedFormat,
    /// The current value, as JSON.
    pub value: JsonValue,
    /// A short human description of the current value.
    pub value_overview: String,
    /// The default value, as JSON.
    pub default: JsonValue,
    /// When the stored value in use was set, if one is.
    pub modified_at: Option<i64>,
    /// Who set the stored value in use, if one is.
    pub modified_by: Option<String>,
}

/// Whether `d` describes the flag `f`.
pub open spec fn is_definition_of(d: FeattleDefinition, f: Feattle) -> bool {
    &&& d.key@ == f.key@
    &&& d.description@ == f.description@
    &&& describes(d.format.kind, f.ty)
    &&& d.format.tag@ == tag_spec(f.ty)
    &&& d.value@ == f.value@
    &&& d.value_overview@ == overview_spec(f.ty, f.value@)
    &&& d.default@ == f.default@
    &&& match f.current_value {
        Some(cv) => d.modified_at == Some(cv.modified_at) && d.modified_by is Some
            && d.modified_by->0@ == cv.modified_by@,
        None => d.modified_at is None && d.modified_by is None,
    }
}

/// One flag: its key, description and type, its current and default values, and the stored
/// value that it was last set from, if any. Values are held in canonical form.
#[derive(Debug)]
pub struct Feattle {
    pub key: String,
    pub description: String,
    pub ty: ValueType,
    pub value: JsonValue,
    pub default: JsonValue,
    pub current_value: Option<CurrentValue>,
}

impl Feattle {
    /// The value is the default where no stored value is in use, and what reading the stored
    /// value gives where one is.
    pub open spec fn wf(&self) -> bool {
        match self.current_value {
            None => self.value@ == self.default@,
            Some(cv) => parse_spec(self.ty, cv.value@) == Some(self.value@),
        }
    }

    /// The value that the flag takes from the stored value `entry` (the default where there is
    /// none), or `None` where it cannot be read.
    pub open spec fn value_from(&self, entry: Option<EntryModel>) -> Option<Json> {
        match entry {
            None => Some(self.default@),
            Some(e) => parse_spec(self.ty, e.2),
        }
    }

    /// Whether `self` is `old` with the stored value `entry` applied, or `old` itself where
    /// `entry` cannot be read.
    pub open spec fn updated_from(&self, old: Feattle, entry: Option<EntryModel>) -> bool {
        match old.value_from(entry) {
            Some(j) => {
                &&& self.key == old.key
                &&& self.description == old.description
                &&& self.ty == old.ty
                &&& self.default == old.default
                &&& self.value@ == j
                &&& entry_model(self.current_value) == entry
            },
            None => *self == old,
        }
    }

    /// A flag with the given default, read as a value of type `ty`; it fails where the default
    /// cannot be read.
    pub fn new(key: String, description: String, ty: ValueType, default: &JsonValue) -> (r: Result<
        Feattle,
        FromJsonError,
    >)
        ensures
            match parse_spec(ty, default@) {
                Some(d) => r is Ok && r->Ok_0.wf() && r->Ok_0.key == key && r->Ok_0.description
                    == description && r->Ok_0.ty == ty && r->Ok_0.value@ == d && r->Ok_0.default@
                    == d && r->Ok_0.current_value is None,
                None => r is Err,
            },
    {
        let default = parse(&ty, default)?;
        let value = default.copy();
        Ok(Feattle { key, description, ty, value, default, current_value: None })
    }

    /// A snapshot that describes this flag.
    pub fn definition(&self) -> (r: FeattleDefinition)
        ensures
            is_definition_of(r, *self),
    {
        let (modified_at, modified_by) = match &self.current_value {
            Some(cv) => (Some(cv.modified_at), Some(cv.modified_by.clone())),
            None => (None, None),
        };
        FeattleDefinition {
            key: self.key.clone(),
            description: self.description.clone(),
            format: serialized_format(&self.ty),
            value: self.value.copy(),
            value_overview: overview(&self.ty, &self.value),
            default: self.default.copy(),
            modified_at,
            modified_by,
        }
    }

    /// Sets the flag from the stored value `entry`, or back to its default where there is none,
    /// and returns the stored value that was in use before. Where `entry` cannot be read, the
    /// flag is left as it was.
    pub fn update(&mut self, entry: Option<CurrentValue>) -> (r: Result<
        Option<CurrentValue>,
        FromJsonError,
    >)
        requires
            old(self).wf(),
        ensures
            final(self).wf(),
            final(self).updated_from(*old(self), entry_model(entry)),
            r is Ok <==> old(self).value_from(entry_model(entry)) is Some,
            r is Ok ==> entry_model(r->Ok_0) == entry_model(old(self).current_value),
    {
        let value = match &entry {
            None => self.default.copy(),
            Some(e) => parse(&self.ty, &e.value)?,
        };
        self.value = value;
        let previous = self.current_value.take();
        self.current_value = entry;
        Ok(previous)
    }
}

/// Why an update failed.
#[derive(Debug)]
pub enum UpdateError<E> {
    /// No reload has succeeded yet, so there are no current values to update.
    NeverReloaded,
    /// No flag has this key.
    UnknownKey(String),
    /// The new value cannot be read as a value of the flag's type.
    Parsing(FromJsonError),
    /// The persistence failed.
    Persistence(E),
    /// The current values have reached the greatest version there is.
    VersionOverflow,
}

/// Why the history of a flag could not be read.
#[derive(Debug)]
pub enum HistoryError<E> {
    /// No flag has this key.
    UnknownKey(String),
    /// The persistence failed.
    Persistence(E),
}

/// The model of an optional snapshot.
pub open spec fn values_model(v: Option<CurrentValues>) -> Option<ValuesModel> {
    match v {
        Some(c) => Some(c@),
        None => None,
    }
}

/// A registry of flags: their values, what the last reload found, and the current values as
/// updates changed them since. The persistence that keeps them is passed to the methods that
/// use it, so that a caller that shares the registry behind a lock can reach the persistence
/// without holding the lock.
#[derive(Debug)]
pub struct Feattles {
    pub feattles: Vec<Feattle>,
    pub last_reload: LastReload,
    pub current_values: Option<CurrentValues>,
}

impl Feattles {
    /// Each flag is consistent, and no two flags share a key.
    pub open spec fn wf(&self) -> bool {
        &&& forall|i: int| 0 <= i < self.feattles@.len() ==> (#[trigger] self.feattles@[i]).wf()
        &&& forall|i: int, j: int|
            0 <= i < j < self.feattles@.len() ==> (#[trigger] self.feattles@[i]).key@
                != (#[trigger] self.feattles@[j]).key@
    }

    /// Whether a flag has key `key`.
    pub open spec fn has_key(&self, key: Seq<char>) -> bool {
        exists|i: int| 0 <= i < self.feattles@.len() && #[trigger] self.feattles@[i].key@ == key
    }

    /// Whether `self` is `old` after a successful reload at date `now` that found `loaded`.
    /// Where nothing was found, the flags are kept as they are.
    pub open spec fn reloaded_from(&self, old: Self, loaded: Option<ValuesModel>, now: i64) -> bool {
        &&& self.feattles@.len() == old.feattles@.len()
        &&& match loaded {
            None => {
                &&& self.last_reload == (LastReload::NoData { reload_date: now })
                &&& values_model(self.current_values) == Some(
                    (0i32, now, Seq::<(Seq<char>, EntryModel)>::empty()),
                )
                &&& self.feattles@ == old.feattles@
            },
            Some(v) => {
                &&& self.last_reload == (LastReload::Data {
                    reload_date: now,
                    version: v.0,
                    version_date: v.1,
                })
                &&& values_model(self.current_values) == Some(v)
                &&& forall|i: int|
                    0 <= i < self.feattles@.len() ==> (#[trigger] self.feattles@[i]).updated_from(
                        old.feattles@[i],
                        lookup(v.2, old.feattles@[i].key@),
                    )
            },
        }
    }

    /// Whether every flag holds its default, from no stored value.
    pub open spec fn all_default(&self) -> bool {
        forall|i: int|
            0 <= i < self.feattles@.len() ==> (#[trigger] self.feattles@[i]).current_value is None
                && self.feattles@[i].value@ == self.feattles@[i].default@
    }

    /// Whether the flags of `self` hold the same values as those of `old`, from the same stored
    /// values.
    pub open spec fn same_values(&self, old: Self) -> bool {
        &&& self.feattles@.len() == old.feattles@.len()
        &&& forall|j: int|
            0 <= j < self.feattles@.len() ==> {
                let f = #[trigger] self.feattles@[j];
                let g = old.feattles@[j];
                &&& f.key == g.key
                &&& f.description == g.description
                &&& f.ty == g.ty
                &&& f.default == g.default
                &&& f.value@ == g.value@
                &&& entry_model(f.current_value) == entry_model(g.current_value)
            }
    }

    /// Whether `self` is `old` after a successful update of the flag at `i` to `value`, by
    /// `by`: the flag takes the value read from it, and the current values get the new stored
    /// value and the next version.
    pub open spec fn updated(&self, old: Self, i: int, value: Json, by: Seq<char>) -> bool {
        let f = self.feattles@[i];
        let entry = entry_model(f.current_value);
        &&& 0 <= i < old.feattles@.len()
        &&& self.feattles@.len() == old.feattles@.len()
        &&& entry is Some
        &&& entry_by(entry->0) == by
        &&& entry_value(entry->0) == value
        &&& f.updated_from(old.feattles@[i], entry)
        &&& parse_spec(f.ty, value) is Some
        &&& f.value@ == parse_spec(f.ty, value)->0
        &&& forall|j: int|
            0 <= j < self.feattles@.len() && j != i ==> #[trigger] self.feattles@[j]
                == old.feattles@[j]
        &&& old.current_values is Some
        &&& old.current_values->0.version < i32::MAX
        &&& values_model(self.current_values) == Some(
            (
                (old.current_values->0.version + 1) as i32,
                old.current_values->0.date,
                set_entry(old.current_values->0@.2, f.key@, entry->0),
            ),
        )
    }

    /// A registry of the given flags, all at their defaults, never reloaded.
    pub fn new(feattles: Vec<Feattle>) -> (r: Self)
        requires
            forall|i: int| 0 <= i < feattles@.len() ==> (#[trigger] feattles@[i]).wf(),
            forall|i: int, j: int|
                0 <= i < j < feattles@.len() ==> (#[trigger] feattles@[i]).key@
                    != (#[trigger] feattles@[j]).key@,
        ensures
            r.wf(),
            r.feattles == feattles,
            r.last_reload == LastReload::Never,
            r.current_values is None,
    {
        Feattles { feattles, last_reload: LastReload::Never, current_values: None }
    }

    /// The keys of all flags, in declaration order.
    pub fn keys(&self) -> (r: Vec<String>)
        ensures
            r@.len() == self.feattles@.len(),
            forall|i: int| 0 <= i < r@.len() ==> (#[trigger] r@[i])@ == self.feattles@[i].key@,
    {
        let mut out: Vec<String> = Vec::new();
        let mut i: usize = 0;
        while i < self.feattles.len()
            invariant
                0 <= i <= self.feattles@.len(),
                out@.len() == i,
                forall|k: int| 0 <= k < i ==> (#[trigger] out@[k])@ == self.feattles@[k].key@,
            decreases self.feattles@.len() - i,
        {
            out.push(self.feattles[i].key.clone());
            i += 1;
        }
        out
    }

    /// The position of the flag with key `key`, if there is one.
    pub fn position(&self, key: &str) -> (r: Option<usize>)
        ensures
            match r {
                Some(i) => i < self.feattles@.len() && self.feattles@[i as int].key@ == key@,
                None => !self.has_key(key@),
            },
    {
        let mut i: usize = 0;
        while i < self.feattles.len()
            invariant
                0 <= i <= self.feattles@.len(),
                forall|k: int| 0 <= k < i ==> (#[trigger] self.feattles@[k]).key@ != key@,
            decreases self.feattles@.len() - i,
        {
            if str_eq(self.feattles[i].key.as_str(), key) {
                return Some(i);
            }
            i += 1;
        }
        None
    }

    /// The current value of the flag with key `key`, if there is one.
    pub fn value(&self, key: &str) -> (r: Option<&JsonValue>)
        ensures
            match r {
                Some(v) => exists|i: int|
                    0 <= i < self.feattles@.len() && self.feattles@[i].key@ == key@
                        && #[trigger] self.feattles@[i].value == *v,
                None => !self.has_key(key@),
            },
    {
        match self.position(key) {
            Some(i) => Some(&self.feattles[i].value),
            None => None,
        }
    }

    /// A snapshot that describes the flag `key`, if there is one.
    pub fn definition(&self, key: &str) -> (r: Option<FeattleDefinition>)
        ensures
            match r {
                Some(d) => exists|i: int|
                    0 <= i < self.feattles@.len() && self.feattles@[i].key@ == key@
                        && is_definition_of(d, #[trigger] self.feattles@[i]),
                None => !self.has_key(key@),
            },
    {
        match self.position(key) {
            Some(i) => Some(self.feattles[i].definition()),
            None => None,
        }
    }

    /// Snapshots that describe all flags, in declaration order.
    pub fn definitions(&self) -> (r: Vec<FeattleDefinition>)
        ensures
            r@.len() == self.feattles@.len(),
            forall|i: int|
                0 <= i < r@.len() ==> is_definition_of(#[trigger] r@[i], self.feattles@[i]),
    {
        let mut out: Vec<FeattleDefinition> = Vec::new();
        let mut i: usize = 0;
        while i < self.feattles.len()
            invariant
                0 <= i <= self.feattles@.len(),
                out@.len() == i,
                forall|k: int|
                    0 <= k < i ==> is_definition_of(#[trigger] out@[k], self.feattles@[k]),
            decreases self.feattles@.len() - i,
        {
            out.push(self.feattles[i].definition());
            i += 1;
        }
        out
    }

    /// The current value of the flag `key`, if there is one.
    pub open spec fn value_at(&self, key: Seq<char>) -> Option<Json> {
        if self.has_key(key) {
            let i = choose|i: int|
                0 <= i < self.feattles@.len() && #[trigger] self.feattles@[i].key@ == key;
            Some(self.feattles@[i].value@)
        } else {
            None
        }
    }

    proof fn lemma_value_at(&self, key: Seq<char>, i: int)
        requires
            self.wf(),
            0 <= i < self.feattles@.len(),
            self.feattles@[i].key@ == key,
        ensures
            self.value_at(key) == Some(self.feattles@[i].value@),
    {
        let j = choose|j: int|
            0 <= j < self.feattles@.len() && #[trigger] self.feattles@[j].key@ == key;
        if j != i {
            if j < i {
                assert(self.feattles@[j].key@ != self.feattles@[i].key@);
            } else {
                assert(self.feattles@[i].key@ != self.feattles@[j].key@);
            }
        }
    }

    /// The current value of the boolean flag `key`; `None` where there is no such flag or its
    /// value is not a boolean.
    pub fn get_bool(&self, key: &str) -> (r: Option<bool>)
        requires
            self.wf(),
        ensures
            r == match self.value_at(key@) {
                Some(Json::Bool(b)) => Some(b),
                _ => None,
            },
    {
        match self.position(key) {
            Some(i) => {
                proof {
                    self.lemma_value_at(key@, i as int);
                }
                match &self.feattles[i].value {
                    JsonValue::Bool(b) => Some(*b),
                    _ => None,
                }
            },
            None => None,
        }
    }

    /// The current value of the integer flag `key`; `None` where there is no such flag or its
    /// value is not an integer that fits in `i64`.
    pub fn get_int(&self, key: &str) -> (r: Option<i64>)
        requires
            self.wf(),
        ensures
            r == match self.value_at(key@) {
                Some(Json::Int(n)) => if i64::MIN <= n <= i64::MAX {
                    Some(n as i64)
                } else {
                    None
                },
                _ => None,
            },
    {
        match self.position(key) {
            Some(i) => {
                proof {
                    self.lemma_value_at(key@, i as int);
                }
                match &self.feattles[i].value {
                    JsonValue::Number(Number::PosInt(n)) => if *n <= i64::MAX as u64 {
                        Some(*n as i64)
                    } else {
                        None
                    },
                    JsonValue::Number(Number::NegInt(n)) => Some(*n),
                    _ => None,
                }
            },
            None => None,
        }
    }

    /// The current value of the string flag `key`; `None` where there is no such flag or its
    /// value is not a string.
    pub fn get_str(&self, key: &str) -> (r: Option<String>)
        requires
            self.wf(),
        ensures
            match self.value_at(key@) {
                Some(Json::Str(s)) => r is Some && r->0@ == s,
                _ => r is None,
            },
    {
        match self.position(key) {
            Some(i) => {
                proof {
                    self.lemma_value_at(key@, i as int);
                }
                match &self.feattles[i].value {
                    JsonValue::String(s) => Some(s.clone()),
                    _ => None,
                }
            },
            None => None,
        }
    }

    /// When and with what the registry was last reloaded.
    pub fn last_reload(&self) -> (r: LastReload)
        ensures
            r == self.last_reload,
    {
        self.last_reload
    }

    /// The current values found by the last reload, as updates changed them since.
    pub fn current_values(&self) -> (r: Option<&CurrentValues>)
        ensures
            r == match &self.current_values {
                Some(c) => Some(c),
                None => None,
            },
    {
        match &self.current_values {
            Some(c) => Some(c),
            None => None,
        }
    }

    /// Takes in what a reload found, at date `now`. A flag whose stored value cannot be read
    /// keeps its value; the other flags are not affected by it.
    pub fn apply_reload(&mut self, loaded: Option<CurrentValues>, now: i64)
        requires
            old(self).wf(),
        ensures
            final(self).wf(),
            final(self).reloaded_from(*old(self), values_model(loaded), now),
    {
        match loaded {
            None => {
                self.last_reload = LastReload::NoData { reload_date: now };
                self.current_values = Some(CurrentValues::empty(0, now));
            },
            Some(values) => {
                self.last_reload = LastReload::Data {
                    reload_date: now,
                    version: values.version,
                    version_date: values.date,
                };
                let ghost before = self.feattles@;
                let mut i: usize = 0;
                while i < self.feattles.len()
                    invariant
                        0 <= i <= self.feattles@.len(),
                        before == old(self).feattles@,
                        self.last_reload == (LastReload::Data {
                            reload_date: now,
                            version: values@.0,
                            version_date: values@.1,
                        }),
                        self.feattles@.len() == before.len(),
                        forall|k: int| 0 <= k < before.len() ==> (#[trigger] before[k]).wf(),
                        forall|k: int|
                            0 <= k < self.feattles@.len() ==> (#[trigger] self.feattles@[k]).wf(),
                        forall|a: int, b: int|
                            0 <= a < b < before.len() ==> (#[trigger] before[a]).key@
                                != (#[trigger] before[b]).key@,
                        forall|k: int|
                            0 <= k < i ==> (#[trigger] self.feattles@[k]).updated_from(
                                before[k],
                                lookup(values@.2, before[k].key@),
                            ),
                        forall|k: int|
                            i <= k < self.feattles@.len() ==> #[trigger] self.feattles@[k]
                                == before[k],
                    decreases self.feattles@.len() - i,
                {
                    let entry = match values.get(self.feattles[i].key.as_str()) {
                        Some(e) => Some(e.copy()),
                        None => None,
                    };
                    let _ = self.feattles[i].update(entry);
                    i += 1;
                }
                self.current_values = Some(values);
            },
        }
    }

}

/// An update that is applied in memory and not yet saved: the new stored value of the flag
/// `key`, the current values that are to replace the registry's, the stored value that was in
/// use before, and an overview of the new value.
#[derive(Debug)]
pub struct PendingUpdate {
    pub key: String,
    pub new_value: CurrentValue,
    pub new_values: CurrentValues,
    pub previous: Option<CurrentValue>,
    pub value_overview: String,
}

impl PendingUpdate {
    /// `old` with the history entry of this update added at the end.
    pub fn history_with(&self, old: &ValueHistory) -> (r: ValueHistory)
        ensures
            r@ == old@.push(
                (
                    self.new_value.value@,
                    self.value_overview@,
                    self.new_value.modified_at,
                    self.new_value.modified_by@,
                ),
            ),
    {
        let mut history = old.copy();
        history.push(
            HistoryEntry {
                value: self.new_value.value.copy(),
                value_overview: self.value_overview.clone(),
                modified_at: self.new_value.modified_at,
                modified_by: self.new_value.modified_by.clone(),
            },
        );
        history
    }
}

/// What the history of a known flag is, given what loading it gave: the history loaded, an empty
/// one where there was none, or the error.
pub fn history_from_loaded<E>(loaded: Result<Option<ValueHistory>, E>) -> (r: Result<
    ValueHistory,
    HistoryError<E>,
>)
    ensures
        match loaded {
            Ok(Some(h)) => r is Ok && r->Ok_0@ == h@,
            Ok(None) => r is Ok && r->Ok_0@ == Seq::<HistoryEntryModel>::empty(),
            Err(_) => r matches Err(HistoryError::Persistence(_)),
        },
{
    match loaded {
        Ok(Some(h)) => Ok(h),
        Ok(None) => Ok(ValueHistory::new()),
        Err(e) => Err(HistoryError::Persistence(e)),
    }
}

impl Feattles {
    /// Whether `self` and `p` are `old` after the in-memory step of an update of the flag at
    /// `i` to `value`, by `by`, at date `now`: the flag takes the value read from it, and `p`
    /// holds what the later steps save or undo.
    pub open spec fn began_update(
        &self,
        old: Self,
        p: PendingUpdate,
        i: int,
        value: Json,
        by: Seq<char>,
        now: i64,
    ) -> bool {
        let f = self.feattles@[i];
        &&& 0 <= i < old.feattles@.len()
        &&& self.feattles@.len() == old.feattles@.len()
        &&& p.key@ == old.feattles@[i].key@
        &&& p.new_value.modified_by@ == by
        &&& p.new_value.modified_at == now
        &&& p.new_value.value@ == value
        &&& entry_model(f.current_value) == Some(p.new_value@)
        &&& f.updated_from(old.feattles@[i], Some(p.new_value@))
        &&& parse_spec(f.ty, value) is Some
        &&& f.value@ == parse_spec(f.ty, value)->0
        &&& entry_model(p.previous) == entry_model(old.feattles@[i].current_value)
        &&& p.value_overview@ == overview_spec(f.ty, f.value@)
        &&& forall|j: int|
            0 <= j < self.feattles@.len() && j != i ==> #[trigger] self.feattles@[j]
                == old.feattles@[j]
        &&& self.last_reload == old.last_reload
        &&& self.current_values == old.current_values
        &&& old.current_values is Some
        &&& old.current_values->0.version < i32::MAX
        &&& p.new_values@ == (
            (old.current_values->0.version + 1) as i32,
            old.current_values->0.date,
            set_entry(old.current_values->0@.2, p.key@, p.new_value@),
        )
    }

    /// The in-memory step of an update: checks the key and that a reload happened, sets the flag
    /// `key` to `value`, on behalf of `modified_by` at date `now` (milliseconds since the Unix
    /// epoch), and prepares the new current values. On an error nothing changes.
    pub fn begin_update<E>(
        &mut self,
        key: &str,
        value: JsonValue,
        modified_by: String,
        now: i64,
    ) -> (r: Result<PendingUpdate, UpdateError<E>>)
        requires
            old(self).wf(),
        ensures
            final(self).wf(),
            (r matches Err(UpdateError::UnknownKey(_))) <==> !old(self).has_key(key@),
            r is Err && r->Err_0 is UnknownKey ==> r->Err_0->UnknownKey_0@ == key@,
            (r matches Err(UpdateError::NeverReloaded)) <==> old(self).has_key(key@)
                && old(self).current_values is None,
            (r matches Err(UpdateError::VersionOverflow)) <==> old(self).has_key(key@)
                && old(self).current_values is Some && old(self).current_values->0.version
                == i32::MAX,
            (r matches Err(UpdateError::Parsing(_))) <==> exists|i: int|
                0 <= i < old(self).feattles@.len() && old(self).feattles@[i].key@ == key@
                    && old(self).current_values is Some && old(self).current_values->0.version
                    < i32::MAX && #[trigger] parse_spec(old(self).feattles@[i].ty, value@)
                    is None,
            !(r matches Err(UpdateError::Persistence(_))),
            r is Err ==> final(self).feattles@ == old(self).feattles@ && final(self).last_reload
                == old(self).last_reload && final(self).current_values
                == old(self).current_values,
            r is Ok ==> exists|i: int|
                0 <= i < old(self).feattles@.len() && #[trigger] old(self).feattles@[i].key@
                    == key@ && final(self).began_update(
                    *old(self),
                    r->Ok_0,
                    i,
                    value@,
                    modified_by@,
                    now,
                ),
    {
        let i = match self.position(key) {
            Some(i) => i,
            None => return Err(UpdateError::UnknownKey(key.to_string())),
        };
        let mut new_values = match &self.current_values {
            Some(c) => c.copy(),
            None => return Err(UpdateError::NeverReloaded),
        };
        if new_values.version == i32::MAX {
            return Err(UpdateError::VersionOverflow);
        }
        let new_value = CurrentValue { modified_at: now, modified_by, value };
        new_values.insert(key.to_string(), new_value.copy());
        new_values.version = new_values.version + 1;
        let previous = match self.feattles[i].update(Some(new_value.copy())) {
            Ok(previous) => previous,
            Err(e) => return Err(UpdateError::Parsing(e)),
        };
        let value_overview = overview(&self.feattles[i].ty, &self.feattles[i].value);
        let p = PendingUpdate {
            key: key.to_string(),
            new_value,
            new_values,
            previous,
            value_overview,
        };
        assert(self.began_update(
            *old(self),
            p,
            i as int,
            p.new_value.value@,
            p.new_value.modified_by@,
            now,
        ));
        Ok(p)
    }

    /// Undoes the in-memory step of `pending`: the flag goes back to the stored value that was
    /// in use before, as far as it can be read.
    pub fn restore(&mut self, pending: PendingUpdate)
        requires
            old(self).wf(),
        ensures
            final(self).wf(),
            final(self).restored_from(*old(self), pending),
    {
        if let Some(i) = self.position(pending.key.as_str()) {
            let _ = self.feattles[i].update(pending.previous);
        }
    }

    /// The last step of an update, once all is saved: the registry takes the new current values.
    pub fn commit(&mut self, pending: PendingUpdate)
        ensures
            final(self).feattles == old(self).feattles,
            final(self).last_reload == old(self).last_reload,
            final(self).current_values == Some(pending.new_values),
    {
        self.current_values = Some(pending.new_values);
    }

    /// Whether `self` is `old` with the in-memory step of `pending` undone: the flag `key` takes
    /// back the stored value that was in use before, as far as it can be read.
    pub open spec fn restored_from(&self, old: Self, pending: PendingUpdate) -> bool {
        &&& self.feattles@.len() == old.feattles@.len()
        &&& forall|i: int|
            0 <= i < old.feattles@.len() ==> if old.feattles@[i].key@ == pending.key@ {
                (#[trigger] self.feattles@[i]).updated_from(
                    old.feattles@[i],
                    entry_model(pending.previous),
                )
            } else {
                self.feattles@[i] == old.feattles@[i]
            }
        &&& self.last_reload == old.last_reload
        &&& self.current_values == old.current_values
    }

    /// After loading the history of the flag: on an error, undoes the in-memory step and gives
    /// the error to return; otherwise gives the history as it was (empty where there was none)
    /// and as it is to be saved.
    pub fn after_history_loaded<E>(
        &mut self,
        pending: PendingUpdate,
        loaded: Result<Option<ValueHistory>, E>,
    ) -> (r: Result<(PendingUpdate, ValueHistory, ValueHistory), UpdateError<E>>)
        requires
            old(self).wf(),
        ensures
            final(self).wf(),
            loaded is Err <==> r is Err,
            r is Err ==> (r matches Err(UpdateError::Persistence(_)))
                && final(self).restored_from(*old(self), pending),
            r is Ok ==> {
                let (p, before, after) = r->Ok_0;
                &&& *final(self) == *old(self)
                &&& p == pending
                &&& before@ == match loaded {
                    Ok(Some(h)) => h@,
                    _ => Seq::empty(),
                }
                &&& after@ == before@.push(
                    (
                        p.new_value.value@,
                        p.value_overview@,
                        p.new_value.modified_at,
                        p.new_value.modified_by@,
                    ),
                )
            },
    {
        let before = match loaded {
            Ok(Some(h)) => h,
            Ok(None) => ValueHistory::new(),
            Err(e) => {
                self.restore(pending);
                return Err(UpdateError::Persistence(e));
            },
        };
        let after = pending.history_with(&before);
        Ok((pending, before, after))
    }

    /// After saving the new history of the flag: on an error, undoes the in-memory step and
    /// gives the error to return; otherwise hands the update on.
    pub fn after_history_saved<E>(&mut self, pending: PendingUpdate, saved: Result<(), E>) -> (r:
        Result<PendingUpdate, UpdateError<E>>)
        requires
            old(self).wf(),
        ensures
            final(self).wf(),
            saved is Err <==> r is Err,
            r is Err ==> (r matches Err(UpdateError::Persistence(_)))
                && final(self).restored_from(*old(self), pending),
            r is Ok ==> *final(self) == *old(self) && r->Ok_0 == pending,
    {
        match saved {
            Ok(()) => Ok(pending),
            Err(e) => {
                self.restore(pending);
                Err(UpdateError::Persistence(e))
            },
        }
    }

    /// After saving the new current values: on an error, undoes the in-memory step and gives the
    /// error to return together with the history to save back, `before` (the history as it was
    /// before the update); otherwise the registry takes the new current values.
    pub fn after_current_saved<E>(
        &mut self,
        pending: PendingUpdate,
        before: ValueHistory,
        saved: Result<(), E>,
    ) -> (r: Result<(), (UpdateError<E>, ValueHistory)>)
        requires
            old(self).wf(),
        ensures
            final(self).wf(),
            saved is Err <==> r is Err,
            r is Err ==> (r->Err_0.0 matches UpdateError::Persistence(_)) && r->Err_0.1@ == before@
                && final(self).restored_from(*old(self), pending),
            r is Ok ==> final(self).feattles == old(self).feattles && final(self).last_reload
                == old(self).last_reload && final(self).current_values == Some(
                pending.new_values,
            ),
    {
        match saved {
            Ok(()) => {
                self.commit(pending);
                Ok(())
            },
            Err(e) => {
                self.restore(pending);
                Err((UpdateError::Persistence(e), before))
            },
        }
    }

    /// Reloads the current values from `persistence` at date `now` (milliseconds since the Unix
    /// epoch), and passes its error on. On an error nothing changes.
    pub fn reload<P: Persist>(&mut self, persistence: &P, now: i64) -> (r: Result<(), P::Error>)
        requires
            old(self).wf(),
        ensures
            final(self).wf(),
            r is Err ==> *final(self) == *old(self),
            r is Ok ==> exists|loaded: Option<ValuesModel>|
                final(self).reloaded_from(*old(self), loaded, now),
    {
        match persistence.load_current() {
            Err(e) => Err(e),
            Ok(loaded) => {
                let ghost l = values_model(loaded);
                self.apply_reload(loaded, now);
                assert(self.reloaded_from(*old(self), l, now));
                Ok(())
            },
        }
    }

    /// Sets the flag `key` to `value`, on behalf of `modified_by`, and saves the change: first
    /// in memory, then in the flag's history, then in the current values. A failure at any step
    /// undoes the steps before it, so that on every error the flags hold the values they held
    /// before and the current values are unchanged.
    pub fn update<P: Persist>(
        &mut self,
        persistence: &P,
        key: &str,
        value: JsonValue,
        modified_by: String,
        now: i64,
    ) -> (r: Result<(), UpdateError<P::Error>>)
        requires
            old(self).wf(),
        ensures
            final(self).wf(),
            final(self).last_reload == old(self).last_reload,
            (r matches Err(UpdateError::UnknownKey(_))) <==> !old(self).has_key(key@),
            r is Err && r->Err_0 is UnknownKey ==> r->Err_0->UnknownKey_0@ == key@,
            (r matches Err(UpdateError::NeverReloaded)) <==> old(self).has_key(key@)
                && old(self).current_values is None,
            (r matches Err(UpdateError::VersionOverflow)) <==> old(self).has_key(key@)
                && old(self).current_values is Some && old(self).current_values->0.version
                == i32::MAX,
            (r matches Err(UpdateError::Parsing(_))) <==> exists|i: int|
                0 <= i < old(self).feattles@.len() && old(self).feattles@[i].key@ == key@
                    && old(self).current_values is Some && old(self).current_values->0.version
                    < i32::MAX && #[trigger] parse_spec(old(self).feattles@[i].ty, value@)
                    is None,
            r is Err ==> final(self).same_values(*old(self)) && final(self).current_values
                == old(self).current_values,
            r is Ok ==> exists|i: int|
                0 <= i < old(self).feattles@.len() && #[trigger] old(self).feattles@[i].key@
                    == key@ && final(self).updated(*old(self), i, value@, modified_by@)
                    && entry_at(entry_model(final(self).feattles@[i].current_value)->0) == now,
    {
        let ghost v = value@;
        let ghost by = modified_by@;
        let pending = self.begin_update(key, value, modified_by, now)?;
        let ghost mid = *self;
        let ghost p = pending;
        let ghost i = choose|i: int|
            0 <= i < old(self).feattles@.len() && #[trigger] old(self).feattles@[i].key@ == key@
                && mid.began_update(*old(self), pending, i, v, by, now);
        let loaded = persistence.load_history(key);
        let (pending, before, after) = match self.after_history_loaded(pending, loaded) {
            Ok(step) => step,
            Err(e) => {
                proof {
                    self.lemma_restored(mid, *old(self), p, i);
                }
                return Err(e);
            },
        };
        let saved = persistence.save_history(key, &after);
        let pending = match self.after_history_saved(pending, saved) {
            Ok(pending) => pending,
            Err(e) => {
                proof {
                    self.lemma_restored(mid, *old(self), p, i);
                }
                return Err(e);
            },
        };
        let saved = persistence.save_current(&pending.new_values);
        match self.after_current_saved(pending, before, saved) {
            Ok(()) => Ok(()),
            Err((e, restore)) => {
                proof {
                    self.lemma_restored(mid, *old(self), p, i);
                }
                let _ = persistence.save_history(key, &restore);
                Err(e)
            },
        }
    }

    /// Undoing the in-memory step of an update gives the flags the values they held before.
    proof fn lemma_restored(&self, mid: Self, old: Self, p: PendingUpdate, i: int)
        requires
            old.wf(),
            0 <= i < old.feattles@.len(),
            p.key@ == old.feattles@[i].key@,
            entry_model(p.previous) == entry_model(old.feattles@[i].current_value),
            mid.feattles@.len() == old.feattles@.len(),
            forall|j: int|
                0 <= j < mid.feattles@.len() && j != i ==> #[trigger] mid.feattles@[j]
                    == old.feattles@[j],
            mid.feattles@[i].key == old.feattles@[i].key,
            mid.feattles@[i].ty == old.feattles@[i].ty,
            mid.feattles@[i].default == old.feattles@[i].default,
            mid.feattles@[i].description == old.feattles@[i].description,
            mid.current_values == old.current_values,
            self.restored_from(mid, p),
        ensures
            self.same_values(old),
            self.current_values == old.current_values,
    {
        assert(self.feattles@[i].updated_from(mid.feattles@[i], entry_model(p.previous)));
        assert(old.feattles@[i].wf());
        assert forall|j: int| 0 <= j < self.feattles@.len() && j != i implies #[trigger] self.feattles@[j]
            == old.feattles@[j] by {
            assert(old.feattles@[j].key@ != old.feattles@[i].key@);
        }
    }

    /// The history of the flag `key`, empty where `persistence` has none.
    pub fn history<P: Persist>(&self, persistence: &P, key: &str) -> (r: Result<
        ValueHistory,
        HistoryError<P::Error>,
    >)
        ensures
            (r matches Err(HistoryError::UnknownKey(_))) <==> !self.has_key(key@),
            r is Err && r->Err_0 is UnknownKey ==> r->Err_0->UnknownKey_0@ == key@,
            r is Ok ==> self.has_key(key@),
            (r matches Err(HistoryError::Persistence(_))) ==> self.has_key(key@),
    {
        if self.position(key).is_none() {
            return Err(HistoryError::UnknownKey(key.to_string()));
        }
        history_from_loaded(persistence.load_history(key))
    }
}

} // verus!
