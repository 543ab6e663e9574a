use std::cell::RefCell;
use std::collections::BTreeMap;

use feattle::json::{JsonValue, Number};
use feattle::last_reload::LastReload;
use feattle::persist::{CurrentValues, NoPersistence, Persist, ValueHistory};
use feattle::registry::{history_from_loaded, Feattle, Feattles, HistoryError, UpdateError};
use feattle::persist::CurrentValue;
use feattle::value::{IntKind, ValueType};

#[derive(Debug, PartialEq)]
struct SomeError;

#[derive(Default)]
struct MockInner {
    current: Option<CurrentValues>,
    history: BTreeMap<String, ValueHistory>,
    next_error: bool,
    calls: usize,
}

#[derive(Default)]
struct MockPersistence(RefCell<MockInner>);

impl MockPersistence {
    fn put_error(&self) {
        let mut inner = self.0.borrow_mut();
        assert!(!inner.next_error);
        inner.next_error = true;
    }

    fn get_error(&self) -> Result<(), SomeError> {
        let mut inner = self.0.borrow_mut();
        inner.calls += 1;
        if inner.next_error {
            inner.next_error = false;
            Err(SomeError)
        } else {
            Ok(())
        }
    }

    fn calls(&self) -> usize {
        self.0.borrow().calls
    }

    fn current_version(&self) -> i32 {
        self.0.borrow().current.as_ref().unwrap().version
    }

    fn current_entry(&self, key: &str) -> (String, JsonValue) {
        let inner = self.0.borrow();
        let value = inner.current.as_ref().unwrap().get(key).unwrap();
        (value.modified_by.clone(), value.value.copy())
    }

    fn history_entries(&self, key: &str) -> Vec<(JsonValue, String, String)> {
        let inner = self.0.borrow();
        inner.history[key]
            .entries
            .iter()
            .map(|e| (e.value.copy(), e.value_overview.clone(), e.modified_by.clone()))
            .collect()
    }
}

impl Persist for MockPersistence {
    type Error = SomeError;

    fn save_current(&self, value: &CurrentValues) -> Result<(), SomeError> {
        self.get_error()?;
        self.0.borrow_mut().current = Some(value.copy());
        Ok(())
    }

    fn load_current(&self) -> Result<Option<CurrentValues>, SomeError> {
        self.get_error()?;
        Ok(self.0.borrow().current.as_ref().map(|c| c.copy()))
    }

    fn save_history(&self, key: &str, value: &ValueHistory) -> Result<(), SomeError> {
        self.get_error()?;
        self.0.borrow_mut().history.insert(key.to_string(), value.copy());
        Ok(())
    }

    fn load_history(&self, key: &str) -> Result<Option<ValueHistory>, SomeError> {
        self.get_error()?;
        Ok(self.0.borrow().history.get(key).map(|h| h.copy()))
    }
}

fn num(n: i64) -> JsonValue {
    if n >= 0 {
        JsonValue::Number(Number::PosInt(n as u64))
    } else {
        JsonValue::Number(Number::NegInt(n))
    }
}

fn flag(key: &str, default: i64) -> Feattle {
    Feattle::new(key.to_string(), String::new(), ValueType::Int(IntKind::I32), &num(default)).unwrap()
}

fn config() -> Feattles {
    Feattles::new(vec![flag("a", 0), flag("b", 17)])
}

fn value_of(config: &Feattles, key: &str) -> JsonValue {
    config.value(key).unwrap().copy()
}

#[test]
fn lib_test() {
    let persistence = MockPersistence::default();
    let mut config = config();

    // Initial state
    assert_eq!(value_of(&config, "a"), num(0));
    assert_eq!(value_of(&config, "b"), num(17));
    assert_eq!(config.keys(), vec!["a".to_string(), "b".to_string()]);
    assert!(config.last_reload() == LastReload::Never);
    assert!(config.current_values().is_none());

    // Load from empty storage
    config.reload(&persistence, 1_000).unwrap();
    assert_eq!(value_of(&config, "a"), num(0));
    assert_eq!(value_of(&config, "b"), num(17));
    let last_reload = config.last_reload();
    assert!(matches!(last_reload, LastReload::NoData { .. }));
    assert!(config.current_values().is_some());

    // Load from failing storage
    persistence.put_error();
    config.reload(&persistence, 1_000).unwrap_err();
    assert_eq!(config.last_reload(), last_reload);

    // Update value
    config.update(&persistence, "a", num(27), "somebody".to_string(), 2_000).unwrap();
    assert_eq!(value_of(&config, "a"), num(27));
    assert_eq!(persistence.current_version(), 1);
    assert_eq!(persistence.current_entry("a"), ("somebody".to_string(), num(27)));
    assert_eq!(
        persistence.history_entries("a"),
        vec![(num(27), "27".to_string(), "somebody".to_string())]
    );

    // Failed to update
    persistence.put_error();
    config.update(&persistence, "a", num(207), "somebody else".to_string(), 2_000).unwrap_err();
    assert_eq!(value_of(&config, "a"), num(27));
    assert_eq!(persistence.current_version(), 1);
    assert_eq!(persistence.current_entry("a"), ("somebody".to_string(), num(27)));
    assert_eq!(
        persistence.history_entries("a"),
        vec![(num(27), "27".to_string(), "somebody".to_string())]
    );
}

/// Fails the call to the persistence that comes after `skip` successful ones.
struct FailAt {
    inner: MockPersistence,
    fail_at: usize,
}

impl Persist for FailAt {
    type Error = SomeError;

    fn save_current(&self, value: &CurrentValues) -> Result<(), SomeError> {
        self.check()?;
        self.inner.save_current(value)
    }

    fn load_current(&self) -> Result<Option<CurrentValues>, SomeError> {
        self.check()?;
        self.inner.load_current()
    }

    fn save_history(&self, key: &str, value: &ValueHistory) -> Result<(), SomeError> {
        self.check()?;
        self.inner.save_history(key, value)
    }

    fn load_history(&self, key: &str) -> Result<Option<ValueHistory>, SomeError> {
        self.check()?;
        self.inner.load_history(key)
    }
}

impl FailAt {
    fn check(&self) -> Result<(), SomeError> {
        if self.inner.calls() + 1 == self.fail_at {
            self.inner.0.borrow_mut().calls += 1;
            Err(SomeError)
        } else {
            Ok(())
        }
    }
}

#[test]
fn update_rolls_back_at_each_step() {
    // After the reload (call 1): load history (2), save history (3), save current (4).
    for fail_at in 2..=4 {
        let persistence = FailAt { inner: MockPersistence::default(), fail_at };
        let mut config = config();
        config.reload(&persistence, 1_000).unwrap();
        let result = config.update(&persistence, "b", num(5), "carol".to_string(), 2_000);
        assert!(matches!(result, Err(UpdateError::Persistence(SomeError))));
        assert_eq!(value_of(&config, "b"), num(17));
        assert_eq!(config.current_values().unwrap().version, 0);
        assert!(config.definition("b").unwrap().modified_by.is_none());
    }
}

#[test]
fn update_then_reload_keeps_the_value() {
    let persistence = MockPersistence::default();
    let mut config = config();
    config.reload(&persistence, 1_000).unwrap();
    config.update(&persistence, "b", num(-3), "dave".to_string(), 2_000).unwrap();
    let at = config.definition("b").unwrap().modified_at;
    config.reload(&persistence, 1_000).unwrap();
    assert_eq!(value_of(&config, "b"), num(-3));
    let d = config.definition("b").unwrap();
    assert_eq!(d.modified_by, Some("dave".to_string()));
    assert_eq!(d.modified_at, at);
    assert_eq!(d.value_overview, "-3");
    assert_eq!(config.last_reload().version(), Some(1));
}

#[test]
fn versions_grow_by_one() {
    let persistence = MockPersistence::default();
    let mut config = config();
    config.reload(&persistence, 1_000).unwrap();
    for n in 1..=5 {
        config.update(&persistence, "a", num(n), "erin".to_string(), 2_000).unwrap();
        assert_eq!(persistence.current_version(), n as i32);
    }
    config.update(&persistence, "a", JsonValue::String("x".to_string()), "erin".to_string(), 2_000).unwrap_err();
    assert_eq!(persistence.current_version(), 5);
    assert_eq!(config.history(&persistence, "a").unwrap().entries.len(), 5);
}

#[test]
fn reload_with_nothing_stored_keeps_defaults() {
    let persistence = NoPersistence;
    let mut config = config();
    for _ in 0..3 {
        config.reload(&persistence, 1_000).unwrap();
        assert_eq!(value_of(&config, "a"), num(0));
        assert_eq!(value_of(&config, "b"), num(17));
        assert!(matches!(config.last_reload(), LastReload::NoData { .. }));
        assert_eq!(config.last_reload().version(), Some(0));
        assert_eq!(config.last_reload().version_date(), None);
    }
}

#[test]
fn unknown_keys_are_rejected_without_persistence() {
    let persistence = MockPersistence::default();
    let mut config = config();
    config.reload(&persistence, 1_000).unwrap();
    let calls = persistence.calls();
    assert!(matches!(
        config.update(&persistence, "does-not-exist", num(1), "x".to_string(), 2_000),
        Err(UpdateError::UnknownKey(k)) if k == "does-not-exist"
    ));
    assert!(matches!(
        config.history(&persistence, "does-not-exist"),
        Err(HistoryError::UnknownKey(k)) if k == "does-not-exist"
    ));
    assert_eq!(persistence.calls(), calls);
    assert!(config.definition("does-not-exist").is_none());
}

#[test]
fn update_before_reload_fails() {
    let persistence = MockPersistence::default();
    let mut config = config();
    assert!(matches!(
        config.update(&persistence, "a", num(1), "x".to_string(), 2_000),
        Err(UpdateError::NeverReloaded)
    ));
    assert_eq!(persistence.calls(), 0);
}

#[test]
fn update_with_a_value_of_another_type_fails() {
    let persistence = MockPersistence::default();
    let mut config = config();
    config.reload(&persistence, 1_000).unwrap();
    assert!(matches!(
        config.update(&persistence, "a", JsonValue::Bool(true), "x".to_string(), 2_000),
        Err(UpdateError::Parsing(_))
    ));
    assert_eq!(value_of(&config, "a"), num(0));
}

#[test]
fn history_errors_are_passed_on() {
    let persistence = MockPersistence::default();
    let config = config();
    persistence.put_error();
    assert!(matches!(config.history(&persistence, "a"), Err(HistoryError::Persistence(SomeError))));
    assert_eq!(config.history(&persistence, "a").unwrap().entries.len(), 0);
}

#[test]
fn reload_skips_values_that_cannot_be_read() {
    let persistence = MockPersistence::default();
    let mut config = config();
    config.reload(&persistence, 1_000).unwrap();
    config.update(&persistence, "a", num(3), "x".to_string(), 2_000).unwrap();
    config.update(&persistence, "b", num(4), "x".to_string(), 2_000).unwrap();
    {
        let mut inner = persistence.0.borrow_mut();
        let current = inner.current.as_mut().unwrap();
        let mut bad = current.get("a").unwrap().copy();
        bad.value = JsonValue::String("nope".to_string());
        current.insert("a".to_string(), bad);
        let mut other = current.get("b").unwrap().copy();
        other.value = num(40);
        current.insert("b".to_string(), other);
    }
    config.reload(&persistence, 1_000).unwrap();
    assert_eq!(value_of(&config, "a"), num(3));
    assert_eq!(value_of(&config, "b"), num(40));
}

#[test]
fn definitions_follow_declaration_order() {
    let persistence = NoPersistence;
    let config = config();
    let defs = config.definitions();
    assert_eq!(defs.len(), 2);
    assert_eq!(defs[0].key, "a");
    assert_eq!(defs[1].key, "b");
    assert_eq!(defs[1].value_overview, "17");
    assert_eq!(defs[1].format.tag, "i32");
    assert_eq!(defs[1].default, num(17));
}

#[test]
fn version_overflow_is_reported() {
    let persistence = MockPersistence::default();
    let mut config = config();
    config.reload(&persistence, 1_000).unwrap();
    config.current_values.as_mut().unwrap().version = i32::MAX;
    assert!(matches!(
        config.update(&persistence, "a", num(1), "x".to_string(), 2_000),
        Err(UpdateError::VersionOverflow)
    ));
}

#[test]
fn a_default_of_another_type_is_refused() {
    assert!(Feattle::new("a".to_string(), String::new(), ValueType::Bool, &num(1)).is_err());
}

#[test]
fn update_in_steps() {
    let persistence = MockPersistence::default();
    let mut config = config();
    config.reload(&persistence, 1_000).unwrap();

    let pending = config.begin_update::<SomeError>("a", num(9), "frank".to_string(), 2_000).unwrap();
    assert_eq!(value_of(&config, "a"), num(9));
    assert_eq!(pending.key, "a");
    assert_eq!(pending.value_overview, "9");
    assert_eq!(pending.new_values.version, 1);
    assert!(pending.previous.is_none());
    assert_eq!(config.current_values().unwrap().version, 0);
    let history = pending.history_with(&ValueHistory::new());
    assert_eq!(history.entries.len(), 1);
    assert_eq!(history.entries[0].value_overview, "9");
    assert_eq!(history.entries[0].modified_by, "frank");
    config.restore(pending);
    assert_eq!(value_of(&config, "a"), num(0));
    assert!(config.definition("a").unwrap().modified_at.is_none());

    let pending = config.begin_update::<SomeError>("a", num(10), "frank".to_string(), 2_000).unwrap();
    config.commit(pending);
    assert_eq!(value_of(&config, "a"), num(10));
    assert_eq!(config.current_values().unwrap().version, 1);
    let stored: &CurrentValue = config.current_values().unwrap().get("a").unwrap();
    assert_eq!(stored.modified_by, "frank");
}

#[test]
fn update_decisions_after_each_step() {
    let mut config = config();
    config.reload(&NoPersistence, 1_000).unwrap();

    let pending = config.begin_update::<SomeError>("b", num(1), "gina".to_string(), 2_000).unwrap();
    let (pending, before, after) =
        config.after_history_loaded(pending, Ok::<_, SomeError>(None)).unwrap();
    assert_eq!(before.entries.len(), 0);
    assert_eq!(after.entries.len(), 1);
    let pending = config.after_history_saved(pending, Ok::<(), SomeError>(())).unwrap();
    match config.after_current_saved(pending, before, Err::<(), SomeError>(SomeError)) {
        Err((UpdateError::Persistence(SomeError), restore)) => assert_eq!(restore.entries.len(), 0),
        _ => panic!("the failed save must be reported"),
    }
    assert_eq!(value_of(&config, "b"), num(17));
    assert_eq!(config.current_values().unwrap().version, 0);

    let pending = config.begin_update::<SomeError>("b", num(2), "gina".to_string(), 2_000).unwrap();
    assert!(matches!(
        config.after_history_loaded(pending, Err::<Option<ValueHistory>, SomeError>(SomeError)),
        Err(UpdateError::Persistence(SomeError))
    ));
    assert_eq!(value_of(&config, "b"), num(17));

    let pending = config.begin_update::<SomeError>("b", num(3), "gina".to_string(), 2_000).unwrap();
    assert!(config.after_current_saved(pending, ValueHistory::new(), Ok::<(), SomeError>(())).is_ok());
    assert_eq!(value_of(&config, "b"), num(3));
    assert_eq!(config.current_values().unwrap().version, 1);
}

#[test]
fn typed_accessors() {
    let flags = vec![
        Feattle::new("on".to_string(), String::new(), ValueType::Bool, &JsonValue::Bool(true)).unwrap(),
        flag("n", -4),
        Feattle::new("s".to_string(), String::new(), ValueType::Str, &JsonValue::String("hi".to_string()))
            .unwrap(),
    ];
    let config = Feattles::new(flags);
    assert_eq!(config.get_bool("on"), Some(true));
    assert_eq!(config.get_int("n"), Some(-4));
    assert_eq!(config.get_str("s"), Some("hi".to_string()));
    assert_eq!(config.get_bool("n"), None);
    assert_eq!(config.get_int("s"), None);
    assert_eq!(config.get_str("missing"), None);
}

#[test]
fn history_from_what_was_loaded() {
    assert_eq!(history_from_loaded::<SomeError>(Ok(None)).unwrap().entries.len(), 0);
    let pending_history = {
        let mut config = config();
        config.reload(&NoPersistence, 1_000).unwrap();
        let pending = config.begin_update::<SomeError>("a", num(1), "h".to_string(), 5).unwrap();
        pending.history_with(&ValueHistory::new())
    };
    let loaded = history_from_loaded::<SomeError>(Ok(Some(pending_history))).unwrap();
    assert_eq!(loaded.entries.len(), 1);
    assert_eq!(loaded.entries[0].modified_at, 5);
    assert!(matches!(
        history_from_loaded::<SomeError>(Err(SomeError)),
        Err(HistoryError::Persistence(SomeError))
    ));
}

#[test]
fn updates_record_the_given_date() {
    let persistence = MockPersistence::default();
    let mut config = config();
    config.reload(&persistence, 10).unwrap();
    assert_eq!(config.last_reload().reload_date(), Some(10));
    config.update(&persistence, "a", num(1), "i".to_string(), 42).unwrap();
    assert_eq!(config.definition("a").unwrap().modified_at, Some(42));
}
