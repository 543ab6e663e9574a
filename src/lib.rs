//! Typed feature flags ("feattles"): a registry of named, typed values with defaults, kept in
//! step with a persistence through verified reload and update protocols.
//!
//! - [`json`]: the JSON documents that values are read from and held as.
//! - [`value`]: flag types, and reading JSON as a value of a type, in canonical form.
//! - [`overview`]: short human descriptions of values.
//! - [`format`]: descriptions of flag types, for forms and input checks.
//! - [`persist`]: the stored data and the persistence interface.
//! - [`registry`]: flags, the registry, and its reload, update and history protocols.
//! - [`last_reload`]: what the last reload found.
//! - [`sync`]: the waits of a background poller, and where a disk persistence keeps its files.
//! - [`order`]: the order of strings.
//! - [`laws`]: properties that hold across calls.

pub mod format;
pub mod json;
pub mod last_reload;
pub mod laws;
pub mod order;
pub mod overview;
pub mod persist;
pub mod registry;
pub mod sync;
pub mod value;
