use vstd::prelude::*;

verus! {

/// When the registry was last synchronized with its persistence, and with what. Dates are
/// milliseconds since the Unix epoch.
#[derive(Debug, Clone, Copy, PartialEq, Eq, Structural)]
pub enum LastReload {
    /// No reload has succeeded: every flag carries its default value.
    Never,
    /// A reload succeeded and found nothing stored.
    NoData { reload_date: i64 },
    /// A reload succeeded and found the stored values of the given version.
    Data { reload_date: i64, version: i32, version_date: i64 },
}

impl LastReload {
    /// When, if ever, a reload succeeded.
    pub fn reload_date(self) -> (r: Option<i64>)
        ensures
            r == match self {
                LastReload::Never => None,
                LastReload::NoData { reload_date } => Some(reload_date),
                LastReload::Data { reload_date, .. } => Some(reload_date),
            },
    {
        match self {
            LastReload::Never => None,
            LastReload::NoData { reload_date } => Some(reload_date),
            LastReload::Data { reload_date, .. } => Some(reload_date),
        }
    }

    /// The version of the data in use, if any; `0` stands for "nothing stored".
    pub fn version(self) -> (r: Option<i32>)
        ensures
            r == match self {
                LastReload::Never => None,
                LastReload::NoData { .. } => Some(0i32),
                LastReload::Data { version, .. } => Some(version),
            },
    {
        match self {
            LastReload::Never => None,
            LastReload::NoData { .. } => Some(0),
            LastReload::Data { version, .. } => Some(version),
        }
    }

    /// When the version of the data in use was created, if that is known.
    pub fn version_date(self) -> (r: Option<i64>)
        ensures
            r == match self {
                LastReload::Data { version_date, .. } => Some(version_date),
                _ => None,
            },
    {
        match self {
            LastReload::Never | LastReload::NoData { .. } => None,
            LastReload::Data { version_date, .. } => Some(version_date),
        }
    }
}

} // verus!
