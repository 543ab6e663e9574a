use vstd::prelude::*;
use vstd::string::StringExecFns;

verus! {

/// How long a poller waits between reloads, in milliseconds: one interval after a reload that
/// succeeded, another after one that failed.
#[derive(Debug, Clone, Copy, PartialEq, Eq, Structural)]
pub struct BackgroundSync {
    ok_interval: u64,
    err_interval: u64,
}

impl BackgroundSync {
    /// The wait after a successful reload, in milliseconds.
    pub closed spec fn ok_wait(self) -> u64 {
        self.ok_interval
    }

    /// The wait after a failed reload, in milliseconds.
    pub closed spec fn err_wait(self) -> u64 {
        self.err_interval
    }

    /// A poller that waits 30 seconds after a successful reload and 60 after a failed one.
    pub fn new() -> (r: Self)
        ensures
            r.ok_wait() == 30_000,
            r.err_wait() == 60_000,
    {
        BackgroundSync { ok_interval: 30_000, err_interval: 60_000 }
    }

    /// Sets both waits.
    pub fn interval(&mut self, millis: u64)
        ensures
            final(self).ok_wait() == millis,
            final(self).err_wait() == millis,
    {
        self.ok_interval = millis;
        self.err_interval = millis;
    }

    /// Sets the wait after a successful reload.
    pub fn ok_interval(&mut self, millis: u64)
        ensures
            final(self).ok_wait() == millis,
            final(self).err_wait() == old(self).err_wait(),
    {
        self.ok_interval = millis;
    }

    /// Sets the wait after a failed reload.
    pub fn err_interval(&mut self, millis: u64)
        ensures
            final(self).ok_wait() == old(self).ok_wait(),
            final(self).err_wait() == millis,
    {
        self.err_interval = millis;
    }

    /// How long to wait before the next reload, given whether the last one succeeded.
    pub fn next_wait(&self, reload_succeeded: bool) -> (r: u64)
        ensures
            r == if reload_succeeded {
                self.ok_wait()
            } else {
                self.err_wait()
            },
    {
        if reload_succeeded {
            self.ok_interval
        } else {
            self.err_interval
        }
    }
}

/// Where a persistence in a local directory keeps its files.
#[derive(Debug, Clone)]
pub struct Disk {
    pub dir: String,
}

/// The name of the file that holds the current values.
pub open spec fn current_file_spec() -> Seq<char> {
    "current.json"@
}

/// The name of the file that holds the history of the flag `key`.
pub open spec fn history_file_spec(key: Seq<char>) -> Seq<char> {
    "history-"@ + key + ".json"@
}

impl Disk {
    /// A persistence under the directory `dir`.
    pub fn new(dir: String) -> (r: Disk)
        ensures
            r.dir == dir,
    {
        Disk { dir }
    }

    /// The name of the file, under the directory, that holds the current values.
    pub fn current_file(&self) -> (r: String)
        ensures
            r@ == current_file_spec(),
    {
        proof {
            reveal_strlit("current.json");
        }
        "current.json".to_string()
    }

    /// The name of the file, under the directory, that holds the history of the flag `key`.
    pub fn history_file(&self, key: &str) -> (r: String)
        ensures
            r@ == history_file_spec(key@),
    {
        proof {
            reveal_strlit("history-");
            reveal_strlit(".json");
        }
        let mut s = "history-".to_string();
        s.append(key);
        s.append(".json");
        s
    }
}

} // verus!
