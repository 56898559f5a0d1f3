//! Configuration of the journal layout: one strftime-style path template per
//! period granularity, with the usual defaults. Loading a configuration from
//! a file is the caller's job; the library only consumes the loaded values.
use vstd::prelude::*;

verus! {

/// One date-format template per period granularity, each a path fragment
/// relative to the root directory.
#[derive(Clone, Debug)]
pub struct JournalPath {
    pub daily: String,
    pub weekly: String,
    pub monthly: String,
    pub yearly: String,
}

impl Default for JournalPath {
    /// The default templates, all under the `journals/` directory.
    fn default() -> (r: Self)
        ensures
            r.daily@ == "journals/%Y-%m-%d.md"@,
            r.weekly@ == "journals/%Y-w%U.md"@,
            r.monthly@ == "journals/%Y-%m.md"@,
            r.yearly@ == "journals/%Y.md"@,
    {
        JournalPath {
            daily: String::from_str("journals/%Y-%m-%d.md"),
            weekly: String::from_str("journals/%Y-w%U.md"),
            monthly: String::from_str("journals/%Y-%m.md"),
            yearly: String::from_str("journals/%Y.md"),
        }
    }
}

/// Journal settings: where each period's entries live.
#[derive(Clone, Debug)]
pub struct Journal {
    pub path: JournalPath,
}

impl Default for Journal {
    fn default() -> (r: Self)
        ensures
            r.path.daily@ == "journals/%Y-%m-%d.md"@,
            r.path.weekly@ == "journals/%Y-w%U.md"@,
            r.path.monthly@ == "journals/%Y-%m.md"@,
            r.path.yearly@ == "journals/%Y.md"@,
    {
        Journal { path: JournalPath::default() }
    }
}

/// The loaded configuration: the notes root directory and the journal
/// settings.
#[derive(Clone, Debug)]
pub struct Config {
    pub root_dir: String,
    pub journal: Journal,
}

impl Default for Config {
    fn default() -> (r: Self)
        ensures
            r.root_dir@ == "."@,
            r.journal.path.daily@ == "journals/%Y-%m-%d.md"@,
            r.journal.path.weekly@ == "journals/%Y-w%U.md"@,
            r.journal.path.monthly@ == "journals/%Y-%m.md"@,
            r.journal.path.yearly@ == "journals/%Y.md"@,
    {
        Config { root_dir: String::from_str("."), journal: Journal::default() }
    }
}

} // verus!
