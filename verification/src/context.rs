//! The ambient state a command runs with: currently just the configuration.
use vstd::prelude::*;

verus! {

/// Carries the loaded configuration through a run.
#[derive(Clone, Debug)]
pub struct Context {
    pub config: crate::config::Config,
}

impl Default for Context {
    fn default() -> (r: Self)
        ensures
            r.config.root_dir@ == "."@,
    {
        Context { config: crate::config::Config::default() }
    }
}

} // verus!
