//! The configuration.

use vstd::prelude::*;

verus! {

/// Worker threads where nothing else is configured.
pub const DEFAULT_NUM_WORKERS: usize = 1;

/// What can be configured.
#[derive(Debug, Clone, Copy, PartialEq, Eq, Structural)]
pub struct Config {
    pub num_workers: usize,
}

impl Default for Config {
    fn default() -> (c: Config)
        ensures
            c.num_workers == DEFAULT_NUM_WORKERS,
    {
        Config { num_workers: DEFAULT_NUM_WORKERS }
    }
}

impl Config {
    /// What is configured: the number of workers that a configuration file
    /// gives, and the default where it gives none.
    pub fn from_parsed(num_workers: Option<usize>) -> (c: Config)
        ensures
            c.num_workers == (match num_workers {
                Some(n) => n,
                None => DEFAULT_NUM_WORKERS,
            }),
    {
        match num_workers {
            Some(n) => Config { num_workers: n },
            None => Config::default(),
        }
    }

    /// How many workers run: as many as are configured, and one at least.
    pub fn workers(&self) -> (n: usize)
        ensures
            n == if self.num_workers == 0 {
                1
            } else {
                self.num_workers
            },
    {
        if self.num_workers < 1 {
            1
        } else {
            self.num_workers
        }
    }
}

} // verus!
