//! Process-wide configuration: the values the edge layer consumes once at
//! startup.  Loading them from a file is an unverified concern of the
//! binary; the library only states when a configuration is usable.

use vstd::prelude::*;

verus! {

/// The global settings: listen address, database connection string, and the
/// size of the shared connection pool.
pub struct Global {
    pub address: String,
    pub db_url: String,
    pub pool_size: usize,
}

/// The whole startup configuration.
pub struct Config {
    pub global: Global,
}

impl Config {
    /// A configuration is usable when the listen address is present and the
    /// pool has a positive capacity.
    pub open spec fn valid(&self) -> bool {
        &&& self.global.pool_size >= 1
        &&& self.global.address@.len() > 0
    }

    /// Check a configuration before serving starts; a bad configuration is
    /// fatal at startup, never at request time.
    pub fn check(&self) -> (r: bool)
        ensures
            r == self.valid(),
    {
        self.global.pool_size >= 1 && !self.global.address.as_str().is_empty()
    }
}

} // verus!
