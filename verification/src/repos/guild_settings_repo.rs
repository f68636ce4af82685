//! The handle for guild settings queries.

use vstd::prelude::*;

verus! {

/// Guild settings queries against the database `db`.
pub struct GuildSettingsRepo<'a, D> {
    pub db: &'a D,
}

impl<'a, D> GuildSettingsRepo<'a, D> {
    /// A handle on `db`.
    pub fn new(db: &'a D) -> (r: Self)
        ensures
            r.db == db,
    {
        GuildSettingsRepo { db }
    }
}

} // verus!
