//! The handle for notice tracking queries.

use vstd::prelude::*;

pub use crate::services::notices::SentNotice;

verus! {

/// Notice tracking queries against the database `db`.
pub struct GuildNoticesRepo<'a, D> {
    pub db: &'a D,
}

impl<'a, D> GuildNoticesRepo<'a, D> {
    /// A handle on `db`.
    pub fn new(db: &'a D) -> (r: Self)
        ensures
            r.db == db,
    {
        GuildNoticesRepo { db }
    }
}

} // verus!
