//! Decisions taken on gateway events: which joins are tracked, how a
//! departure is recorded and where it is posted, how the member list is
//! reconciled at startup, and how invite events update the cache.

use vstd::prelude::*;

use crate::commands::opt_chars;
use crate::text::string_of;

pub mod invites;
pub mod join;
pub mod leave;
pub mod stay_embeds;
pub mod sync;

verus! {

/// A Discord user, as far as the bot's logic goes.
#[derive(Debug, Clone)]
pub struct UserInfo {
    pub id: u64,
    /// Account username.
    pub name: String,
    /// Global display name, when set.
    pub global_name: Option<String>,
}

/// The name Discord shows for a user: the global name when set, else the
/// username.
pub open spec fn display_name_text(global_name: Option<Seq<char>>, name: Seq<char>) -> Seq<char> {
    match global_name {
        Some(g) => g,
        None => name,
    }
}

impl UserInfo {
    /// The name Discord shows for the user (as serenity's
    /// `User::display_name` gives it).
    pub fn display_name(&self) -> (r: String)
        ensures
            r@ == display_name_text(opt_chars(self.global_name), self.name@),
    {
        match &self.global_name {
            Some(g) => string_of(g.as_str()),
            None => string_of(self.name.as_str()),
        }
    }
}

} // verus!
