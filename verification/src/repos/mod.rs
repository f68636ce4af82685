//! Handles on the database that the per-guild settings and notice queries
//! go through. The queries themselves run where the database lives; these
//! types only carry the handle.

pub mod guild_notices_repo;
pub mod guild_settings_repo;
