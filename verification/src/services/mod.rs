//! Services: the logic behind the bot's database-backed operations.

pub mod stats;
pub mod messages;
pub mod audit_log;
pub mod embeds;
pub mod settings;
pub mod notices;
pub mod search;
pub mod membership;
pub mod mentions;
