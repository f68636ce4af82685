//! Core logic of a Discord member-tracking bot: formatting of history and
//! statistics, invite attribution, departure classification, notice
//! eligibility and the embeds the bot posts.

pub mod text;
pub mod commands;
pub mod invites;
pub mod state;
pub mod permissions;
pub mod services;
pub mod repos;
pub mod events;
