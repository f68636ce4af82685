//! Per-guild configuration: the three log channels and the notices toggle,
//! how a stored row reads back, and which columns may be written.

use vstd::prelude::*;

use crate::text::{dec_nat, lemma_parse_dec_round_trip, parse_u64, parse_u64_spec, push_str, push_u64, str_eq, string_of};

verus! {

/// A guild's configuration. Channel ids are Discord snowflakes.
#[derive(Debug, Clone, Copy, PartialEq, Eq)]
pub struct GuildSettings {
    pub join_log: Option<u64>,
    pub leave_log: Option<u64>,
    pub mod_log: Option<u64>,
    pub notices_enabled: bool,
}

/// No channels configured, notices enabled.
pub open spec fn default_settings() -> GuildSettings {
    GuildSettings { join_log: None, leave_log: None, mod_log: None, notices_enabled: true }
}

impl Default for GuildSettings {
    fn default() -> (r: Self)
        ensures
            r == default_settings(),
    {
        GuildSettings { join_log: None, leave_log: None, mod_log: None, notices_enabled: true }
    }
}

/// A stored channel column read back: the id when the text parses as a
/// `u64`, else nothing.
pub open spec fn channel_of(val: Option<Seq<char>>) -> Option<u64> {
    match val {
        Some(s) => parse_u64_spec(s),
        None => None,
    }
}

/// The optional text of an optional string.
pub open spec fn opt_view(o: Option<String>) -> Option<Seq<char>> {
    match o {
        Some(s) => Some(s@),
        None => None,
    }
}

/// Read a stored channel column.
pub fn parse_channel(val: &Option<String>) -> (r: Option<u64>)
    ensures
        r == channel_of(opt_view(*val)),
{
    match val {
        Some(s) => parse_u64(s.as_str()),
        None => None,
    }
}

/// A `guild_settings` row: join, leave and moderation log columns and the
/// notices flag.
pub type SettingsRow = (Option<String>, Option<String>, Option<String>, i64);

/// The settings a row (or its absence) stands for.
pub open spec fn settings_of_row(rec: Option<SettingsRow>) -> GuildSettings {
    match rec {
        Some(r) => GuildSettings {
            join_log: channel_of(opt_view(r.0)),
            leave_log: channel_of(opt_view(r.1)),
            mod_log: channel_of(opt_view(r.2)),
            notices_enabled: r.3 != 0,
        },
        None => default_settings(),
    }
}

/// Settings from the stored row, defaults when the guild has none.
pub fn settings_from_row(rec: &Option<SettingsRow>) -> (r: GuildSettings)
    ensures
        r == settings_of_row(*rec),
{
    match rec {
        Some((join, leave, mlog, notices)) => GuildSettings {
            join_log: parse_channel(join),
            leave_log: parse_channel(leave),
            mod_log: parse_channel(mlog),
            notices_enabled: *notices != 0,
        },
        None => GuildSettings::default(),
    }
}

// ── Columns ──────────────────────────────────────────────────────────────────

/// The three log channels a guild can configure.
#[derive(Debug, Clone, Copy, PartialEq, Eq)]
pub enum LogChannel {
    Join,
    Leave,
    Moderation,
}

/// The column of each log channel.
pub open spec fn column_name(kind: LogChannel) -> Seq<char> {
    match kind {
        LogChannel::Join => "join_log_channel_id"@,
        LogChannel::Leave => "leave_log_channel_id"@,
        LogChannel::Moderation => "mod_log_channel_id"@,
    }
}

impl LogChannel {
    /// The settings column this channel is stored in.
    pub fn column(&self) -> (r: &'static str)
        ensures
            r@ == column_name(*self),
    {
        match self {
            LogChannel::Join => "join_log_channel_id",
            LogChannel::Leave => "leave_log_channel_id",
            LogChannel::Moderation => "mod_log_channel_id",
        }
    }
}

/// The columns that may be written by name.
pub open spec fn allowed_columns() -> Seq<Seq<char>> {
    seq![column_name(LogChannel::Join), column_name(LogChannel::Leave), column_name(LogChannel::Moderation)]
}

/// Whether `column` is one of the writable log-channel columns.
pub fn is_allowed_column(column: &str) -> (r: bool)
    ensures
        r == allowed_columns().contains(column@),
{
    let a = str_eq(column, LogChannel::Join.column());
    let b = str_eq(column, LogChannel::Leave.column());
    let c = str_eq(column, LogChannel::Moderation.column());
    proof {
        let s = allowed_columns();
        if a {
            assert(s[0] == column@);
        }
        if b {
            assert(s[1] == column@);
        }
        if c {
            assert(s[2] == column@);
        }
        if s.contains(column@) {
            let k = choose|k: int| 0 <= k < s.len() && s[k] == column@;
            assert(k == 0 || k == 1 || k == 2);
        }
    }
    a || b || c
}

/// Why a settings write was refused.
#[derive(Debug, Clone, PartialEq, Eq)]
pub enum SettingsError {
    /// The column is not a writable log-channel column.
    InvalidColumn { column: String },
    /// The guild has no settings row to update.
    NoSettingsRow { guild_id: u64 },
}

/// The text of a settings error.
pub open spec fn settings_error_text(e: SettingsError) -> Seq<char> {
    match e {
        SettingsError::InvalidColumn { column } => "Invalid column: "@ + column@,
        SettingsError::NoSettingsRow { guild_id } => "No settings row for guild "@ + dec_nat(guild_id as nat),
    }
}

impl SettingsError {
    /// The error as text.
    pub fn message(&self) -> (r: String)
        ensures
            r@ == settings_error_text(*self),
    {
        match self {
            SettingsError::InvalidColumn { column } => {
                let mut s = string_of("Invalid column: ");
                push_str(&mut s, column.as_str());
                s
            },
            SettingsError::NoSettingsRow { guild_id } => {
                let mut s = string_of("No settings row for guild ");
                push_u64(&mut s, *guild_id);
                s
            },
        }
    }
}

/// The update statement for a column: set to a bound value, or to NULL.
pub open spec fn set_column_sql(column: Seq<char>, has_value: bool) -> Seq<char> {
    if has_value {
        "UPDATE guild_settings SET "@ + column + " = ? WHERE guild_id = ?"@
    } else {
        "UPDATE guild_settings SET "@ + column + " = NULL WHERE guild_id = ?"@
    }
}

/// The update statement for writing `column`, refused for any column but
/// the three log channels.
pub fn set_column_query(column: &str, has_value: bool) -> (r: Result<String, SettingsError>)
    ensures
        allowed_columns().contains(column@) <==> r is Ok,
        r matches Ok(q) ==> q@ == set_column_sql(column@, has_value),
        r matches Err(e) ==> e matches SettingsError::InvalidColumn { column: c } && c@ == column@,
{
    if !is_allowed_column(column) {
        return Err(SettingsError::InvalidColumn { column: string_of(column) });
    }
    let mut q = string_of("UPDATE guild_settings SET ");
    push_str(&mut q, column);
    if has_value {
        push_str(&mut q, " = ? WHERE guild_id = ?");
    } else {
        push_str(&mut q, " = NULL WHERE guild_id = ?");
    }
    proof {
        assert(q@ =~= set_column_sql(column@, has_value));
    }
    Ok(q)
}

/// The value bound for a channel column: the id in decimal.
pub fn channel_value(channel_id: u64) -> (r: String)
    ensures
        r@ == dec_nat(channel_id as nat),
{
    let mut s = String::new();
    push_u64(&mut s, channel_id);
    proof {
        assert(s@ =~= dec_nat(channel_id as nat));
    }
    s
}

/// The stored value of the notices flag.
pub fn notices_flag(enabled: bool) -> (r: i64)
    ensures
        r == (if enabled { 1i64 } else { 0i64 }),
{
    if enabled { 1 } else { 0 }
}

/// An update that touched no row means the guild has no settings row.
pub fn check_rows_affected(guild_id: u64, rows_affected: u64) -> (r: Result<(), SettingsError>)
    ensures
        r is Ok <==> rows_affected > 0,
        r matches Err(e) ==> e == (SettingsError::NoSettingsRow { guild_id }),
{
    if rows_affected > 0 {
        Ok(())
    } else {
        Err(SettingsError::NoSettingsRow { guild_id })
    }
}

/// How a channel setting is stored: the id in decimal (as `channel_value`
/// writes it), or nothing.
pub open spec fn stored_channel(c: Option<u64>) -> Option<Seq<char>> {
    match c {
        Some(id) => Some(dec_nat(id as nat)),
        None => None,
    }
}

/// Settings read back what was written: a row holding the stored form of
/// each channel and the stored notices flag reads as the same settings.
pub proof fn lemma_settings_round_trip(s: GuildSettings, row: SettingsRow)
    requires
        opt_view(row.0) == stored_channel(s.join_log),
        opt_view(row.1) == stored_channel(s.leave_log),
        opt_view(row.2) == stored_channel(s.mod_log),
        row.3 == (if s.notices_enabled { 1i64 } else { 0i64 }),
    ensures
        settings_of_row(Some(row)) == s,
{
    if let Some(id) = s.join_log {
        lemma_parse_dec_round_trip(id);
    }
    if let Some(id) = s.leave_log {
        lemma_parse_dec_round_trip(id);
    }
    if let Some(id) = s.mod_log {
        lemma_parse_dec_round_trip(id);
    }
}

} // verus!
