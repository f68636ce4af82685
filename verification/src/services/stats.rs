//! Rows of the read-only aggregations (history, rejoiners, exits, balance)
//! and how a departure is recorded.

use vstd::prelude::*;

use crate::text::str_eq;

verus! {

/// How a stay ended.
#[derive(Debug, Clone, Copy, PartialEq, Eq)]
pub enum DepartureType {
    Leave,
    Kick,
    Ban,
}

/// The stored form of each departure type.
pub open spec fn departure_db_text(d: DepartureType) -> Seq<char> {
    match d {
        DepartureType::Leave => "leave"@,
        DepartureType::Kick => "kick"@,
        DepartureType::Ban => "ban"@,
    }
}

/// The departure type a stored text stands for; anything unknown reads as a
/// leave.
pub open spec fn departure_from_text(s: Seq<char>) -> DepartureType {
    if s == "kick"@ {
        DepartureType::Kick
    } else if s == "ban"@ {
        DepartureType::Ban
    } else {
        DepartureType::Leave
    }
}

/// The past-tense word shown for each departure type.
pub open spec fn departure_label(d: DepartureType) -> Seq<char> {
    match d {
        DepartureType::Leave => "left"@,
        DepartureType::Kick => "kicked"@,
        DepartureType::Ban => "banned"@,
    }
}

impl DepartureType {
    pub fn as_str(&self) -> (r: &'static str)
        ensures
            r@ == departure_db_text(*self),
    {
        match self {
            DepartureType::Leave => "leave",
            DepartureType::Kick => "kick",
            DepartureType::Ban => "ban",
        }
    }

    pub fn from_db(s: &str) -> (r: DepartureType)
        ensures
            r == departure_from_text(s@),
    {
        if str_eq(s, "kick") {
            DepartureType::Kick
        } else if str_eq(s, "ban") {
            DepartureType::Ban
        } else {
            DepartureType::Leave
        }
    }

    pub fn label(&self) -> (r: &'static str)
        ensures
            r@ == departure_label(*self),
    {
        match self {
            DepartureType::Leave => "left",
            DepartureType::Kick => "kicked",
            DepartureType::Ban => "banned",
        }
    }
}

/// A stored departure type, when the stay has one.
pub fn decode_departure(stored: &Option<String>) -> (r: Option<DepartureType>)
    ensures
        r == match *stored {
            Some(t) => Some(departure_from_text(t@)),
            None => None,
        },
{
    match stored {
        Some(t) => Some(DepartureType::from_db(t.as_str())),
        None => None,
    }
}

/// Reading back what was stored gives the same departure type.
pub proof fn lemma_departure_round_trip(d: DepartureType)
    ensures
        departure_from_text(departure_db_text(d)) == d,
{
    reveal_strlit("kick");
    reveal_strlit("ban");
    reveal_strlit("leave");
    match d {
        DepartureType::Leave => {
            assert("leave"@.len() == 5 && "kick"@.len() == 4 && "ban"@.len() == 3);
        },
        DepartureType::Kick => {},
        DepartureType::Ban => {
            assert("kick"@.len() == 4 && "ban"@.len() == 3);
        },
    }
}

/// One stay of a member.
#[derive(Debug, Clone)]
pub struct StayRow {
    pub id: i64,
    pub joined_at: String,
    pub left_at: Option<String>,
    pub departure_type: Option<DepartureType>,
    pub invite_code: Option<String>,
    pub inviter_id: Option<String>,
    pub moderator_id: Option<String>,
    pub member_flags: i64,
}

/// A member with several stays.
#[derive(Debug, Clone)]
pub struct RejoinerRow {
    pub user_id: String,
    pub stay_count: i64,
    pub times_left: i64,
    pub account_username: Option<String>,
    pub display_name: Option<String>,
    pub server_nickname: Option<String>,
}

/// A closed stay, for the exits report.
#[derive(Debug, Clone)]
pub struct ExitRow {
    pub user_id: String,
    pub left_at: String,
    pub departure_type: Option<DepartureType>,
    pub account_username: Option<String>,
    pub display_name: Option<String>,
    pub server_nickname: Option<String>,
}

/// Snapshot counts of a guild.
#[derive(Debug, Clone)]
pub struct StatsCurrent {
    pub current_members: i64,
    pub unique_ever: i64,
    pub total_stays: i64,
    pub total_exits: i64,
    pub total_banned: i64,
}

/// Join and leave times of one stay, for trend deltas.
#[derive(Debug, Clone)]
pub struct RejoinTimes {
    pub user_id: String,
    pub joined_at: String,
    pub left_at: Option<String>,
    pub departure_type: Option<DepartureType>,
}

} // verus!
