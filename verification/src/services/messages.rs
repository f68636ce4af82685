//! The kinds of embed the bot posts and the roles users play in them.

use vstd::prelude::*;
use vstd::std_specs::convert::FromSpecImpl;

use crate::text::str_eq;

verus! {

/// Type of bot-posted embed.
#[derive(Debug, Clone, Copy, PartialEq, Eq)]
pub enum MessageType {
    Join,
    Leave,
    Kick,
    Ban,
}

/// The stored form of each embed type.
pub open spec fn message_type_text(t: MessageType) -> Seq<char> {
    match t {
        MessageType::Join => "join"@,
        MessageType::Leave => "leave"@,
        MessageType::Kick => "kick"@,
        MessageType::Ban => "ban"@,
    }
}

/// The embed type a stored text stands for; anything unknown reads as a
/// leave.
pub open spec fn message_type_from_text(s: Seq<char>) -> MessageType {
    if s == "join"@ {
        MessageType::Join
    } else if s == "leave"@ {
        MessageType::Leave
    } else if s == "kick"@ {
        MessageType::Kick
    } else if s == "ban"@ {
        MessageType::Ban
    } else {
        MessageType::Leave
    }
}

impl MessageType {
    pub fn as_str(&self) -> (r: &'static str)
        ensures
            r@ == message_type_text(*self),
    {
        match self {
            MessageType::Join => "join",
            MessageType::Leave => "leave",
            MessageType::Kick => "kick",
            MessageType::Ban => "ban",
        }
    }

    /// Leave, kick and ban embeds record a departure.
    pub fn is_departure(&self) -> (r: bool)
        ensures
            r == !(*self is Join),
    {
        match self {
            MessageType::Join => false,
            _ => true,
        }
    }

    pub fn from_db(s: &str) -> (r: MessageType)
        ensures
            r == message_type_from_text(s@),
    {
        if str_eq(s, "join") {
            MessageType::Join
        } else if str_eq(s, "leave") {
            MessageType::Leave
        } else if str_eq(s, "kick") {
            MessageType::Kick
        } else if str_eq(s, "ban") {
            MessageType::Ban
        } else {
            MessageType::Leave
        }
    }
}

/// Reading back what was stored gives the same embed type.
pub proof fn lemma_message_type_round_trip(t: MessageType)
    ensures
        message_type_from_text(message_type_text(t)) == t,
{
    reveal_strlit("join");
    reveal_strlit("leave");
    reveal_strlit("kick");
    reveal_strlit("ban");
    assert("join"@.len() == 4 && "leave"@.len() == 5 && "kick"@.len() == 4 && "ban"@.len() == 3);
    assert("join"@[0] == 'j' && "kick"@[0] == 'k');
}

/// Role a user plays in a bot-posted embed.
#[derive(Debug, Clone, Copy, PartialEq, Eq)]
pub enum MentionRole {
    Member,
    Inviter,
    Moderator,
}

/// The stored form of each role.
pub open spec fn mention_role_text(r: MentionRole) -> Seq<char> {
    match r {
        MentionRole::Member => "member"@,
        MentionRole::Inviter => "inviter"@,
        MentionRole::Moderator => "moderator"@,
    }
}

impl MentionRole {
    pub fn as_str(&self) -> (r: &'static str)
        ensures
            r@ == mention_role_text(*self),
    {
        match self {
            MentionRole::Member => "member",
            MentionRole::Inviter => "inviter",
            MentionRole::Moderator => "moderator",
        }
    }
}

/// A bot-posted embed as recorded.
#[derive(Debug, Clone)]
pub struct BotMessageRow {
    pub id: i64,
    pub channel_id: String,
    pub message_id: String,
    pub message_type: MessageType,
    pub stay_id: Option<i64>,
    pub previous_message_id: Option<String>,
}

/// A recorded embed as read from storage, its type still as text.
#[derive(Debug, Clone)]
pub struct RawBotMessageRow {
    pub id: i64,
    pub channel_id: String,
    pub message_id: String,
    pub message_type: String,
    pub stay_id: Option<i64>,
    pub previous_message_id: Option<String>,
}

/// The row with its type decoded.
pub open spec fn decoded_row(r: RawBotMessageRow) -> BotMessageRow {
    BotMessageRow {
        id: r.id,
        channel_id: r.channel_id,
        message_id: r.message_id,
        message_type: message_type_from_text(r.message_type@),
        stay_id: r.stay_id,
        previous_message_id: r.previous_message_id,
    }
}

impl From<RawBotMessageRow> for BotMessageRow {
    fn from(r: RawBotMessageRow) -> (out: Self) {
        let t = MessageType::from_db(r.message_type.as_str());
        BotMessageRow {
            id: r.id,
            channel_id: r.channel_id,
            message_id: r.message_id,
            message_type: t,
            stay_id: r.stay_id,
            previous_message_id: r.previous_message_id,
        }
    }
}

impl FromSpecImpl<RawBotMessageRow> for BotMessageRow {
    open spec fn obeys_from_spec() -> bool {
        true
    }

    open spec fn from_spec(r: RawBotMessageRow) -> BotMessageRow {
        decoded_row(r)
    }
}

} // verus!
