//! The join and leave embeds the bot posts, built from plain values.

use vstd::prelude::*;

use crate::commands::{push_relative_time, relative_time, rfc2822_timestamp, rfc2822_to_unix};
use crate::invites::InviteSnapshot;
use crate::services::audit_log::RemovalReason;
use crate::services::messages::{MentionRole, MessageType};
use crate::services::stats::StayRow;
use crate::text::{dec, dec_nat, push_str, push_u64, string_of};

verus! {

/// Seconds in seven days: accounts younger than this are flagged as new.
pub const SEVEN_DAYS_SECS: i64 = 604800;

/// Orange: a new account (takes priority), or a kick.
pub const COLOR_ORANGE: u32 = 0xe67e22;
/// Blue: a returning member.
pub const COLOR_BLUE: u32 = 0x3498db;
/// Green: a normal first join.
pub const COLOR_GREEN: u32 = 0x2ecc71;
/// Red: a ban.
pub const COLOR_RED: u32 = 0xe74c3c;
/// Grey: a voluntary leave.
pub const COLOR_GREY: u32 = 0x95a5a6;

/// One field of an embed.
#[derive(Debug, Clone)]
pub struct EmbedField {
    pub name: String,
    pub value: String,
    pub inline: bool,
}

/// An embed to post.
#[derive(Debug, Clone)]
pub struct EmbedSpec {
    pub color: u32,
    pub title: String,
    pub description: String,
    pub thumbnail: Option<String>,
    pub fields: Vec<EmbedField>,
    /// Unix time shown as the embed's timestamp.
    pub timestamp: Option<i64>,
}

/// An embed already posted, as read back from Discord: every part is
/// optional. The timestamp is kept as Discord's RFC 3339 text.
#[derive(Debug, Clone)]
pub struct PostedEmbed {
    pub title: Option<String>,
    pub description: Option<String>,
    pub color: Option<u32>,
    pub thumbnail: Option<String>,
    pub fields: Vec<EmbedField>,
    pub timestamp: Option<String>,
}

/// A field as plain text: name, value, inline.
pub type FieldView = (Seq<char>, Seq<char>, bool);

pub open spec fn field_view(f: EmbedField) -> FieldView {
    (f.name@, f.value@, f.inline)
}

pub open spec fn fields_view(fs: Seq<EmbedField>) -> Seq<FieldView> {
    fs.map_values(|f: EmbedField| field_view(f))
}

/// An embed as plain text.
pub struct EmbedView {
    pub color: u32,
    pub title: Seq<char>,
    pub description: Seq<char>,
    pub thumbnail: Option<Seq<char>>,
    pub fields: Seq<FieldView>,
    pub timestamp: Option<i64>,
}

pub open spec fn embed_view(e: EmbedSpec) -> EmbedView {
    EmbedView {
        color: e.color,
        title: e.title@,
        description: e.description@,
        thumbnail: match e.thumbnail {
            Some(t) => Some(t@),
            None => None,
        },
        fields: fields_view(e.fields@),
        timestamp: e.timestamp,
    }
}

pub(crate) fn push_field(fields: &mut Vec<EmbedField>, name: &str, value: String, inline: bool)
    ensures
        fields_view(final(fields)@) == fields_view(old(fields)@).push((name@, value@, inline)),
{
    let f = EmbedField { name: string_of(name), value, inline };
    fields.push(f);
    proof {
        assert(fields_view(fields@) =~= fields_view(old(fields)@).push((name@, f.value@, inline)));
    }
}

/// The optional text of an optional string.
pub open spec fn opt_text_of(o: Option<String>) -> Option<Seq<char>> {
    match o {
        Some(s) => Some(s@),
        None => None,
    }
}

/// A posted embed as plain text.
pub struct PostedView {
    pub title: Option<Seq<char>>,
    pub description: Option<Seq<char>>,
    pub color: Option<u32>,
    pub thumbnail: Option<Seq<char>>,
    pub fields: Seq<FieldView>,
    pub timestamp: Option<Seq<char>>,
}

pub open spec fn posted_view(e: PostedEmbed) -> PostedView {
    PostedView {
        title: opt_text_of(e.title),
        description: opt_text_of(e.description),
        color: e.color,
        thumbnail: opt_text_of(e.thumbnail),
        fields: fields_view(e.fields@),
        timestamp: opt_text_of(e.timestamp),
    }
}

/// `https://discord.com/channels/GUILD/CHANNEL/MESSAGE`.
pub open spec fn message_link_text(guild_id: u64, channel_id: Seq<char>, message_id: Seq<char>) -> Seq<char> {
    "https://discord.com/channels/"@ + dec_nat(guild_id as nat) + "/"@ + channel_id + "/"@ + message_id
}

/// A link to a posted message.
pub fn message_link(guild_id: u64, channel_id: &str, message_id: &str) -> (r: String)
    ensures
        r@ == message_link_text(guild_id, channel_id@, message_id@),
{
    let mut s = string_of("https://discord.com/channels/");
    push_u64(&mut s, guild_id);
    push_str(&mut s, "/");
    push_str(&mut s, channel_id);
    push_str(&mut s, "/");
    push_str(&mut s, message_id);
    proof {
        assert(s@ =~= message_link_text(guild_id, channel_id@, message_id@));
    }
    s
}

/// `<@ID>`.
pub open spec fn mention_text(id: Seq<char>) -> Seq<char> {
    "<@"@ + id + ">"@
}

pub(crate) fn mention_of_u64(id: u64) -> (r: String)
    ensures
        r@ == mention_text(dec_nat(id as nat)),
{
    let mut s = string_of("<@");
    push_u64(&mut s, id);
    push_str(&mut s, ">");
    proof {
        assert(s@ =~= mention_text(dec_nat(id as nat)));
    }
    s
}

// ── Join embed ───────────────────────────────────────────────────────────────

/// The account was created less than seven days before `now`.
pub open spec fn is_new_account(created_unix: int, now_unix: int) -> bool {
    now_unix - created_unix < SEVEN_DAYS_SECS
}

/// Orange for a new account, else blue for a returning member, else green.
pub open spec fn join_color(new_account: bool, returning: bool) -> u32 {
    if new_account {
        COLOR_ORANGE
    } else if returning {
        COLOR_BLUE
    } else {
        COLOR_GREEN
    }
}

/// `` `CODE` by <@INVITER> ``, `` `CODE` `` when the inviter is unknown, and
/// `Unknown` when no invite was detected.
pub open spec fn join_invite_text(invite: Option<(String, InviteSnapshot)>) -> Seq<char> {
    match invite {
        Some(p) => match p.1.inviter_id {
            Some(id) => "`"@ + p.0@ + "` by "@ + mention_text(id@),
            None => "`"@ + p.0@ + "`"@,
        },
        None => "Unknown"@,
    }
}

/// What a new member's join embed shows.
pub struct JoinFacts {
    pub guild_id: u64,
    pub user_id: u64,
    pub username: String,
    pub avatar_url: String,
    /// Unix time the account was created.
    pub created_unix: i64,
    /// Unix time now.
    pub now_unix: i64,
    /// Discord says the member was here before.
    pub did_rejoin: bool,
    /// Recorded stays of the member, this one included.
    pub stay_count: u64,
    /// The member's last departure embed: channel and message ids.
    pub previous_departure: Option<(String, String)>,
    /// The invite detected for the join.
    pub invite: Option<(String, InviteSnapshot)>,
}

/// The join embed's fields, in order.
pub open spec fn join_fields(j: JoinFacts) -> Seq<FieldView> {
    let base = seq![
        ("Username"@, j.username@, true),
        ("Account Created"@, relative_time(j.created_unix as int), true),
        ("Invite"@, join_invite_text(j.invite), true),
    ];
    let with_stays = if j.stay_count > 1 {
        base.push(("Stays"@, "Join #"@ + dec_nat(j.stay_count as nat), true))
    } else if j.did_rejoin {
        base.push(("Stays"@, "Returning member"@, true))
    } else {
        base
    };
    let with_prev = match j.previous_departure {
        Some(p) => with_stays.push(
            ("Previous"@, "[Leave embed]("@ + message_link_text(j.guild_id, p.0@, p.1@) + ")"@, true),
        ),
        None => with_stays,
    };
    if is_new_account(j.created_unix as int, j.now_unix as int) {
        with_prev.push(("⚠ New Account"@, "Created less than 7 days ago"@, false))
    } else {
        with_prev
    }
}

/// The join embed.
pub open spec fn join_embed(j: JoinFacts) -> EmbedView {
    EmbedView {
        color: join_color(
            is_new_account(j.created_unix as int, j.now_unix as int),
            j.did_rejoin || j.stay_count > 1,
        ),
        title: "Member joined"@,
        description: mention_text(dec_nat(j.user_id as nat)) + " joined the server"@,
        thumbnail: Some(j.avatar_url@),
        fields: join_fields(j),
        timestamp: Some(j.now_unix),
    }
}

/// Build the join embed.
pub fn build_join_embed(j: &JoinFacts) -> (e: EmbedSpec)
    ensures
        embed_view(e) == join_embed(*j),
{
    let new_account = (j.now_unix as i128) - (j.created_unix as i128) < SEVEN_DAYS_SECS as i128;
    let returning = j.did_rejoin || j.stay_count > 1;
    let color = if new_account {
        COLOR_ORANGE
    } else if returning {
        COLOR_BLUE
    } else {
        COLOR_GREEN
    };
    let invite_text = match &j.invite {
        Some((code, snap)) => match &snap.inviter_id {
            Some(id) => {
                let mut s = string_of("`");
                push_str(&mut s, code.as_str());
                push_str(&mut s, "` by ");
                push_str(&mut s, "<@");
                push_str(&mut s, id.as_str());
                push_str(&mut s, ">");
                proof {
                    assert(s@ =~= join_invite_text(j.invite));
                }
                s
            },
            None => {
                let mut s = string_of("`");
                push_str(&mut s, code.as_str());
                push_str(&mut s, "`");
                proof {
                    assert(s@ =~= join_invite_text(j.invite));
                }
                s
            },
        },
        None => string_of("Unknown"),
    };
    let mut fields: Vec<EmbedField> = Vec::new();
    push_field(&mut fields, "Username", j.username.clone(), true);
    let mut created = String::new();
    push_relative_time(&mut created, j.created_unix);
    push_field(&mut fields, "Account Created", created, true);
    push_field(&mut fields, "Invite", invite_text, true);
    if j.stay_count > 1 {
        let mut s = string_of("Join #");
        push_u64(&mut s, j.stay_count);
        push_field(&mut fields, "Stays", s, true);
    } else if j.did_rejoin {
        push_field(&mut fields, "Stays", string_of("Returning member"), true);
    }
    match &j.previous_departure {
        Some((ch, msg)) => {
            let link = message_link(j.guild_id, ch.as_str(), msg.as_str());
            let mut s = string_of("[Leave embed](");
            push_str(&mut s, link.as_str());
            push_str(&mut s, ")");
            push_field(&mut fields, "Previous", s, true);
        },
        None => {},
    }
    if new_account {
        push_field(&mut fields, "⚠ New Account", string_of("Created less than 7 days ago"), false);
    }
    let mut desc = mention_of_u64(j.user_id);
    push_str(&mut desc, " joined the server");
    let e = EmbedSpec {
        color,
        title: string_of("Member joined"),
        description: desc,
        thumbnail: Some(j.avatar_url.clone()),
        fields,
        timestamp: Some(j.now_unix),
    };
    proof {
        assert(fields_view(e.fields@) =~= join_fields(*j));
        assert(embed_view(e).thumbnail == Some(j.avatar_url@));
    }
    e
}

/// The join embed marks a returning member with a `Stays` field: with more
/// than one recorded stay it is the fourth field and reads `Join #` and the
/// stay count; with one stay, a member Discord reports as rejoining gets
/// `Returning member` there; and a `Stays` field appears exactly for the
/// members the colour treats as returning.
pub proof fn lemma_join_stays_field(j: JoinFacts)
    ensures
        j.stay_count > 1 ==> join_embed(j).fields[3] == ("Stays"@, "Join #"@ + dec_nat(j.stay_count as nat), true),
        j.stay_count <= 1 && j.did_rejoin ==> join_embed(j).fields[3] == ("Stays"@, "Returning member"@, true),
        (exists|i: int| 0 <= i < join_embed(j).fields.len() && #[trigger] join_embed(j).fields[i].0 == "Stays"@)
            <==> (j.did_rejoin || j.stay_count > 1),
{
    reveal_strlit("Stays");
    reveal_strlit("Username");
    reveal_strlit("Account Created");
    reveal_strlit("Invite");
    reveal_strlit("Previous");
    reveal_strlit("⚠ New Account");
    let fs = join_embed(j).fields;
    if j.did_rejoin || j.stay_count > 1 {
        assert(fs[3].0 == "Stays"@);
    } else {
        assert forall|i: int| 0 <= i < fs.len() implies #[trigger] fs[i].0 != "Stays"@ by {
            assert(fs[i].0.len() != "Stays"@.len());
        }
    }
}

/// The users a join embed mentions: the member, then the inviter when known.
pub open spec fn join_mentions_spec(user_id: Seq<char>, invite: Option<(String, InviteSnapshot)>) -> Seq<(Seq<char>, MentionRole)> {
    let base = seq![(user_id, MentionRole::Member)];
    match invite {
        Some(p) => match p.1.inviter_id {
            Some(id) => base.push((id@, MentionRole::Inviter)),
            None => base,
        },
        None => base,
    }
}

/// The mentions to record for a join embed.
pub fn join_mentions(user_id: &str, invite: &Option<(String, InviteSnapshot)>) -> (r: Vec<(String, MentionRole)>)
    ensures
        r@.map_values(|m: (String, MentionRole)| (m.0@, m.1)) == join_mentions_spec(user_id@, *invite),
{
    let mut r: Vec<(String, MentionRole)> = Vec::new();
    r.push((string_of(user_id), MentionRole::Member));
    match invite {
        Some((_, snap)) => match &snap.inviter_id {
            Some(id) => {
                r.push((id.clone(), MentionRole::Inviter));
            },
            None => {},
        },
        None => {},
    }
    proof {
        assert(r@.map_values(|m: (String, MentionRole)| (m.0@, m.1)) =~= join_mentions_spec(user_id@, *invite));
    }
    r
}

// ── Leave embed ──────────────────────────────────────────────────────────────

/// Color, action wording and title for each departure.
pub open spec fn leave_style(reason: RemovalReason) -> (u32, Seq<char>, Seq<char>) {
    match reason {
        RemovalReason::Banned { .. } => (COLOR_RED, "was **banned**"@, "Member Banned"@),
        RemovalReason::Kicked { .. } => (COLOR_ORANGE, "was **kicked**"@, "Member Kicked"@),
        RemovalReason::Left => (COLOR_GREY, "left the server"@, "Member Left"@),
    }
}

/// The message type recorded for each departure.
pub open spec fn leave_message_type(reason: RemovalReason) -> MessageType {
    match reason {
        RemovalReason::Banned { .. } => MessageType::Ban,
        RemovalReason::Kicked { .. } => MessageType::Kick,
        RemovalReason::Left => MessageType::Leave,
    }
}

/// The moderator of a ban or kick, when known.
pub open spec fn leave_moderator(reason: RemovalReason) -> Option<u64> {
    match reason {
        RemovalReason::Banned { moderator_id, .. } => moderator_id,
        RemovalReason::Kicked { moderator_id, .. } => moderator_id,
        RemovalReason::Left => None,
    }
}

/// The reason given for a ban or kick, when any.
pub open spec fn leave_reason_text(reason: RemovalReason) -> Option<String> {
    match reason {
        RemovalReason::Banned { reason, .. } => reason,
        RemovalReason::Kicked { reason, .. } => reason,
        RemovalReason::Left => None,
    }
}

/// The last stay that has ended.
pub open spec fn last_closed(history: Seq<StayRow>) -> Option<StayRow>
    decreases history.len(),
{
    if history.len() == 0 {
        None
    } else if history.last().left_at is Some {
        Some(history.last())
    } else {
        last_closed(history.drop_last())
    }
}

/// What a departing member's leave embed shows.
pub struct LeaveFacts {
    pub guild_id: u64,
    pub user_id: u64,
    pub username: String,
    pub avatar_url: String,
    pub created_unix: i64,
    pub now_unix: i64,
    /// The most recognizable name known for the member.
    pub best_name: String,
    /// The member's stays, oldest first.
    pub history: Vec<StayRow>,
    /// How to refer to the inviter of the last closed stay, when it had one.
    pub inviter_ref: Option<String>,
    /// The member's last join embed: channel and message ids.
    pub join_embed: Option<(String, String)>,
    pub reason: RemovalReason,
}

/// The invite field of a leave embed.
pub open spec fn leave_invite_text(code: Option<String>, inviter_ref: Option<String>) -> Seq<char> {
    match code {
        Some(c) => match inviter_ref {
            Some(r) => "`"@ + c@ + "` by "@ + r@,
            None => "`"@ + c@ + "`"@,
        },
        None => "Unknown"@,
    }
}

/// The leave embed's fields, in order.
pub open spec fn leave_fields_with(l: LeaveFacts, joined_ts: Option<i64>) -> Seq<FieldView> {
    let closed = last_closed(l.history@);
    let base = seq![
        ("Username"@, l.username@, true),
        ("Account Created"@, relative_time(l.created_unix as int), true),
    ];
    let with_invite = match closed {
        Some(st) => base.push(("Invite"@, leave_invite_text(st.invite_code, l.inviter_ref), true)),
        None => base,
    };
    let with_by = match leave_moderator(l.reason) {
        Some(m) => with_invite.push(("By"@, mention_text(dec_nat(m as nat)), true)),
        None => with_invite,
    };
    let with_reason = match leave_reason_text(l.reason) {
        Some(r) => with_by.push(("Reason"@, r@, false)),
        None => with_by,
    };
    let with_joined = match closed {
        Some(st) => match joined_ts {
            Some(ts) => with_reason.push(("Joined"@, relative_time(ts as int), true)),
            None => with_reason,
        },
        None => with_reason,
    };
    let with_stays = if l.history@.len() > 1 {
        with_joined.push(("Stays"@, dec(l.history@.len() as int) + " total"@, true))
    } else {
        with_joined
    };
    match l.join_embed {
        Some(p) => with_stays.push(
            ("Previous"@, "[Join embed]("@ + message_link_text(l.guild_id, p.0@, p.1@) + ")"@, true),
        ),
        None => with_stays,
    }
}

/// The join time of the last closed stay, as chrono parses it.
pub open spec fn closed_join_time(history: Seq<StayRow>) -> Option<i64> {
    match last_closed(history) {
        Some(st) => rfc2822_timestamp(st.joined_at@),
        None => None,
    }
}

/// The leave embed's fields, in order, with the last closed stay's join
/// time parsed.
pub open spec fn leave_fields(l: LeaveFacts) -> Seq<FieldView> {
    leave_fields_with(l, closed_join_time(l.history@))
}

/// The leave embed.
pub open spec fn leave_embed(l: LeaveFacts) -> EmbedView {
    leave_embed_with(l, closed_join_time(l.history@))
}

/// The leave embed, given the join time of the last closed stay.
pub open spec fn leave_embed_with(l: LeaveFacts, joined_ts: Option<i64>) -> EmbedView {
    EmbedView {
        color: leave_style(l.reason).0,
        title: leave_style(l.reason).2,
        description: "**"@ + l.best_name@ + "** ("@ + mention_text(dec_nat(l.user_id as nat)) + ") "@
            + leave_style(l.reason).1,
        thumbnail: Some(l.avatar_url@),
        fields: leave_fields_with(l, joined_ts),
        timestamp: Some(l.now_unix),
    }
}

/// The position of the last stay that has ended.
pub fn find_last_closed(history: &Vec<StayRow>) -> (r: Option<usize>)
    ensures
        match last_closed(history@) {
            Some(st) => r is Some && r->0 < history@.len() && history@[r->0 as int] == st,
            None => r is None,
        },
{
    let mut i: usize = history.len();
    proof {
        assert(history@.subrange(0, i as int) =~= history@);
    }
    while i > 0
        invariant
            i <= history@.len(),
            last_closed(history@) == last_closed(history@.subrange(0, i as int)),
        decreases i,
    {
        let ghost pre = history@.subrange(0, i as int);
        proof {
            assert(pre.drop_last() =~= history@.subrange(0, i - 1));
            assert(pre.last() == history@[i - 1]);
        }
        if history[i - 1].left_at.is_some() {
            return Some(i - 1);
        }
        i = i - 1;
    }
    None
}

/// Build the leave, kick or ban embed.
pub fn build_leave_embed(l: &LeaveFacts) -> (e: EmbedSpec)
    ensures
        embed_view(e) == leave_embed(*l),
{
    let joined_ts = match find_last_closed(&l.history) {
        Some(i) => rfc2822_to_unix(l.history[i].joined_at.as_str()),
        None => None,
    };
    build_leave_embed_at(l, joined_ts)
}

/// Build the leave, kick or ban embed, given the join time of the last
/// closed stay (`None` when it did not parse).
pub fn build_leave_embed_at(l: &LeaveFacts, joined_ts: Option<i64>) -> (e: EmbedSpec)
    ensures
        embed_view(e) == leave_embed_with(*l, joined_ts),
{
    let (color, action, title) = match &l.reason {
        RemovalReason::Banned { .. } => (COLOR_RED, "was **banned**", "Member Banned"),
        RemovalReason::Kicked { .. } => (COLOR_ORANGE, "was **kicked**", "Member Kicked"),
        RemovalReason::Left => (COLOR_GREY, "left the server", "Member Left"),
    };
    let closed = find_last_closed(&l.history);
    let ghost lc = last_closed(l.history@);
    let mut fields: Vec<EmbedField> = Vec::new();
    push_field(&mut fields, "Username", l.username.clone(), true);
    let mut created = String::new();
    push_relative_time(&mut created, l.created_unix);
    push_field(&mut fields, "Account Created", created, true);
    match closed {
        Some(i) => {
            let st = &l.history[i];
            let text = match &st.invite_code {
                Some(code) => match &l.inviter_ref {
                    Some(r) => {
                        let mut s = string_of("`");
                        push_str(&mut s, code.as_str());
                        push_str(&mut s, "` by ");
                        push_str(&mut s, r.as_str());
                        s
                    },
                    None => {
                        let mut s = string_of("`");
                        push_str(&mut s, code.as_str());
                        push_str(&mut s, "`");
                        s
                    },
                },
                None => string_of("Unknown"),
            };
            proof {
                assert(text@ =~= leave_invite_text(st.invite_code, l.inviter_ref));
            }
            push_field(&mut fields, "Invite", text, true);
        },
        None => {},
    }
    let (moderator, why) = match &l.reason {
        RemovalReason::Banned { moderator_id, reason } => (*moderator_id, reason),
        RemovalReason::Kicked { moderator_id, reason } => (*moderator_id, reason),
        RemovalReason::Left => (None, &None),
    };
    match moderator {
        Some(m) => {
            push_field(&mut fields, "By", mention_of_u64(m), true);
        },
        None => {},
    }
    match why {
        Some(r) => {
            push_field(&mut fields, "Reason", r.clone(), false);
        },
        None => {},
    }
    match closed {
        Some(i) => {
            match joined_ts {
                Some(ts) => {
                    let mut s = String::new();
                    push_relative_time(&mut s, ts);
                    proof {
                        assert(s@ =~= relative_time(ts as int));
                    }
                    push_field(&mut fields, "Joined", s, true);
                },
                None => {},
            }
        },
        None => {},
    }
    if l.history.len() > 1 {
        let mut s = String::new();
        push_u64(&mut s, l.history.len() as u64);
        push_str(&mut s, " total");
        push_field(&mut fields, "Stays", s, true);
    }
    match &l.join_embed {
        Some((ch, msg)) => {
            let link = message_link(l.guild_id, ch.as_str(), msg.as_str());
            let mut s = string_of("[Join embed](");
            push_str(&mut s, link.as_str());
            push_str(&mut s, ")");
            push_field(&mut fields, "Previous", s, true);
        },
        None => {},
    }
    let mut desc = string_of("**");
    push_str(&mut desc, l.best_name.as_str());
    push_str(&mut desc, "** (");
    let m = mention_of_u64(l.user_id);
    push_str(&mut desc, m.as_str());
    push_str(&mut desc, ") ");
    push_str(&mut desc, action);
    let e = EmbedSpec {
        color,
        title: string_of(title),
        description: desc,
        thumbnail: Some(l.avatar_url.clone()),
        fields,
        timestamp: Some(l.now_unix),
    };
    proof {
        assert(fields_view(e.fields@) =~= leave_fields_with(*l, joined_ts));
        assert(e.description@ =~= leave_embed_with(*l, joined_ts).description);
    }
    e
}

/// The message type to record for a departure embed.
pub fn departure_message_type(reason: &RemovalReason) -> (t: MessageType)
    ensures
        t == leave_message_type(*reason),
{
    match reason {
        RemovalReason::Banned { .. } => MessageType::Ban,
        RemovalReason::Kicked { .. } => MessageType::Kick,
        RemovalReason::Left => MessageType::Leave,
    }
}

/// The users a departure embed mentions: the member, then the moderator
/// when known.
pub open spec fn leave_mentions_spec(user_id: Seq<char>, reason: RemovalReason) -> Seq<(Seq<char>, MentionRole)> {
    match leave_moderator(reason) {
        Some(m) => seq![(user_id, MentionRole::Member), (dec_nat(m as nat), MentionRole::Moderator)],
        None => seq![(user_id, MentionRole::Member)],
    }
}

/// The mentions to record for a departure embed.
pub fn leave_mentions(user_id: &str, reason: &RemovalReason) -> (r: Vec<(String, MentionRole)>)
    ensures
        r@.map_values(|m: (String, MentionRole)| (m.0@, m.1)) == leave_mentions_spec(user_id@, *reason),
{
    let mut r: Vec<(String, MentionRole)> = Vec::new();
    r.push((string_of(user_id), MentionRole::Member));
    let moderator = match reason {
        RemovalReason::Banned { moderator_id, .. } => *moderator_id,
        RemovalReason::Kicked { moderator_id, .. } => *moderator_id,
        RemovalReason::Left => None,
    };
    match moderator {
        Some(m) => {
            let mut s = String::new();
            push_u64(&mut s, m);
            r.push((s, MentionRole::Moderator));
        },
        None => {},
    }
    proof {
        assert(r@.map_values(|m: (String, MentionRole)| (m.0@, m.1)) =~= leave_mentions_spec(user_id@, *reason));
    }
    r
}

} // verus!
