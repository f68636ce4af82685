//! Join and departure embeds built from recorded stays, and the edits made
//! to earlier embeds once a member or a moderator is gone.
//!
//! Here a stay row carries the names, inviter and embed location recorded
//! with it, and the audit log is read entry by entry: the first recent
//! entry for the user decides.

use vstd::prelude::*;

use crate::commands::{opt_chars, push_relative_time, relative_time, rfc2822_timestamp, rfc2822_to_unix, MembershipRow};
use crate::events::{display_name_text, UserInfo};
use crate::invites::InviteSnapshot;
use crate::services::audit_log::{
    entry_reason, recent_entry_for, time_distance, AuditAction, AuditEntry, AuditProgress, RemovalReason,
    RECENT_ENTRY_SECS,
};
use crate::services::embeds::{
    embed_view, field_view, fields_view, is_new_account, leave_moderator, leave_reason_text, leave_style,
    mention_of_u64, mention_text, message_link, message_link_text, posted_view, push_field, EmbedField, EmbedSpec,
    EmbedView, FieldView, PostedEmbed, PostedView, COLOR_GREEN, COLOR_ORANGE, COLOR_RED, SEVEN_DAYS_SECS,
};
use crate::text::{dec, dec_nat, parse_u64, parse_u64_spec, push_str, push_u64, str_eq, string_of};

verus! {

// ── Departure reason ─────────────────────────────────────────────────────────

/// The first entry, in order, that is recent for `user_id` decides: a ban
/// or a kick, or nothing for another action (`Some(None)`). `None` when no
/// entry is recent for the user.
pub open spec fn first_recent_reason(entries: Seq<AuditEntry>, user_id: u64, now: int) -> Option<Option<RemovalReason>>
    decreases entries.len(),
{
    if entries.len() == 0 {
        None
    } else if recent_entry_for(entries[0], user_id, now) {
        Some(entry_reason(entries[0]))
    } else {
        first_recent_reason(entries.drop_first(), user_id, now)
    }
}

fn copy_text(o: &Option<String>) -> (r: Option<String>)
    ensures
        r == *o,
{
    match o {
        Some(s) => Some(s.clone()),
        None => None,
    }
}

fn distance(a: i64, b: i64) -> (r: i128)
    ensures
        r as int == time_distance(a as int, b as int),
{
    let d = (a as i128) - (b as i128);
    if d >= 0 { d } else { 0 - d }
}

/// Scan one batch of audit-log entries for the first recent entry about
/// `user_id`.
pub fn first_recent_entry_reason(entries: &[AuditEntry], user_id: u64, now: i64) -> (r: Option<Option<RemovalReason>>)
    ensures
        r == first_recent_reason(entries@, user_id, now as int),
{
    let mut i: usize = 0;
    proof {
        assert(entries@.subrange(0, entries@.len() as int) =~= entries@);
    }
    while i < entries.len()
        invariant
            i <= entries@.len(),
            first_recent_reason(entries@, user_id, now as int) == first_recent_reason(
                entries@.subrange(i as int, entries@.len() as int),
                user_id,
                now as int,
            ),
        decreases entries@.len() - i,
    {
        let e = &entries[i];
        proof {
            let rest = entries@.subrange(i as int, entries@.len() as int);
            assert(rest[0] == entries@[i as int]);
            assert(rest.drop_first() =~= entries@.subrange(i + 1, entries@.len() as int));
        }
        let recent = match e.target_id {
            Some(t) => t == user_id && distance(now, e.created_at) <= RECENT_ENTRY_SECS as i128,
            None => false,
        };
        if recent {
            return match e.action {
                AuditAction::BanAdd => Some(
                    Some(RemovalReason::Banned { moderator_id: Some(e.user_id), reason: copy_text(&e.reason) }),
                ),
                AuditAction::Kick => Some(
                    Some(RemovalReason::Kicked { moderator_id: Some(e.user_id), reason: copy_text(&e.reason) }),
                ),
                AuditAction::Other => Some(None),
            };
        }
        i = i + 1;
    }
    proof {
        assert(entries@.subrange(entries@.len() as int, entries@.len() as int) =~= Seq::<AuditEntry>::empty());
    }
    None
}

/// The search after the ban entries (`None`: they could not be fetched,
/// which ends the search with nothing).
pub fn first_ban_entry(bans: Option<&[AuditEntry]>, user_id: u64, now: i64) -> (r: AuditProgress)
    ensures
        match bans {
            None => r == AuditProgress::Decided(None),
            Some(b) => match first_recent_reason(b@, user_id, now as int) {
                Some(x) => r == AuditProgress::Decided(x),
                None => r == AuditProgress::FetchKicks,
            },
        },
{
    match bans {
        None => AuditProgress::Decided(None),
        Some(b) => match first_recent_entry_reason(b, user_id, now) {
            Some(x) => AuditProgress::Decided(x),
            None => AuditProgress::FetchKicks,
        },
    }
}

/// The search's result from the kick entries (`None`: they could not be
/// fetched).
pub fn first_kick_entry(kicks: Option<&[AuditEntry]>, user_id: u64, now: i64) -> (r: Option<RemovalReason>)
    ensures
        r == match kicks {
            None => None,
            Some(k) => match first_recent_reason(k@, user_id, now as int) {
                Some(x) => x,
                None => None,
            },
        },
{
    match kicks {
        None => None,
        Some(k) => match first_recent_entry_reason(k, user_id, now) {
            Some(x) => x,
            None => None,
        },
    }
}

/// The moderator recorded for a ban the audit log says nothing about.
pub const UNKNOWN_MODERATOR_ID: u64 = 1;

/// The departure: what the audit log says when it says anything; otherwise
/// a ban (by `UNKNOWN_MODERATOR_ID`, no reason) when a ban event was seen in
/// the last seconds, else a voluntary leave.
pub open spec fn stay_leave_reason_of(recently_banned: bool, audit: Option<RemovalReason>) -> RemovalReason {
    match audit {
        Some(r) => r,
        None => if recently_banned {
            RemovalReason::Banned { moderator_id: Some(UNKNOWN_MODERATOR_ID), reason: None }
        } else {
            RemovalReason::Left
        },
    }
}

/// Decide a departure from the ban cache and the audit log.
pub fn stay_leave_reason(recently_banned: bool, audit: Option<RemovalReason>) -> (r: RemovalReason)
    ensures
        r == stay_leave_reason_of(recently_banned, audit),
{
    match audit {
        Some(r) => r,
        None => if recently_banned {
            RemovalReason::Banned { moderator_id: Some(UNKNOWN_MODERATOR_ID), reason: None }
        } else {
            RemovalReason::Left
        },
    }
}

// ── Join embed ───────────────────────────────────────────────────────────────

/// What the join embed of a new member shows.
pub struct StayJoinFacts {
    pub guild_id: u64,
    pub user_id: u64,
    pub username: String,
    pub avatar_url: String,
    /// Unix time the account was created.
    pub created_unix: i64,
    /// Unix time now.
    pub now_unix: i64,
    /// The member's stays, oldest first, this one included.
    pub history: Vec<MembershipRow>,
    /// The invite detected for the join.
    pub invite: Option<(String, InviteSnapshot)>,
}

/// `` `CODE` by <@ID> `` with a known inviter id, `` `CODE` by *NAME* ``
/// otherwise (`Unknown` when the name is not known either), and `Unknown`
/// when no invite was detected.
pub open spec fn stay_join_invite_text(invite: Option<(String, InviteSnapshot)>) -> Seq<char> {
    match invite {
        Some(p) => match p.1.inviter_id {
            Some(id) => "`"@ + p.0@ + "` by "@ + mention_text(id@),
            None => "`"@ + p.0@ + "` by *"@ + match p.1.inviter_name {
                Some(n) => n@,
                None => "Unknown"@,
            } + "*"@,
        },
        None => "Unknown"@,
    }
}

/// The link to the previous stay's embed: the second-to-last stay's, when
/// its location is recorded.
pub open spec fn previous_stay_link(guild_id: u64, history: Seq<MembershipRow>) -> Option<Seq<char>> {
    if history.len() >= 2 {
        let prev = history[history.len() - 2];
        match (prev.embed_channel_id, prev.embed_message_id) {
            (Some(c), Some(m)) => Some(message_link_text(guild_id, c@, m@)),
            _ => None,
        }
    } else {
        None
    }
}

/// The join embed's fields, in order.
pub open spec fn stay_join_fields(j: StayJoinFacts) -> Seq<FieldView> {
    let n = j.history@.len();
    let base = seq![
        ("Username"@, j.username@, true),
        ("Account Created"@, relative_time(j.created_unix as int), true),
        ("Invite"@, stay_join_invite_text(j.invite), true),
    ];
    let with_rejoin = if n > 1 {
        base.push(("Rejoin"@, "Join #"@ + dec(n as int), true))
    } else {
        base
    };
    let with_prev = match previous_stay_link(j.guild_id, j.history@) {
        Some(link) => with_rejoin.push(("Previous"@, "[Leave embed]("@ + link + ")"@, true)),
        None => with_rejoin,
    };
    if is_new_account(j.created_unix as int, j.now_unix as int) {
        with_prev.push(("⚠ New Account"@, "Created less than 7 days ago"@, false))
    } else {
        with_prev
    }
}

/// The join embed: orange for an account younger than seven days, green
/// otherwise.
pub open spec fn stay_join_embed(j: StayJoinFacts) -> EmbedView {
    EmbedView {
        color: if is_new_account(j.created_unix as int, j.now_unix as int) {
            COLOR_ORANGE
        } else {
            COLOR_GREEN
        },
        title: "Member joined"@,
        description: mention_text(dec_nat(j.user_id as nat)) + " joined the server"@,
        thumbnail: Some(j.avatar_url@),
        fields: stay_join_fields(j),
        timestamp: Some(j.now_unix),
    }
}

/// Build the join embed of a new member from its stays.
pub fn build_stay_join_embed(j: &StayJoinFacts) -> (e: EmbedSpec)
    ensures
        embed_view(e) == stay_join_embed(*j),
{
    let n = j.history.len();
    let new_account = (j.now_unix as i128) - (j.created_unix as i128) < SEVEN_DAYS_SECS as i128;
    let invite_text = match &j.invite {
        Some((code, snap)) => match &snap.inviter_id {
            Some(id) => {
                let mut s = string_of("`");
                push_str(&mut s, code.as_str());
                push_str(&mut s, "` by ");
                push_str(&mut s, "<@");
                push_str(&mut s, id.as_str());
                push_str(&mut s, ">");
                proof {
                    assert(s@ =~= stay_join_invite_text(j.invite));
                }
                s
            },
            None => {
                let mut s = string_of("`");
                push_str(&mut s, code.as_str());
                push_str(&mut s, "` by *");
                match &snap.inviter_name {
                    Some(name) => push_str(&mut s, name.as_str()),
                    None => push_str(&mut s, "Unknown"),
                }
                push_str(&mut s, "*");
                proof {
                    assert(s@ =~= stay_join_invite_text(j.invite));
                }
                s
            },
        },
        None => string_of("Unknown"),
    };
    let mut fields: Vec<EmbedField> = Vec::new();
    push_field(&mut fields, "Username", j.username.clone(), true);
    let mut created = String::new();
    push_relative_time(&mut created, j.created_unix);
    push_field(&mut fields, "Account Created", created, true);
    push_field(&mut fields, "Invite", invite_text, true);
    if n > 1 {
        let mut s = string_of("Join #");
        push_u64(&mut s, n as u64);
        proof {
            assert(s@ =~= "Join #"@ + dec(n as int));
        }
        push_field(&mut fields, "Rejoin", s, true);
    }
    if n >= 2 {
        let prev = &j.history[n - 2];
        match (&prev.embed_channel_id, &prev.embed_message_id) {
            (Some(ch), Some(msg)) => {
                let link = message_link(j.guild_id, ch.as_str(), msg.as_str());
                let mut s = string_of("[Leave embed](");
                push_str(&mut s, link.as_str());
                push_str(&mut s, ")");
                push_field(&mut fields, "Previous", s, true);
            },
            _ => {},
        }
    }
    if new_account {
        push_field(&mut fields, "⚠ New Account", string_of("Created less than 7 days ago"), false);
    }
    let mut desc = mention_of_u64(j.user_id);
    push_str(&mut desc, " joined the server");
    let e = EmbedSpec {
        color: if new_account { COLOR_ORANGE } else { COLOR_GREEN },
        title: string_of("Member joined"),
        description: desc,
        thumbnail: Some(j.avatar_url.clone()),
        fields,
        timestamp: Some(j.now_unix),
    };
    proof {
        assert(fields_view(e.fields@) =~= stay_join_fields(*j));
    }
    e
}

// ── Departure embed ──────────────────────────────────────────────────────────

/// The last stay that has ended.
pub open spec fn last_closed_stay(history: Seq<MembershipRow>) -> Option<MembershipRow>
    decreases history.len(),
{
    if history.len() == 0 {
        None
    } else if history.last().left_at is Some {
        Some(history.last())
    } else {
        last_closed_stay(history.drop_last())
    }
}

fn find_last_closed_stay(history: &Vec<MembershipRow>) -> (r: Option<usize>)
    ensures
        match last_closed_stay(history@) {
            Some(st) => r is Some && r->0 < history@.len() && history@[r->0 as int] == st,
            None => r is None,
        },
{
    let mut i: usize = history.len();
    proof {
        assert(history@.subrange(0, i as int) =~= history@);
    }
    while i > 0
        invariant
            i <= history@.len(),
            last_closed_stay(history@) == last_closed_stay(history@.subrange(0, i as int)),
        decreases i,
    {
        let ghost pre = history@.subrange(0, i as int);
        proof {
            assert(pre.drop_last() =~= history@.subrange(0, i - 1));
            assert(pre.last() == history@[i - 1]);
        }
        if history[i - 1].left_at.is_some() {
            return Some(i - 1);
        }
        i = i - 1;
    }
    None
}

/// The name a departing member is shown under: the closed stay's server
/// nickname, else its display name, else the user's display name.
pub open spec fn stay_best_name(closed: Option<MembershipRow>, user: UserInfo) -> Seq<char> {
    let fallback = display_name_text(opt_chars(user.global_name), user.name@);
    match closed {
        Some(st) => match st.server_nickname {
            Some(n) => n@,
            None => match st.display_name {
                Some(d) => d@,
                None => fallback,
            },
        },
        None => fallback,
    }
}

/// What the departure embed of a member shows.
pub struct StayLeaveFacts {
    pub guild_id: u64,
    pub user: UserInfo,
    pub avatar_url: String,
    pub created_unix: i64,
    pub now_unix: i64,
    /// The member's stays, oldest first.
    pub history: Vec<MembershipRow>,
    pub reason: RemovalReason,
}

/// The invite field: `` `CODE` by *NAME* ``, `` `CODE` `` or `Unknown`.
pub open spec fn stay_invite_text(st: MembershipRow) -> Seq<char> {
    match st.invite_code {
        Some(c) => match st.inviter_name {
            Some(n) => "`"@ + c@ + "` by *"@ + n@ + "*"@,
            None => "`"@ + c@ + "`"@,
        },
        None => "Unknown"@,
    }
}

/// The join time of the last closed stay, as chrono parses it.
pub open spec fn closed_stay_join_time(history: Seq<MembershipRow>) -> Option<i64> {
    match last_closed_stay(history) {
        Some(st) => rfc2822_timestamp(st.joined_at@),
        None => None,
    }
}

/// The departure embed's fields, in order, given the join time of the last
/// closed stay.
pub open spec fn stay_leave_fields(l: StayLeaveFacts, joined_ts: Option<i64>) -> Seq<FieldView> {
    let closed = last_closed_stay(l.history@);
    let base = seq![
        ("User ID"@, mention_text(dec_nat(l.user.id as nat)), true),
        ("Username"@, l.user.name@, true),
    ];
    let with_by = match leave_moderator(l.reason) {
        Some(m) => base.push(("By"@, mention_text(dec_nat(m as nat)), true)),
        None => base,
    };
    let with_reason = match leave_reason_text(l.reason) {
        Some(r) => with_by.push(("Reason"@, r@, false)),
        None => with_by,
    };
    let with_invite = match closed {
        Some(st) => with_reason.push(("Invite"@, stay_invite_text(st), true)),
        None => with_reason,
    };
    let with_joined = match closed {
        Some(st) => match joined_ts {
            Some(ts) => with_invite.push(("Joined"@, relative_time(ts as int), true)),
            None => with_invite,
        },
        None => with_invite,
    };
    let with_prev = match closed {
        Some(st) => match (st.embed_channel_id, st.embed_message_id) {
            (Some(c), Some(m)) => with_joined.push(
                ("Previous"@, "[Join Embed]("@ + message_link_text(l.guild_id, c@, m@) + ")"@, true),
            ),
            _ => with_joined,
        },
        None => with_joined,
    };
    let with_total = if l.history@.len() > 1 {
        with_prev.push(("Total Stays"@, dec(l.history@.len() as int), true))
    } else {
        with_prev
    };
    with_total.push(("Account Created"@, relative_time(l.created_unix as int), true))
}

/// The departure embed.
pub open spec fn stay_leave_embed(l: StayLeaveFacts) -> EmbedView {
    stay_leave_embed_with(l, closed_stay_join_time(l.history@))
}

/// The departure embed, given the join time of the last closed stay.
pub open spec fn stay_leave_embed_with(l: StayLeaveFacts, joined_ts: Option<i64>) -> EmbedView {
    EmbedView {
        color: leave_style(l.reason).0,
        title: leave_style(l.reason).2,
        description: "**"@ + stay_best_name(last_closed_stay(l.history@), l.user) + "** "@ + leave_style(l.reason).1,
        thumbnail: Some(l.avatar_url@),
        fields: stay_leave_fields(l, joined_ts),
        timestamp: Some(l.now_unix),
    }
}

/// The name a departing member is shown under.
pub fn stay_departed_name(history: &Vec<MembershipRow>, user: &UserInfo) -> (r: String)
    ensures
        r@ == stay_best_name(last_closed_stay(history@), *user),
{
    let fallback = user.display_name();
    match find_last_closed_stay(history) {
        Some(i) => {
            let st = &history[i];
            match &st.server_nickname {
                Some(n) => string_of(n.as_str()),
                None => match &st.display_name {
                    Some(d) => string_of(d.as_str()),
                    None => fallback,
                },
            }
        },
        None => fallback,
    }
}

/// Build the departure embed of a member from its stays.
pub fn build_stay_leave_embed(l: &StayLeaveFacts) -> (e: EmbedSpec)
    ensures
        embed_view(e) == stay_leave_embed(*l),
{
    let joined_ts = match find_last_closed_stay(&l.history) {
        Some(i) => rfc2822_to_unix(l.history[i].joined_at.as_str()),
        None => None,
    };
    build_stay_leave_embed_at(l, joined_ts)
}

/// Build the departure embed, given the join time of the last closed stay
/// (`None` when it did not parse).
pub fn build_stay_leave_embed_at(l: &StayLeaveFacts, joined_ts: Option<i64>) -> (e: EmbedSpec)
    ensures
        embed_view(e) == stay_leave_embed_with(*l, joined_ts),
{
    let (color, action, title) = match &l.reason {
        RemovalReason::Banned { .. } => (COLOR_RED, "was **banned**", "Member Banned"),
        RemovalReason::Kicked { .. } => (COLOR_ORANGE, "was **kicked**", "Member Kicked"),
        RemovalReason::Left => (crate::services::embeds::COLOR_GREY, "left the server", "Member Left"),
    };
    let closed = find_last_closed_stay(&l.history);
    let mut fields: Vec<EmbedField> = Vec::new();
    push_field(&mut fields, "User ID", mention_of_u64(l.user.id), true);
    push_field(&mut fields, "Username", l.user.name.clone(), true);
    let (moderator, why) = match &l.reason {
        RemovalReason::Banned { moderator_id, reason } => (*moderator_id, reason),
        RemovalReason::Kicked { moderator_id, reason } => (*moderator_id, reason),
        RemovalReason::Left => (None, &None),
    };
    match moderator {
        Some(m) => {
            push_field(&mut fields, "By", mention_of_u64(m), true);
        },
        None => {},
    }
    match why {
        Some(r) => {
            push_field(&mut fields, "Reason", r.clone(), false);
        },
        None => {},
    }
    match closed {
        Some(i) => {
            let st = &l.history[i];
            let text = match &st.invite_code {
                Some(code) => match &st.inviter_name {
                    Some(name) => {
                        let mut s = string_of("`");
                        push_str(&mut s, code.as_str());
                        push_str(&mut s, "` by *");
                        push_str(&mut s, name.as_str());
                        push_str(&mut s, "*");
                        s
                    },
                    None => {
                        let mut s = string_of("`");
                        push_str(&mut s, code.as_str());
                        push_str(&mut s, "`");
                        s
                    },
                },
                None => string_of("Unknown"),
            };
            proof {
                assert(text@ =~= stay_invite_text(*st));
            }
            push_field(&mut fields, "Invite", text, true);
            match joined_ts {
                Some(ts) => {
                    let mut s = String::new();
                    push_relative_time(&mut s, ts);
                    proof {
                        assert(s@ =~= relative_time(ts as int));
                    }
                    push_field(&mut fields, "Joined", s, true);
                },
                None => {},
            }
            match (&st.embed_channel_id, &st.embed_message_id) {
                (Some(ch), Some(msg)) => {
                    let link = message_link(l.guild_id, ch.as_str(), msg.as_str());
                    let mut s = string_of("[Join Embed](");
                    push_str(&mut s, link.as_str());
                    push_str(&mut s, ")");
                    push_field(&mut fields, "Previous", s, true);
                },
                _ => {},
            }
        },
        None => {},
    }
    if l.history.len() > 1 {
        let mut s = String::new();
        push_u64(&mut s, l.history.len() as u64);
        proof {
            assert(s@ =~= dec(l.history@.len() as int));
        }
        push_field(&mut fields, "Total Stays", s, true);
    }
    let mut created = String::new();
    push_relative_time(&mut created, l.created_unix);
    proof {
        assert(created@ =~= relative_time(l.created_unix as int));
    }
    push_field(&mut fields, "Account Created", created, true);
    let best = stay_departed_name(&l.history, &l.user);
    let mut desc = string_of("**");
    push_str(&mut desc, best.as_str());
    push_str(&mut desc, "** ");
    push_str(&mut desc, action);
    let e = EmbedSpec {
        color,
        title: string_of(title),
        description: desc,
        thumbnail: Some(l.avatar_url.clone()),
        fields,
        timestamp: Some(l.now_unix),
    };
    proof {
        assert(fields_view(e.fields@) =~= stay_leave_fields(*l, joined_ts));
        assert(e.description@ =~= stay_leave_embed_with(*l, joined_ts).description);
    }
    e
}

// ── Edits of earlier embeds ──────────────────────────────────────────────────

/// Where a stay's embed was posted, when both ids are recorded and parse.
pub open spec fn embed_location_of(st: MembershipRow) -> Option<(u64, u64)> {
    match (st.embed_channel_id, st.embed_message_id) {
        (Some(c), Some(m)) => match (parse_u64_spec(c@), parse_u64_spec(m@)) {
            (Some(x), Some(y)) => Some((x, y)),
            _ => None,
        },
        _ => None,
    }
}

/// The channel and message id of a stay's embed.
pub fn embed_location(st: &MembershipRow) -> (r: Option<(u64, u64)>)
    ensures
        r == embed_location_of(*st),
{
    match (&st.embed_channel_id, &st.embed_message_id) {
        (Some(c), Some(m)) => match (parse_u64(c.as_str()), parse_u64(m.as_str())) {
            (Some(x), Some(y)) => Some((x, y)),
            _ => None,
        },
        _ => None,
    }
}

/// The invite field of a join embed once the member is gone: names the
/// inviter in italics when the stay recorded code, inviter id and inviter
/// name; otherwise the value stays as it was.
pub open spec fn renamed_invite_value(value: Seq<char>, st: MembershipRow) -> Seq<char> {
    match (st.invite_code, st.inviter_id, st.inviter_name) {
        (Some(c), Some(_), Some(n)) => "`"@ + c@ + "` by *"@ + n@ + "*"@,
        _ => value,
    }
}

/// A field of the rebuilt join embed.
pub open spec fn renamed_join_field(f: FieldView, st: MembershipRow) -> FieldView {
    if f.0 == "Invite"@ {
        (f.0, renamed_invite_value(f.1, st), f.2)
    } else {
        f
    }
}

/// The join embed rebuilt once the member is gone: its title (or
/// `Member joined`), color (or green), the member's name in place of the
/// mention, a `User ID` field, then its fields with the inviter named,
/// its thumbnail and timestamp.
pub open spec fn renamed_join_embed_ok(
    r: PostedView,
    orig: PostedView,
    best_name: Seq<char>,
    user_id: u64,
    st: MembershipRow,
) -> bool {
    &&& r.title == Some(
        match orig.title {
            Some(t) => t,
            None => "Member joined"@,
        },
    )
    &&& r.color == Some(
        match orig.color {
            Some(c) => c,
            None => COLOR_GREEN,
        },
    )
    &&& r.description == Some("**"@ + best_name + "** joined the server"@)
    &&& r.thumbnail == orig.thumbnail
    &&& r.timestamp == orig.timestamp
    &&& r.fields.len() == orig.fields.len() + 1
    &&& r.fields[0] == ("User ID"@, mention_text(dec_nat(user_id as nat)), true)
    &&& forall|i: int|
        0 <= i < orig.fields.len() ==> #[trigger] r.fields[i + 1] == renamed_join_field(orig.fields[i], st)
}

fn copy_opt_text(o: &Option<String>) -> (r: Option<String>)
    ensures
        r == *o,
{
    match o {
        Some(s) => Some(s.clone()),
        None => None,
    }
}

/// Rebuild a member's join embed after the member left: the mention gives
/// way to the name, and the inviter is named.
pub fn rename_join_embed(orig: &PostedEmbed, best_name: &str, user_id: u64, st: &MembershipRow) -> (r: PostedEmbed)
    ensures
        renamed_join_embed_ok(posted_view(r), posted_view(*orig), best_name@, user_id, *st),
{
    let title = match &orig.title {
        Some(t) => string_of(t.as_str()),
        None => string_of("Member joined"),
    };
    let color = match orig.color {
        Some(c) => c,
        None => COLOR_GREEN,
    };
    let mut desc = string_of("**");
    push_str(&mut desc, best_name);
    push_str(&mut desc, "** joined the server");
    let mut fields: Vec<EmbedField> = Vec::new();
    push_field(&mut fields, "User ID", mention_of_u64(user_id), true);
    proof {
        assert(fields_view(fields@).len() == 1);
        assert(fields_view(fields@)[0] == field_view(fields@[0]));
    }
    let renamed: Option<String> = match (&st.invite_code, &st.inviter_id, &st.inviter_name) {
        (Some(c), Some(_), Some(n)) => {
            let mut s = string_of("`");
            push_str(&mut s, c.as_str());
            push_str(&mut s, "` by *");
            push_str(&mut s, n.as_str());
            push_str(&mut s, "*");
            Some(s)
        },
        _ => None,
    };
    let mut i: usize = 0;
    while i < orig.fields.len()
        invariant
            i <= orig.fields@.len(),
            fields@.len() == i + 1,
            field_view(fields@[0]) == ("User ID"@, mention_text(dec_nat(user_id as nat)), true),
            forall|v: Seq<char>| #![auto] match renamed {
                Some(s) => s@ == renamed_invite_value(v, *st),
                None => renamed_invite_value(v, *st) == v,
            },
            forall|k: int|
                0 <= k < i ==> #[trigger] field_view(fields@[k + 1]) == renamed_join_field(
                    field_view(orig.fields@[k]),
                    *st,
                ),
        decreases orig.fields@.len() - i,
    {
        let f = &orig.fields[i];
        let value = if str_eq(f.name.as_str(), "Invite") {
            match &renamed {
                Some(s) => s.clone(),
                None => f.value.clone(),
            }
        } else {
            f.value.clone()
        };
        let ghost before = fields@;
        fields.push(EmbedField { name: f.name.clone(), value, inline: f.inline });
        proof {
            assert(fields@[i + 1] == fields@[(i + 1) as int]);
            assert forall|k: int| 0 <= k < i + 1 implies #[trigger] field_view(fields@[k + 1]) == renamed_join_field(
                field_view(orig.fields@[k]),
                *st,
            ) by {
                if k < i {
                    assert(fields@[k + 1] == before[k + 1]);
                }
            }
        }
        i = i + 1;
    }
    let r = PostedEmbed {
        title: Some(title),
        description: Some(desc),
        color: Some(color),
        thumbnail: copy_opt_text(&orig.thumbnail),
        fields,
        timestamp: copy_opt_text(&orig.timestamp),
    };
    proof {
        let rv = posted_view(r);
        let ov = posted_view(*orig);
        assert(rv.fields.len() == ov.fields.len() + 1);
        assert forall|k: int| 0 <= k < ov.fields.len() implies #[trigger] rv.fields[k + 1] == renamed_join_field(
            ov.fields[k],
            *st,
        ) by {
            assert(rv.fields[k + 1] == field_view(fields@[k + 1]));
            assert(ov.fields[k] == field_view(orig.fields@[k]));
        }
        assert(rv.fields[0] == field_view(fields@[0]));
    }
    r
}

/// A field of an embed in which a departed moderator acted: the `By`
/// field names the moderator in italics.
pub open spec fn renamed_moderator_field(f: FieldView, mod_display: Seq<char>) -> FieldView {
    if f.0 == "By"@ {
        (f.0, "*"@ + mod_display + "*"@, f.2)
    } else {
        f
    }
}

/// An embed in which a departed moderator acted, rebuilt: the same title,
/// description, thumbnail and timestamp, its color (or red), and its fields
/// with the `By` field renamed.
pub open spec fn renamed_moderator_embed_ok(r: PostedView, orig: PostedView, mod_display: Seq<char>) -> bool {
    &&& r.title == orig.title
    &&& r.description == orig.description
    &&& r.color == Some(
        match orig.color {
            Some(c) => c,
            None => COLOR_RED,
        },
    )
    &&& r.thumbnail == orig.thumbnail
    &&& r.timestamp == orig.timestamp
    &&& r.fields.len() == orig.fields.len()
    &&& forall|i: int|
        0 <= i < orig.fields.len() ==> #[trigger] r.fields[i] == renamed_moderator_field(orig.fields[i], mod_display)
}

/// Rebuild an embed in which a departed moderator acted: their broken
/// mention in the `By` field gives way to their name.
pub fn rename_moderator_embed(orig: &PostedEmbed, mod_display: &str) -> (r: PostedEmbed)
    ensures
        renamed_moderator_embed_ok(posted_view(r), posted_view(*orig), mod_display@),
{
    let mut by = string_of("*");
    push_str(&mut by, mod_display);
    push_str(&mut by, "*");
    let mut fields: Vec<EmbedField> = Vec::new();
    let mut i: usize = 0;
    while i < orig.fields.len()
        invariant
            i <= orig.fields@.len(),
            fields@.len() == i,
            by@ == "*"@ + mod_display@ + "*"@,
            forall|k: int|
                0 <= k < i ==> #[trigger] field_view(fields@[k]) == renamed_moderator_field(
                    field_view(orig.fields@[k]),
                    mod_display@,
                ),
        decreases orig.fields@.len() - i,
    {
        let f = &orig.fields[i];
        let value = if str_eq(f.name.as_str(), "By") {
            by.clone()
        } else {
            f.value.clone()
        };
        fields.push(EmbedField { name: f.name.clone(), value, inline: f.inline });
        i = i + 1;
    }
    let r = PostedEmbed {
        title: copy_opt_text(&orig.title),
        description: copy_opt_text(&orig.description),
        color: Some(
            match orig.color {
                Some(c) => c,
                None => COLOR_RED,
            },
        ),
        thumbnail: copy_opt_text(&orig.thumbnail),
        fields,
        timestamp: copy_opt_text(&orig.timestamp),
    };
    proof {
        let rv = posted_view(r);
        let ov = posted_view(*orig);
        assert forall|k: int| 0 <= k < ov.fields.len() implies #[trigger] rv.fields[k] == renamed_moderator_field(
            ov.fields[k],
            mod_display@,
        ) by {
            assert(rv.fields[k] == field_view(fields@[k]));
            assert(ov.fields[k] == field_view(orig.fields@[k]));
        }
    }
    r
}

} // verus!
