use observer::commands::MembershipRow;
use observer::events::invites::invite_snapshot;
use observer::events::join::{did_rejoin, tracks_member};
use observer::events::leave::{departure_of, leave_target};
use observer::events::stay_embeds::{
    build_stay_join_embed, build_stay_leave_embed, embed_location, first_ban_entry, first_kick_entry,
    first_recent_entry_reason, rename_join_embed, rename_moderator_embed, stay_departed_name, stay_leave_reason,
    StayJoinFacts, StayLeaveFacts, UNKNOWN_MODERATOR_ID,
};
use observer::events::sync::{stale_user_ids, sync_action, SyncAction};
use observer::events::UserInfo;
use observer::invites::InviteSnapshot;
use observer::repos::guild_notices_repo::GuildNoticesRepo;
use observer::repos::guild_settings_repo::GuildSettingsRepo;
use observer::services::audit_log::{AuditAction, AuditEntry, AuditProgress, RemovalReason};
use observer::services::embeds::{EmbedField, PostedEmbed};
use observer::services::settings::GuildSettings;
use observer::services::stats::DepartureType;

fn opt_text(x: &str) -> Option<String> {
    Some(x.to_string())
}

fn user(id: u64, name: &str, global: Option<&str>) -> UserInfo {
    UserInfo { id, name: name.to_string(), global_name: global.map(|g| g.to_string()) }
}

fn membership_row(joined: &str, left: Option<&str>) -> MembershipRow {
    MembershipRow {
        joined_at: joined.to_string(),
        left_at: left.map(|x| x.to_string()),
        banned: false,
        kicked: false,
        invite_code: None,
        inviter_id: None,
        inviter_name: None,
        display_name: None,
        server_nickname: None,
        embed_channel_id: None,
        embed_message_id: None,
    }
}

#[test]
fn member_flags() {
    assert!(tracks_member(0));
    assert!(tracks_member(1));
    assert!(!tracks_member(1 << 4));
    assert!(!tracks_member((1 << 4) | 1));
    assert!(did_rejoin(1));
    assert!(!did_rejoin(2));
}

#[test]
fn departures_and_targets() {
    let ban = RemovalReason::Banned { moderator_id: Some(12), reason: None };
    let kick = RemovalReason::Kicked { moderator_id: None, reason: opt_text("r") };
    assert_eq!(departure_of(&ban), (DepartureType::Ban, opt_text("12")));
    assert_eq!(departure_of(&kick), (DepartureType::Kick, None));
    assert_eq!(departure_of(&RemovalReason::Left), (DepartureType::Leave, None));
    let gs = GuildSettings { join_log: Some(1), leave_log: Some(2), mod_log: Some(3), notices_enabled: true };
    assert_eq!(leave_target(&ban, &gs), Some(3));
    assert_eq!(leave_target(&RemovalReason::Left, &gs), Some(2));
    let no_mod = GuildSettings { mod_log: None, ..gs };
    assert_eq!(leave_target(&kick, &no_mod), Some(2));
    let none = GuildSettings { leave_log: None, ..no_mod };
    assert_eq!(leave_target(&RemovalReason::Left, &GuildSettings { leave_log: None, ..gs }), None);
    assert_eq!(leave_target(&kick, &none), None);
}

#[test]
fn startup_sync() {
    let open = vec!["1".to_string(), "2".to_string(), "3".to_string()];
    assert_eq!(sync_action(0, "2", &open), SyncAction::UpdateNames);
    assert_eq!(sync_action(0, "9", &open), SyncAction::Backfill);
    assert_eq!(sync_action(1 << 4, "2", &open), SyncAction::Skip);
    let current = vec!["3".to_string(), "9".to_string(), "1".to_string()];
    assert_eq!(stale_user_ids(&open, &current), vec!["2".to_string()]);
    assert_eq!(stale_user_ids(&open, &[]), open);
}

#[test]
fn user_names_and_snapshots() {
    assert_eq!(user(1, "bob", Some("Bobby")).display_name(), "Bobby");
    assert_eq!(user(1, "bob", None).display_name(), "bob");
    let snap = invite_snapshot(3, 10, &Some(user(77, "inv", None)));
    assert_eq!(snap.uses, 3);
    assert_eq!(snap.max_uses, 10);
    assert_eq!(snap.inviter_id.as_deref(), Some("77"));
    assert_eq!(snap.inviter_name.as_deref(), Some("inv"));
    let anon = invite_snapshot(0, 0, &None);
    assert!(anon.inviter_id.is_none() && anon.inviter_name.is_none());
}

#[test]
fn repo_handles() {
    let db = String::from("pool");
    assert_eq!(GuildSettingsRepo::new(&db).db, "pool");
    assert_eq!(GuildNoticesRepo::new(&db).db, "pool");
}

#[test]
fn first_recent_entry_decides() {
    let e = |t: u64, at: i64, a: AuditAction| AuditEntry { target_id: Some(t), created_at: at, action: a, user_id: 5, reason: None };
    let entries = vec![e(1, 100, AuditAction::Other), e(1, 100, AuditAction::BanAdd)];
    assert_eq!(first_recent_entry_reason(&entries, 1, 110), Some(None));
    assert_eq!(first_recent_entry_reason(&entries, 2, 110), None);
    assert_eq!(first_ban_entry(Some(entries.as_slice()), 1, 110), AuditProgress::Decided(None));
    assert_eq!(first_ban_entry(Some(entries.as_slice()), 1, 200), AuditProgress::FetchKicks);
    assert_eq!(first_ban_entry(None, 1, 110), AuditProgress::Decided(None));
    let kicks = vec![e(1, 100, AuditAction::Kick)];
    assert_eq!(
        first_kick_entry(Some(kicks.as_slice()), 1, 90),
        Some(RemovalReason::Kicked { moderator_id: Some(5), reason: None })
    );
    assert_eq!(
        stay_leave_reason(true, None),
        RemovalReason::Banned { moderator_id: Some(UNKNOWN_MODERATOR_ID), reason: None }
    );
    assert_eq!(stay_leave_reason(false, None), RemovalReason::Left);
}

#[test]
fn stay_join_embed() {
    let mut prev = membership_row("a", Some("b"));
    prev.embed_channel_id = opt_text("10");
    prev.embed_message_id = opt_text("20");
    let j = StayJoinFacts {
        guild_id: 1,
        user_id: 42,
        username: "bob".into(),
        avatar_url: "av".into(),
        created_unix: 0,
        now_unix: 10_000_000,
        history: vec![prev, membership_row("c", None)],
        invite: Some((
            "abc".into(),
            InviteSnapshot { uses: 1, max_uses: 0, inviter_id: None, inviter_name: None },
        )),
    };
    let e = build_stay_join_embed(&j);
    assert_eq!(e.color, 0x2ecc71);
    let fields: Vec<(&str, &str)> = e.fields.iter().map(|f| (f.name.as_str(), f.value.as_str())).collect();
    assert_eq!(
        fields,
        vec![
            ("Username", "bob"),
            ("Account Created", "<t:0:R>"),
            ("Invite", "`abc` by *Unknown*"),
            ("Rejoin", "Join #2"),
            ("Previous", "[Leave embed](https://discord.com/channels/1/10/20)"),
        ]
    );
}

#[test]
fn stay_leave_embed() {
    let mut closed = membership_row("Fri, 02 Jan 1970 00:00:00 +0000", Some("x"));
    closed.invite_code = opt_text("abc");
    closed.inviter_name = opt_text("Inv");
    closed.display_name = opt_text("Disp");
    closed.embed_channel_id = opt_text("10");
    closed.embed_message_id = opt_text("20");
    let l = StayLeaveFacts {
        guild_id: 1,
        user: user(42, "bob", Some("Glob")),
        avatar_url: "av".into(),
        created_unix: 3,
        now_unix: 9,
        history: vec![membership_row("a", Some("b")), closed.clone()],
        reason: RemovalReason::Kicked { moderator_id: Some(8), reason: None },
    };
    assert_eq!(stay_departed_name(&l.history, &l.user), "Disp");
    let e = build_stay_leave_embed(&l);
    assert_eq!(e.title, "Member Kicked");
    assert_eq!(e.description, "**Disp** was **kicked**");
    let fields: Vec<(&str, &str)> = e.fields.iter().map(|f| (f.name.as_str(), f.value.as_str())).collect();
    assert_eq!(
        fields,
        vec![
            ("User ID", "<@42>"),
            ("Username", "bob"),
            ("By", "<@8>"),
            ("Invite", "`abc` by *Inv*"),
            ("Joined", "<t:86400:R>"),
            ("Previous", "[Join Embed](https://discord.com/channels/1/10/20)"),
            ("Total Stays", "2"),
            ("Account Created", "<t:3:R>"),
        ]
    );
    assert_eq!(stay_departed_name(&vec![membership_row("a", None)], &l.user), "Glob");
    assert_eq!(embed_location(&closed), Some((10, 20)));
    assert_eq!(embed_location(&membership_row("a", None)), None);
}

#[test]
fn renaming_earlier_embeds() {
    let orig = PostedEmbed {
        title: None,
        description: opt_text("<@42> joined the server"),
        color: None,
        thumbnail: opt_text("th"),
        fields: vec![
            EmbedField { name: "Username".into(), value: "bob".into(), inline: true },
            EmbedField { name: "Invite".into(), value: "`abc` by <@7>".into(), inline: true },
        ],
        timestamp: opt_text("2024-01-01T00:00:00Z"),
    };
    let mut st = membership_row("a", Some("b"));
    st.invite_code = opt_text("abc");
    st.inviter_id = opt_text("7");
    st.inviter_name = opt_text("Inv");
    let r = rename_join_embed(&orig, "Bobby", 42, &st);
    assert_eq!(r.title.as_deref(), Some("Member joined"));
    assert_eq!(r.color, Some(0x2ecc71));
    assert_eq!(r.description.as_deref(), Some("**Bobby** joined the server"));
    assert_eq!(r.fields.len(), 3);
    assert_eq!((r.fields[0].name.as_str(), r.fields[0].value.as_str()), ("User ID", "<@42>"));
    assert_eq!(r.fields[1].value, "bob");
    assert_eq!(r.fields[2].value, "`abc` by *Inv*");
    assert_eq!(r.thumbnail.as_deref(), Some("th"));
    let bare = membership_row("a", Some("b"));
    assert_eq!(rename_join_embed(&orig, "B", 42, &bare).fields[2].value, "`abc` by <@7>");
    let ban = PostedEmbed {
        title: opt_text("Member Banned"),
        description: None,
        color: Some(5),
        thumbnail: None,
        fields: vec![EmbedField { name: "By".into(), value: "<@9>".into(), inline: true }],
        timestamp: None,
    };
    let r = rename_moderator_embed(&ban, "Moddy");
    assert_eq!(r.fields[0].value, "*Moddy*");
    assert_eq!(r.color, Some(5));
    assert_eq!(r.title.as_deref(), Some("Member Banned"));
    assert!(r.description.is_none());
    let r = rename_moderator_embed(&PostedEmbed { color: None, ..ban }, "M");
    assert_eq!(r.color, Some(0xe74c3c));
}
