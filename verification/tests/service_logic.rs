use observer::invites::InviteSnapshot;
use observer::services::audit_log::{
    check_ban_entries, check_kick_entries, classify_stale_removals, detect_leave_reason, scan_removal_entries,
    AuditAction, AuditEntry, AuditProgress, RemovalReason,
};
use observer::services::embeds::{
    build_join_embed, build_leave_embed, departure_message_type, join_mentions, leave_mentions, message_link,
    EmbedField, JoinFacts, LeaveFacts,
};
use observer::services::membership::{find_classification, names_changed, stale_departure};
use observer::services::mentions::{
    edit_delay_ms, edit_departure_embed, edit_join_embed, mention_edit_target, mention_pattern, name_replacement,
    MentionEdit,
};
use observer::services::messages::{BotMessageRow, MentionRole, MessageType, RawBotMessageRow};
use observer::services::notices::{
    eligible_notice_indices, is_notice_eligible, is_notice_eligible_lenient, notice_channel, notice_embed,
    notice_eligible_at, NoticeContext, NoticeOutcome, NoticeRow, NoticeRun,
};
use observer::services::search::{
    best_display_name, best_user_ref, departed_name, fts_error_falls_back, fts_label, search_plan, SearchPlan,
};
use observer::services::settings::{
    channel_value, check_rows_affected, is_allowed_column, notices_flag, parse_channel, set_column_query,
    settings_from_row, GuildSettings, LogChannel, SettingsError,
};
use observer::services::stats::{DepartureType, StayRow};

fn some_text(x: &str) -> Option<String> {
    Some(x.to_string())
}

fn entry(target: Option<u64>, at: i64, action: AuditAction, by: u64, reason: Option<&str>) -> AuditEntry {
    AuditEntry { target_id: target, created_at: at, action, user_id: by, reason: reason.map(|r| r.to_string()) }
}

#[test]
fn settings_rows() {
    assert_eq!(GuildSettings::default(), GuildSettings { join_log: None, leave_log: None, mod_log: None, notices_enabled: true });
    assert_eq!(settings_from_row(&None), GuildSettings::default());
    let row = (some_text("123"), some_text("oops"), None, 0);
    assert_eq!(
        settings_from_row(&Some(row)),
        GuildSettings { join_log: Some(123), leave_log: None, mod_log: None, notices_enabled: false }
    );
    assert_eq!(parse_channel(&some_text("+7")), Some(7));
    assert_eq!(parse_channel(&None), None);
}

#[test]
fn settings_columns() {
    assert_eq!(LogChannel::Join.column(), "join_log_channel_id");
    assert_eq!(LogChannel::Leave.column(), "leave_log_channel_id");
    assert_eq!(LogChannel::Moderation.column(), "mod_log_channel_id");
    assert!(is_allowed_column("mod_log_channel_id"));
    assert!(!is_allowed_column("guild_id"));
    assert_eq!(
        set_column_query("join_log_channel_id", true).unwrap(),
        "UPDATE guild_settings SET join_log_channel_id = ? WHERE guild_id = ?"
    );
    assert_eq!(
        set_column_query("leave_log_channel_id", false).unwrap(),
        "UPDATE guild_settings SET leave_log_channel_id = NULL WHERE guild_id = ?"
    );
    let err = set_column_query("notices_enabled; DROP", true).unwrap_err();
    assert_eq!(err, SettingsError::InvalidColumn { column: "notices_enabled; DROP".to_string() });
    assert_eq!(err.message(), "Invalid column: notices_enabled; DROP");
    assert_eq!(check_rows_affected(5, 1), Ok(()));
    let e = check_rows_affected(5, 0).unwrap_err();
    assert_eq!(e.message(), "No settings row for guild 5");
    assert_eq!(channel_value(990), "990");
    assert_eq!(notices_flag(true), 1);
    assert_eq!(notices_flag(false), 0);
}

fn notice(key: &str, current_only: i64, created_at: &str) -> NoticeRow {
    NoticeRow {
        id: 1,
        key: key.to_string(),
        title: "T".to_string(),
        body: "B".to_string(),
        color: 0x1_0000_00ff,
        current_only,
        created_at: created_at.to_string(),
    }
}

#[test]
fn notice_targets_and_eligibility() {
    let base = GuildSettings { join_log: Some(1), leave_log: Some(2), mod_log: None, notices_enabled: true };
    assert_eq!(notice_channel(&base), Some(1));
    assert_eq!(notice_channel(&GuildSettings { mod_log: Some(3), ..base }), Some(3));
    assert_eq!(notice_channel(&GuildSettings { join_log: None, ..base }), Some(2));
    assert_eq!(notice_channel(&GuildSettings { notices_enabled: false, ..base }), None);
    let old = notice("a", 1, "Mon, 01 Jan 2024 00:00:00 +0000");
    let new = notice("b", 1, "Wed, 01 Jan 2025 00:00:00 +0000");
    let all = notice("c", 0, "2000-01-01");
    let fs = some_text("Sat, 01 Jun 2024 00:00:00 +0000");
    assert!(!is_notice_eligible(&old, &fs));
    assert!(is_notice_eligible(&new, &fs));
    assert!(is_notice_eligible(&all, &None));
    assert!(!is_notice_eligible(&new, &None));
    assert!(is_notice_eligible_lenient(&new, &None));
    assert!(!is_notice_eligible_lenient(&old, &fs));
    assert_eq!(eligible_notice_indices(&[old.clone(), new.clone(), all.clone()], &fs), vec![1, 2]);
    // Compared as times, not as text: Friday the 2nd is after Thursday the 1st.
    let friday = notice("d", 1, "Fri, 02 Jan 1970 00:00:00 +0000");
    assert!(is_notice_eligible(&friday, &some_text("Thu, 01 Jan 1970 00:00:00 +0000")));
    assert!(!is_notice_eligible(&notice("e", 1, "Thu, 01 Jan 1970 00:00:00 +0000"), &some_text("Fri, 02 Jan 1970 00:00:00 +0000")));
    // Same instant in two offsets counts as not older.
    assert!(is_notice_eligible(&notice("f", 1, "Thu, 01 Jan 1970 02:00:00 +0200"), &some_text("Thu, 01 Jan 1970 00:00:00 +0000")));
    // Texts that do not parse make a current-only notice ineligible.
    assert!(!is_notice_eligible(&notice("g", 1, "2025-01-01"), &fs));
    assert!(!is_notice_eligible(&new, &some_text("not a date")));
    assert!(!is_notice_eligible_lenient(&new, &some_text("not a date")));
    assert!(notice_eligible_at(1, Some(86400), Some(0)));
    assert!(notice_eligible_at(1, Some(5), Some(5)));
    assert!(!notice_eligible_at(1, Some(4), Some(5)));
    assert!(!notice_eligible_at(1, None, Some(5)));
    assert!(!notice_eligible_at(1, Some(5), None));
    assert!(notice_eligible_at(0, None, None));
    let e = notice_embed(&new);
    assert_eq!(e.color, 0xff);
    assert_eq!((e.title.as_str(), e.description.as_str()), ("T", "B"));
}

#[test]
fn notice_run_counts_deliveries() {
    let notices = vec![notice("a", 0, "x"), notice("b", 1, "2020"), notice("c", 0, "y")];
    let ctx = NoticeContext {
        guild_id: 1,
        settings: GuildSettings { join_log: None, leave_log: Some(9), mod_log: None, notices_enabled: true },
        first_seen_at: some_text("2021"),
    };
    let mut run = NoticeRun::start(&ctx, &notices);
    assert_eq!(run.channel, Some(9));
    assert_eq!(run.current(), Some(0));
    assert!(run.advance(NoticeOutcome::Delivered));
    assert_eq!(run.current(), Some(2));
    assert!(!run.advance(NoticeOutcome::Failed));
    assert_eq!(run.current(), None);
    assert_eq!(run.sent, 1);
    let off = NoticeContext { settings: GuildSettings { notices_enabled: false, ..ctx.settings }, ..ctx };
    let run = NoticeRun::start(&off, &notices);
    assert_eq!(run.current(), None);
    assert_eq!(run.channel, None);
}

#[test]
fn names_and_references() {
    let names = (some_text("acc"), some_text(""), some_text("nick"));
    assert_eq!(best_display_name(&Some(names.clone())).as_deref(), Some("nick"));
    assert_eq!(best_display_name(&Some((some_text("acc"), some_text("disp"), some_text("")))).as_deref(), Some("disp"));
    assert_eq!(best_display_name(&Some((None, None, None))), None);
    assert_eq!(best_display_name(&None), None);
    assert_eq!(best_user_ref("5", Some(true), &some_text("x")), "<@5>");
    assert_eq!(best_user_ref("5", Some(false), &some_text("Bob")), "*Bob*");
    assert_eq!(best_user_ref("5", None, &None), "5");
    assert_eq!(departed_name(&None, &some_text("Glob"), "user"), "Glob");
    assert_eq!(departed_name(&some_text("Best"), &some_text("Glob"), "user"), "Best");
    assert_eq!(departed_name(&None, &None, "user"), "user");
    assert_eq!(fts_label("9", &names), ("nick".to_string(), "nick".to_string()));
    assert_eq!(fts_label("9", &(None, None, None)), ("User 9".to_string(), "user 9".to_string()));
    assert_eq!(fts_label("9", &(some_text("MiXed"), None, None)).1, "mixed");
}

#[test]
fn search_plans() {
    assert_eq!(search_plan("   "), SearchPlan::Recent);
    assert_eq!(search_plan(" *:() "), SearchPlan::Recent);
    assert_eq!(
        search_plan("  Bo*b_1 "),
        SearchPlan::Text {
            match_expr: "label_norm:bob_1* OR account_username:bob_1* OR server_nickname:bob_1*".to_string(),
            like: "%Bo*b_1%".to_string(),
        }
    );
    assert!(fts_error_falls_back("error returned: no such module: fts5"));
    assert!(fts_error_falls_back("fts5: syntax error / malformed MATCH expression"));
    assert!(!fts_error_falls_back("database is locked"));
}

#[test]
fn membership_decisions() {
    let cur = Some((some_text("acc"), None, some_text("nick")));
    assert!(!names_changed(&cur, "acc", &None, &some_text("nick")));
    assert!(names_changed(&cur, "acc2", &None, &some_text("nick")));
    assert!(names_changed(&cur, "acc", &some_text("d"), &some_text("nick")));
    assert!(names_changed(&None, "acc", &None, &None));
    assert!(names_changed(&Some((None, None, None)), "acc", &None, &None));
    let reasons = vec![("1".to_string(), (true, false)), ("2".to_string(), (false, true))];
    assert_eq!(find_classification(&reasons, "2"), Some((false, true)));
    assert_eq!(stale_departure(&reasons, "1"), DepartureType::Ban);
    assert_eq!(stale_departure(&reasons, "2"), DepartureType::Kick);
    assert_eq!(stale_departure(&reasons, "3"), DepartureType::Leave);
}

#[test]
fn mention_edits() {
    let pat = mention_pattern("42");
    let rep = name_replacement("Ann");
    assert_eq!(pat, "<@42>");
    assert_eq!(rep, "*Ann*");
    let fields = vec![
        EmbedField { name: "Invite".into(), value: "`c` by <@42>".into(), inline: true },
        EmbedField { name: "By".into(), value: "<@42>".into(), inline: true },
        EmbedField { name: "Username".into(), value: "<@42>".into(), inline: false },
    ];
    let (d, f) = edit_join_embed(&some_text("<@42> joined the server"), &fields, &pat, &rep);
    assert_eq!(d.as_deref(), Some("*Ann* joined the server"));
    assert_eq!(f[0].value, "`c` by *Ann*");
    assert_eq!(f[1].value, "<@42>");
    assert_eq!(f[2].value, "<@42>");
    let f = edit_departure_embed(&fields, &pat, &rep);
    assert_eq!(f[0].value, "`c` by *Ann*");
    assert_eq!(f[1].value, "*Ann*");
    assert_eq!(f[2].value, "<@42>");
    assert!(!f[2].inline && f[1].inline);
    assert_eq!(edit_delay_ms(0), 300);
    assert_eq!(edit_delay_ms(4), 300);
    assert_eq!(edit_delay_ms(5), 800);
    assert_eq!(edit_delay_ms(14), 800);
    assert_eq!(edit_delay_ms(15), 2000);
    let row = BotMessageRow {
        id: 1,
        channel_id: "10".into(),
        message_id: "20".into(),
        message_type: MessageType::Join,
        stay_id: None,
        previous_message_id: None,
    };
    assert_eq!(mention_edit_target(&row), Some(MentionEdit { channel_id: 10, message_id: 20, join_embed: true }));
    let bad = BotMessageRow { message_id: "x".into(), message_type: MessageType::Ban, ..row };
    assert_eq!(mention_edit_target(&bad), None);
}

#[test]
fn message_kinds() {
    assert_eq!(MessageType::from_db("kick"), MessageType::Kick);
    assert_eq!(MessageType::from_db("weird"), MessageType::Leave);
    assert_eq!(MessageType::Ban.as_str(), "ban");
    assert!(MessageType::Leave.is_departure());
    assert!(!MessageType::Join.is_departure());
    assert_eq!(MentionRole::Inviter.as_str(), "inviter");
    let raw = RawBotMessageRow {
        id: 3,
        channel_id: "1".into(),
        message_id: "2".into(),
        message_type: "join".into(),
        stay_id: Some(4),
        previous_message_id: None,
    };
    let row: BotMessageRow = raw.into();
    assert_eq!(row.message_type, MessageType::Join);
    assert_eq!(row.stay_id, Some(4));
    assert_eq!(DepartureType::from_db("ban"), DepartureType::Ban);
    assert_eq!(DepartureType::Kick.as_str(), "kick");
    assert_eq!(DepartureType::Leave.label(), "left");
}

#[test]
fn audit_log_scans() {
    let entries = vec![
        entry(Some(5), 100, AuditAction::BanAdd, 9, Some("spam")),
        entry(Some(7), 1000, AuditAction::Other, 9, None),
        entry(Some(7), 1000, AuditAction::Kick, 8, None),
    ];
    assert_eq!(
        scan_removal_entries(&entries, 7, 1010),
        Some(RemovalReason::Kicked { moderator_id: Some(8), reason: None })
    );
    assert_eq!(scan_removal_entries(&entries, 5, 1010), None);
    assert_eq!(
        scan_removal_entries(&entries, 5, 125),
        Some(RemovalReason::Banned { moderator_id: Some(9), reason: some_text("spam") })
    );
    assert_eq!(check_ban_entries(None, 5, 125), AuditProgress::Decided(None));
    assert_eq!(check_ban_entries(Some(&entries[..0]), 5, 125), AuditProgress::FetchKicks);
    assert_eq!(check_kick_entries(Some(entries.as_slice()), 7, 1000), Some(RemovalReason::Kicked { moderator_id: Some(8), reason: None }));
    assert_eq!(detect_leave_reason(true, None), RemovalReason::Banned { moderator_id: None, reason: None });
    assert_eq!(detect_leave_reason(false, None), RemovalReason::Left);
    let k = RemovalReason::Kicked { moderator_id: Some(1), reason: None };
    assert_eq!(detect_leave_reason(true, Some(k.clone())), k);
}

#[test]
fn stale_classification() {
    let bans = vec![entry(Some(1), 100, AuditAction::BanAdd, 9, None), entry(Some(3), 100, AuditAction::BanAdd, 9, None)];
    let kicks = vec![entry(Some(1), 100, AuditAction::Kick, 9, None), entry(Some(2), 100, AuditAction::Kick, 9, None), entry(Some(4), 0, AuditAction::Kick, 9, None)];
    let stale = vec!["1".to_string(), "2".to_string(), "4".to_string(), "5".to_string()];
    let r = classify_stale_removals(Some(bans.as_slice()), Some(kicks.as_slice()), &stale, 21700);
    assert_eq!(r, vec![("1".to_string(), (true, false)), ("2".to_string(), (false, true))]);
    let r = classify_stale_removals(None, Some(kicks.as_slice()), &stale, 100);
    assert_eq!(
        r,
        vec![("1".to_string(), (false, true)), ("2".to_string(), (false, true)), ("4".to_string(), (false, true))]
    );
}

fn snapshot_with(inviter: Option<&str>) -> InviteSnapshot {
    InviteSnapshot { uses: 1, max_uses: 0, inviter_id: inviter.map(|x| x.to_string()), inviter_name: some_text("Inv") }
}

#[test]
fn join_embed_contents() {
    let j = JoinFacts {
        guild_id: 1,
        user_id: 42,
        username: "bob".into(),
        avatar_url: "av".into(),
        created_unix: 1_000_000,
        now_unix: 1_000_000 + 3 * 86400,
        did_rejoin: false,
        stay_count: 3,
        previous_departure: Some(("10".into(), "20".into())),
        invite: Some(("abc".into(), snapshot_with(Some("7")))),
    };
    let e = build_join_embed(&j);
    assert_eq!(e.color, 0xe67e22);
    assert_eq!(e.title, "Member joined");
    assert_eq!(e.description, "<@42> joined the server");
    let fields: Vec<(&str, &str, bool)> = e.fields.iter().map(|f| (f.name.as_str(), f.value.as_str(), f.inline)).collect();
    assert_eq!(
        fields,
        vec![
            ("Username", "bob", true),
            ("Account Created", "<t:1000000:R>", true),
            ("Invite", "`abc` by <@7>", true),
            ("Stays", "Join #3", true),
            ("Previous", "[Leave embed](https://discord.com/channels/1/10/20)", true),
            ("⚠ New Account", "Created less than 7 days ago", false),
        ]
    );
    let old = JoinFacts { created_unix: 0, stay_count: 1, did_rejoin: true, previous_departure: None, invite: Some(("abc".into(), snapshot_with(None))), ..j };
    let e = build_join_embed(&old);
    assert_eq!(e.color, 0x3498db);
    assert_eq!(e.fields[2].value, "`abc`");
    assert_eq!(e.fields[3].value, "Returning member");
    assert_eq!(e.fields.len(), 4);
    let first = JoinFacts { did_rejoin: false, invite: None, ..old };
    let e = build_join_embed(&first);
    assert_eq!(e.color, 0x2ecc71);
    assert_eq!(e.fields[2].value, "Unknown");
    assert_eq!(e.fields.len(), 3);
    assert_eq!(join_mentions("42", &Some(("c".into(), snapshot_with(Some("7"))))), vec![("42".to_string(), MentionRole::Member), ("7".to_string(), MentionRole::Inviter)]);
    assert_eq!(message_link(1, "2", "3"), "https://discord.com/channels/1/2/3");
}

fn stay_row(joined: &str, left: Option<&str>, code: Option<&str>) -> StayRow {
    StayRow {
        id: 1,
        joined_at: joined.into(),
        left_at: left.map(|x| x.to_string()),
        departure_type: None,
        invite_code: code.map(|x| x.to_string()),
        inviter_id: None,
        moderator_id: None,
        member_flags: 0,
    }
}

#[test]
fn leave_embed_contents() {
    let l = LeaveFacts {
        guild_id: 1,
        user_id: 42,
        username: "bob".into(),
        avatar_url: "av".into(),
        created_unix: 5,
        now_unix: 99,
        best_name: "Bobby".into(),
        history: vec![
            stay_row("Thu, 01 Jan 1970 00:00:00 +0000", Some("x"), Some("old")),
            stay_row("Fri, 02 Jan 1970 00:00:00 +0000", Some("y"), Some("abc")),
        ],
        inviter_ref: some_text("*Inv*"),
        join_embed: Some(("10".into(), "20".into())),
        reason: RemovalReason::Banned { moderator_id: Some(9), reason: some_text("spam") },
    };
    let e = build_leave_embed(&l);
    assert_eq!(e.color, 0xe74c3c);
    assert_eq!(e.title, "Member Banned");
    assert_eq!(e.description, "**Bobby** (<@42>) was **banned**");
    let fields: Vec<(&str, &str)> = e.fields.iter().map(|f| (f.name.as_str(), f.value.as_str())).collect();
    assert_eq!(
        fields,
        vec![
            ("Username", "bob"),
            ("Account Created", "<t:5:R>"),
            ("Invite", "`abc` by *Inv*"),
            ("By", "<@9>"),
            ("Reason", "spam"),
            ("Joined", "<t:86400:R>"),
            ("Stays", "2 total"),
            ("Previous", "[Join embed](https://discord.com/channels/1/10/20)"),
        ]
    );
    let left = LeaveFacts { reason: RemovalReason::Left, history: vec![stay_row("bad", None, None)], join_embed: None, ..l };
    let e = build_leave_embed(&left);
    assert_eq!(e.color, 0x95a5a6);
    assert_eq!(e.title, "Member Left");
    assert_eq!(e.fields.len(), 2);
    assert_eq!(departure_message_type(&RemovalReason::Left), MessageType::Leave);
    assert_eq!(leave_mentions("42", &RemovalReason::Kicked { moderator_id: Some(3), reason: None }), vec![("42".to_string(), MentionRole::Member), ("3".to_string(), MentionRole::Moderator)]);
    assert_eq!(leave_mentions("42", &RemovalReason::Banned { moderator_id: None, reason: None }).len(), 1);
}
