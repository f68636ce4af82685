use observer::commands::{chunk_lines, MembershipRow};
use observer::events::stay_embeds::{build_stay_leave_embed_at, StayLeaveFacts};
use observer::events::UserInfo;
use observer::invites::{InviteMap, InviteSnapshot, DELETED_INVITE_MAX_AGE_NS, DELETION_WINDOW_NS};
use observer::services::audit_log::{check_ban_entries, detect_leave_reason, AuditProgress, RemovalReason};
use observer::services::embeds::{build_leave_embed_at, LeaveFacts};
use observer::services::membership::stale_departure;
use observer::services::audit_log::{classify_stale_removals, AuditAction, AuditEntry};
use observer::services::notices::{NoticeContext, NoticeOutcome, NoticeRow, NoticeRun};
use observer::services::mentions::{edit_departure_embed, mention_pattern, name_replacement};
use observer::services::messages::MessageType;
use observer::services::embeds::EmbedField;
use observer::services::search::{search_plan_for, SearchPlan};
use observer::services::settings::{channel_value, notices_flag, settings_from_row, GuildSettings};
use observer::services::stats::DepartureType;
use observer::state::{RecentBans, RECENT_BAN_WINDOW_SECS};
use observer::text::{contains, parse_u64, replace_all, trim, u64_to_string};

#[test]
fn settings_read_back_what_was_written() {
    let s = GuildSettings { join_log: Some(1234567890123), leave_log: None, mod_log: Some(u64::MAX), notices_enabled: false };
    let row = (
        s.join_log.map(channel_value),
        s.leave_log.map(channel_value),
        s.mod_log.map(channel_value),
        notices_flag(s.notices_enabled),
    );
    assert_eq!(settings_from_row(&Some(row)), s);
    for n in [0u64, 9, 10, 99, 100, 4294967296, u64::MAX] {
        assert_eq!(parse_u64(&u64_to_string(n)), Some(n));
    }
}

#[test]
fn ban_event_then_removal_is_a_ban() {
    let mut bans = RecentBans::new();
    bans.mark_recent_ban(77, 1_000);
    let recent = bans.was_recently_banned(77, RECENT_BAN_WINDOW_SECS, 1_000 + RECENT_BAN_WINDOW_SECS);
    assert!(recent);
    let audit = match check_ban_entries(None, 77, 1_010) {
        AuditProgress::Decided(r) => r,
        AuditProgress::FetchKicks => None,
    };
    assert_eq!(detect_leave_reason(recent, audit), RemovalReason::Banned { moderator_id: None, reason: None });
}

#[test]
fn deleted_invite_found_until_pruned() {
    let mut m = InviteMap::new();
    m.on_invite_create("solo".into(), InviteSnapshot { uses: 0, max_uses: 1, inviter_id: None, inviter_name: None }, 0);
    m.on_invite_delete("solo", 10);
    m.prune_deleted_invites(DELETED_INVITE_MAX_AGE_NS, 10 + DELETION_WINDOW_NS);
    assert_eq!(m.recently_deleted_invite(10 + DELETION_WINDOW_NS, DELETION_WINDOW_NS).unwrap().0, "solo");
}

#[test]
fn chunks_rejoin_to_input() {
    let lines: Vec<String> = vec!["alpha".into(), "beta".into(), "gamma delta".into(), "e".into()];
    for max in [1usize, 5, 6, 11, 12, 100] {
        let chunks = chunk_lines(&lines, max);
        for c in &chunks {
            assert!(!c.is_empty() && c.chars().count() <= max, "max {max}");
        }
        assert_eq!(chunks.join("").replace('\n', ""), lines.concat(), "max {max}");
        if max >= 11 {
            assert_eq!(chunks.join("\n"), lines.join("\n"), "max {max}");
        }
    }
}

#[test]
fn trimmed_text_has_no_edges() {
    for s in ["  a b  ", "\u{2028}x\u{3000}", "z", "\t\n"] {
        let t = trim(s);
        assert_eq!(t, s.trim());
        if let Some(c) = t.chars().next() {
            assert!(!c.is_whitespace());
        }
        if let Some(c) = t.chars().last() {
            assert!(!c.is_whitespace());
        }
    }
}

#[test]
fn departed_mentions_are_gone() {
    let pat = mention_pattern("123");
    let rep = name_replacement("Neo <@12>");
    for s in ["<@123>", "x<@123><@123>y", "<@<@123>123>", "none"] {
        let out = replace_all(s, &pat, &rep);
        assert!(!contains(&out, &pat), "{s:?} -> {out:?}");
    }
    let fields = vec![EmbedField { name: "By".into(), value: "<@123> and <@123>".into(), inline: true }];
    let edited = edit_departure_embed(&fields, &pat, &rep);
    assert!(!edited[0].value.contains("<@123>"));
}

#[test]
fn stale_departures_follow_the_audit_log() {
    let e = |t: u64, a: AuditAction| AuditEntry { target_id: Some(t), created_at: 0, action: a, user_id: 1, reason: None };
    let bans = vec![e(5, AuditAction::BanAdd)];
    let kicks = vec![e(5, AuditAction::Kick), e(6, AuditAction::Kick)];
    let stale = vec!["5".to_string(), "6".to_string(), "7".to_string()];
    let reasons = classify_stale_removals(Some(bans.as_slice()), Some(kicks.as_slice()), &stale, 10);
    assert_eq!(stale_departure(&reasons, "5"), DepartureType::Ban);
    assert_eq!(stale_departure(&reasons, "6"), DepartureType::Kick);
    assert_eq!(stale_departure(&reasons, "7"), DepartureType::Leave);
}

#[test]
fn search_plan_from_parts() {
    assert_eq!(search_plan_for("", "anything"), SearchPlan::Recent);
    assert_eq!(search_plan_for("X", "*"), SearchPlan::Recent);
    assert_eq!(
        search_plan_for("Ab", "ab"),
        SearchPlan::Text {
            match_expr: "label_norm:ab* OR account_username:ab* OR server_nickname:ab*".into(),
            like: "%Ab%".into()
        }
    );
}

#[test]
fn leave_embeds_with_parsed_join_time() {
    let l = LeaveFacts {
        guild_id: 1,
        user_id: 2,
        username: "u".into(),
        avatar_url: "a".into(),
        created_unix: 0,
        now_unix: 0,
        best_name: "U".into(),
        history: vec![observer::services::stats::StayRow {
            id: 1,
            joined_at: "whenever".into(),
            left_at: Some("x".into()),
            departure_type: None,
            invite_code: None,
            inviter_id: None,
            moderator_id: None,
            member_flags: 0,
        }],
        inviter_ref: None,
        join_embed: None,
        reason: RemovalReason::Left,
    };
    let with = build_leave_embed_at(&l, Some(42));
    assert_eq!(with.fields[3].name, "Joined");
    assert_eq!(with.fields[3].value, "<t:42:R>");
    let without = build_leave_embed_at(&l, None);
    assert_eq!(without.fields.len(), 3);
    let row = MembershipRow {
        joined_at: "whenever".into(),
        left_at: Some("x".into()),
        banned: false,
        kicked: false,
        invite_code: None,
        inviter_id: None,
        inviter_name: None,
        display_name: None,
        server_nickname: Some("Nick".into()),
        embed_channel_id: None,
        embed_message_id: None,
    };
    let s = StayLeaveFacts {
        guild_id: 1,
        user: UserInfo { id: 2, name: "u".into(), global_name: None },
        avatar_url: "a".into(),
        created_unix: 0,
        now_unix: 0,
        history: vec![row],
        reason: RemovalReason::Left,
    };
    let e = build_stay_leave_embed_at(&s, Some(7));
    assert_eq!(e.description, "**Nick** left the server");
    assert_eq!(e.fields[3].value, "<t:7:R>");
}

#[test]
fn stored_kinds_read_back() {
    for t in [MessageType::Join, MessageType::Leave, MessageType::Kick, MessageType::Ban] {
        assert_eq!(MessageType::from_db(t.as_str()), t);
    }
    for d in [DepartureType::Leave, DepartureType::Kick, DepartureType::Ban] {
        assert_eq!(DepartureType::from_db(d.as_str()), d);
    }
}

#[test]
fn second_notice_run_sends_nothing() {
    let notice = |key: &str, current_only: i64| NoticeRow {
        id: 1,
        key: key.to_string(),
        title: "T".to_string(),
        body: "B".to_string(),
        color: 1,
        current_only,
        created_at: "Fri, 02 Jan 1970 00:00:00 +0000".to_string(),
    };
    let notices = vec![notice("a", 0), notice("b", 1), notice("c", 0)];
    let ctx = NoticeContext {
        guild_id: 7,
        settings: GuildSettings { join_log: Some(3), leave_log: None, mod_log: None, notices_enabled: true },
        first_seen_at: Some("Thu, 01 Jan 1970 00:00:00 +0000".to_string()),
    };
    let mut had: Vec<String> = Vec::new();
    let mut delivered_per_run = Vec::new();
    for _ in 0..2 {
        let mut run = NoticeRun::start(&ctx, &notices);
        while let Some(k) = run.current() {
            let key = &notices[k].key;
            let outcome = if had.contains(key) { NoticeOutcome::AlreadySent } else { NoticeOutcome::Delivered };
            if run.advance(outcome) {
                had.push(key.clone());
            }
        }
        delivered_per_run.push(run.sent);
    }
    assert_eq!(delivered_per_run, vec![3, 0]);
    assert_eq!(had, vec!["a".to_string(), "b".to_string(), "c".to_string()]);
}
