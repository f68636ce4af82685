use observer::commands::botstats::{progress_bar, tally_features};
use observer::commands::member::{
    autocomplete_choices, empty_history_embed, history_title, user_tag, COLOR_INFO, NO_MEMBER_HISTORY,
};
use observer::commands::notice::{
    duplicate_notice_message, listing_embed, notice_create_options, notice_created_message,
    notice_deleted_message, notice_list_line, notice_send_summary, DEFAULT_NOTICE_COLOR,
};
use observer::commands::settings::{
    feature_embed, log_channel_update, notice_history_line, notices_toggled_message, settings_overview,
};
use observer::commands::{
    chunk_lines, chunked_embeds, format_member_label, format_stay_lines, join_with_newlines, rfc2822_to_unix,
    stay_history_rows, time_or_raw_text, MembershipRow, MAX_EMBED_DESCRIPTION_CHARS,
};
use observer::permissions::check_features;
use observer::services::embeds::EmbedField;
use observer::services::notices::{NoticeRow, SentNotice};
use observer::services::search::MemberRow;
use observer::services::settings::{GuildSettings, LogChannel};
use observer::services::stats::{DepartureType, StayRow};

fn row(joined: &str, left: Option<&str>, banned: bool, kicked: bool, code: Option<&str>) -> MembershipRow {
    MembershipRow {
        joined_at: joined.to_string(),
        left_at: left.map(|s| s.to_string()),
        banned,
        kicked,
        invite_code: code.map(|s| s.to_string()),
        inviter_id: None,
        inviter_name: None,
        display_name: None,
        server_nickname: None,
        embed_channel_id: None,
        embed_message_id: None,
    }
}

#[test]
fn member_label_priorities() {
    let some = |s: &str| Some(s.to_string());
    assert_eq!(format_member_label("1", &some("acc"), &some("Disp"), &some("Nick")), "Nick (aka acc)");
    assert_eq!(format_member_label("1", &some("acc"), &some("Disp"), &some("")), "Disp (aka acc)");
    assert_eq!(format_member_label("1", &some("acc"), &None, &None), "acc");
    assert_eq!(format_member_label("1", &some("acc"), &some(""), &None), "acc");
    assert_eq!(format_member_label("1", &None, &some("Disp"), &None), "Disp");
    assert_eq!(format_member_label("42", &None, &None, &None), "42");
    assert_eq!(format_member_label("42", &None, &some(""), &some("")), "42");
}

#[test]
fn rfc2822_parsing() {
    assert_eq!(rfc2822_to_unix("Thu, 01 Jan 1970 00:00:00 +0000"), Some(0));
    assert_eq!(rfc2822_to_unix("Tue, 1 Jul 2003 10:52:37 +0200"), Some(1057049557));
    assert_eq!(rfc2822_to_unix("yesterday"), None);
    assert_eq!(time_or_raw_text(Some(5), "x"), "<t:5:R>");
    assert_eq!(time_or_raw_text(None, "raw"), "raw");
}

#[test]
fn stay_lines_format() {
    let rows = vec![
        row("Thu, 01 Jan 1970 00:00:00 +0000", Some("Fri, 02 Jan 1970 00:00:00 +0000"), false, false, Some("abc")),
        row("Sat, 03 Jan 1970 00:00:00 +0000", Some("bad time"), true, false, None),
        row("garbage", Some("Sun, 04 Jan 1970 00:00:00 +0000"), false, true, None),
        row("Mon, 05 Jan 1970 00:00:00 +0000", None, false, false, Some("zz")),
    ];
    let lines = format_stay_lines(&rows);
    assert_eq!(
        lines,
        vec![
            "**Stay #1:** <t:0:R> → <t:86400:R> (left) · invite `abc`".to_string(),
            "**Stay #2:** <t:172800:R> → bad time (banned)".to_string(),
            "**Stay #3:** garbage → <t:259200:R> (kicked)".to_string(),
            "**Stay #4:** <t:345600:R> → now · invite `zz`".to_string(),
        ]
    );
}

#[test]
fn stay_rows_from_recorded_stays() {
    let st = StayRow {
        id: 1,
        joined_at: "j".into(),
        left_at: Some("l".into()),
        departure_type: Some(DepartureType::Kick),
        invite_code: Some("c".into()),
        inviter_id: Some("9".into()),
        moderator_id: None,
        member_flags: 0,
    };
    let rows = stay_history_rows(&[st]);
    assert_eq!(rows.len(), 1);
    assert!(rows[0].kicked && !rows[0].banned);
    assert_eq!(rows[0].invite_code.as_deref(), Some("c"));
    assert_eq!(format_stay_lines(&rows), vec!["**Stay #1:** j → l (kicked) · invite `c`".to_string()]);
}

#[test]
fn chunking_packs_lines() {
    let lines: Vec<String> = vec!["aaaa".into(), "bbbb".into(), "cc".into(), "dddddddddddd".into()];
    assert_eq!(
        chunk_lines(&lines, 10),
        vec!["aaaa\nbbbb".to_string(), "cc".to_string(), "dddddddddd".to_string(), "dd".to_string()]
    );
    assert_eq!(chunk_lines(&["abcde".to_string()], 4), vec!["abcd".to_string(), "e".to_string()]);
    assert_eq!(
        chunk_lines(&["ab".to_string(), "cdefghij".to_string()], 3),
        vec!["ab".to_string(), "cde".to_string(), "fgh".to_string(), "ij".to_string()]
    );
    assert!(chunk_lines(&[], 10).is_empty());
    assert_eq!(chunk_lines(&["".to_string(), "a".to_string()], 10), vec!["a".to_string()]);
    let long: Vec<String> = (0..1000).map(|i| format!("line number {i}")).collect();
    let chunks = chunk_lines(&long, MAX_EMBED_DESCRIPTION_CHARS);
    assert!(chunks.iter().all(|c| c.chars().count() <= MAX_EMBED_DESCRIPTION_CHARS));
    assert_eq!(chunks.join("\n"), long.join("\n"));
}

#[test]
fn joining_lines() {
    assert_eq!(join_with_newlines(&["a".into(), "b".into(), "".into()]), "a\nb\n");
    assert_eq!(join_with_newlines(&[]), "");
}

#[test]
fn chunked_report_embeds() {
    let lines: Vec<String> = vec!["x".repeat(3000), "y".repeat(3000)];
    let first = vec![EmbedField { name: "Server stays".into(), value: "2".into(), inline: true }];
    let embeds = chunked_embeds(COLOR_INFO, "History for bob", &Some("url".into()), &first, &lines);
    assert_eq!(embeds.len(), 2);
    assert_eq!(embeds[0].title, "History for bob");
    assert_eq!(embeds[0].thumbnail.as_deref(), Some("url"));
    assert_eq!(embeds[0].fields.len(), 1);
    assert_eq!(embeds[0].description, "x".repeat(3000));
    assert_eq!(embeds[1].title, "History for bob — cont. #1");
    assert!(embeds[1].thumbnail.is_none() && embeds[1].fields.is_empty());
    assert_eq!(embeds[1].color, 0x3498db);
}

#[test]
fn user_tags_and_titles() {
    assert_eq!(user_tag("bob", None), "bob");
    assert_eq!(user_tag("bob", Some(7)), "bob#0007");
    assert_eq!(user_tag("bob", Some(1234)), "bob#1234");
    assert_eq!(user_tag("bob", Some(65535)), "bob#65535");
    assert_eq!(history_title("bob#0007"), "History for bob#0007");
    let e = empty_history_embed("History for 5", &None, NO_MEMBER_HISTORY);
    assert_eq!(e.description, "No membership history found for this user.");
    assert!(e.thumbnail.is_none());
}

#[test]
fn autocomplete_labels() {
    let rows = vec![MemberRow {
        user_id: "11".into(),
        account_username: Some("acc".into()),
        display_name: None,
        server_nickname: Some("nick".into()),
        first_seen_at: "x".into(),
        is_present: true,
    }];
    assert_eq!(autocomplete_choices(&rows), vec![("nick (aka acc)".to_string(), "11".to_string())]);
}

#[test]
fn progress_bars() {
    assert_eq!(progress_bar(0, 0), "░░░░░░░░░░");
    assert_eq!(progress_bar(1, 2), "█████░░░░░");
    assert_eq!(progress_bar(1, 3), "███░░░░░░░");
    assert_eq!(progress_bar(2, 3), "███████░░░");
    assert_eq!(progress_bar(1, 20), "█░░░░░░░░░");
    assert_eq!(progress_bar(5, 5), "██████████");
}

#[test]
fn feature_tally_across_guilds() {
    let all: u64 = (1 << 11) | (1 << 5) | (1 << 4) | (1 << 2) | (1 << 7);
    let (count, features) = tally_features(&[Some(all), None, Some(1 << 11)]);
    assert_eq!(count, 2);
    assert_eq!(
        features,
        vec![("Join & Leave Logging", 2), ("Invite Detection", 1), ("Ban Detection", 1), ("Kick Detection", 1)]
    );
    let (count, features) = tally_features(&[None]);
    assert_eq!(count, 0);
    assert!(features.is_empty());
}

#[test]
fn notice_command_replies() {
    assert_eq!(notice_create_options(None, None), (DEFAULT_NOTICE_COLOR, true));
    assert_eq!(notice_create_options(Some(5), Some(false)), (5, false));
    assert_eq!(duplicate_notice_message("v1"), "A notice with key `v1` already exists.");
    assert_eq!(
        notice_created_message("v1", true),
        "Created notice `v1` (current guilds only).\nUse `/notice send` to distribute it now, or it will be sent on next restart."
    );
    assert!(notice_created_message("v1", false).contains("(all guilds (including future))"));
    assert_eq!(notice_send_summary(3, 1), "Sent 3 notices (1 guilds failed).");
    assert_eq!(notice_deleted_message("k", true), "Deleted notice `k`.");
    assert_eq!(notice_deleted_message("k", false), "No notice found with key `k`.");
    let n = NoticeRow {
        id: 1,
        key: "v1".into(),
        title: "Patch".into(),
        body: "b".into(),
        color: 1,
        current_only: 1,
        created_at: "Thu, 01 Jan 1970 00:00:00 +0000".into(),
    };
    assert_eq!(
        notice_list_line(&n, 4, Some(0)),
        "- `v1` — **Patch** (current only, sent to 4 guilds, created <t:0:R>)"
    );
    let n2 = NoticeRow { current_only: 0, created_at: "raw".into(), ..n };
    assert_eq!(notice_list_line(&n2, 0, None), "- `v1` — **Patch** (all guilds, sent to 0 guilds, created raw)");
    let e = listing_embed("Notices", &["a".into(), "b".into()]);
    assert_eq!(e.description, "a\nb");
    assert_eq!(e.title, "Notices");
}

#[test]
fn settings_command_replies() {
    assert_eq!(
        log_channel_update(LogChannel::Join, Some(true), Some(5), 9),
        (None, "Cleared **join log** channel.".to_string())
    );
    assert_eq!(
        log_channel_update(LogChannel::Moderation, None, None, 9),
        (Some(9), "**Moderation log** channel set to <#9>.".to_string())
    );
    assert_eq!(
        log_channel_update(LogChannel::Leave, Some(false), Some(5), 9),
        (Some(5), "**Leave log** channel set to <#5>.".to_string())
    );
    let s = GuildSettings { join_log: Some(1), leave_log: None, mod_log: Some(3), notices_enabled: false };
    assert_eq!(
        settings_overview(&s),
        "**Current settings for this server**\n• **Join log:** <#1>\n• **Leave log:** — not set —\n• **Moderation log:** <#3>\n• **Notices:** Disabled"
    );
    assert_eq!(notices_toggled_message(true), "Notices are now **enabled**.");
    assert_eq!(notices_toggled_message(false), "Notices are now **disabled**.");
    let sent = SentNotice { notice_key: "v2".into(), sent_at: "later".into() };
    assert_eq!(notice_history_line(&sent, None), "- `v2` sent later");
    assert_eq!(notice_history_line(&sent, Some(86400)), "- `v2` sent <t:86400:R>");
}

#[test]
fn feature_embeds() {
    let features = check_features(1 << 5);
    let e = feature_embed(&features[1]);
    assert_eq!(e.color, 0xe74c3c);
    assert_eq!(e.title, "Invite Detection");
    assert_eq!(
        e.description,
        "Detect which invite a new member used to join\n\n\u{2705} Manage Server\n\u{274c} Manage Channels"
    );
    let e0 = feature_embed(&check_features(1 << 11)[0]);
    assert_eq!(e0.color, 0x2ecc71);
}
