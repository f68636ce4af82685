use observer::commands::stats::{
    balance_days, balance_title, banned_plain, current_stats_embed, day_label_text, day_of_time, exit_lines,
    exits_params, exits_title, left_of_exits, member_balance_lines, members_plain, no_activity_message,
    no_exits_message, no_rejoiners_message, rejoiner_line, rejoiner_lines, rejoiner_params, rejoiners_title,
    stats_exit_lines,
};
use observer::services::stats::{DepartureType, ExitRow, RejoinTimes, RejoinerRow, StatsCurrent};

fn exit(user: &str, left_at: &str, kind: Option<DepartureType>, name: Option<&str>) -> ExitRow {
    ExitRow {
        user_id: user.to_string(),
        left_at: left_at.to_string(),
        departure_type: kind,
        account_username: name.map(|s| s.to_string()),
        display_name: None,
        server_nickname: None,
    }
}

#[test]
fn rejoiner_parameters_and_titles() {
    assert_eq!(rejoiner_params(None, None), (2, 15));
    assert_eq!(rejoiner_params(Some(1), Some(500)), (2, 100));
    assert_eq!(rejoiner_params(Some(5), Some(0)), (5, 1));
    assert_eq!(rejoiners_title(2), "Rejoiners (≥1 rejoins)");
    assert_eq!(no_rejoiners_message(4), "No users with ≥3 rejoins.");
}

#[test]
fn rejoiner_report_lines() {
    let r = RejoinerRow {
        user_id: "7".into(),
        stay_count: 3,
        times_left: 2,
        account_username: Some("amy".into()),
        display_name: None,
        server_nickname: None,
    };
    assert_eq!(rejoiner_line(&r), "• amy — 2 rejoins (2 exits)");
    let r2 = RejoinerRow { account_username: None, stay_count: 0, ..r.clone() };
    assert_eq!(rejoiner_lines(&[r, r2]), vec!["• amy — 2 rejoins (2 exits)".to_string(), "• 7 — -1 rejoins (2 exits)".to_string()]);
}

#[test]
fn exits_report_newest_first() {
    assert_eq!(exits_params(None, None), (30, 20));
    assert_eq!(exits_params(Some(1000), Some(-3)), (365, 1));
    let rows = vec![
        exit("1", "Fri, 02 Jan 1970 00:00:00 +0000", Some(DepartureType::Leave), Some("a")),
        exit("2", "Sun, 04 Jan 1970 00:00:00 +0000", Some(DepartureType::Ban), Some("b")),
        exit("3", "Thu, 01 Jan 1970 00:00:00 +0000", None, Some("c")),
        exit("4", "not a time", Some(DepartureType::Ban), Some("d")),
        exit("5", "Sat, 03 Jan 1970 00:00:00 +0000", Some(DepartureType::Kick), None),
    ];
    let lines = stats_exit_lines(&rows, 86400, 20).unwrap();
    assert_eq!(
        lines,
        vec![
            "**Total:** 3 (left: 2, banned: 1)".to_string(),
            "".to_string(),
            "• b — **banned** — <t:259200:R>".to_string(),
            "• 5 — left — <t:172800:R>".to_string(),
            "• a — left — <t:86400:R>".to_string(),
        ]
    );
    let shown = stats_exit_lines(&rows, 0, 2).unwrap();
    assert_eq!(shown.len(), 4);
    assert_eq!(shown[0], "**Total:** 4 (left: 3, banned: 1)");
    assert!(stats_exit_lines(&rows, 1_000_000, 20).is_none());
    let same_time = vec![exit("8", "x", None, None), exit("9", "y", None, None)];
    let lines = exit_lines(&same_time, &[Some(5), Some(5)], 0, 10).unwrap();
    assert_eq!(lines[2], "• 8 — left — <t:5:R>");
    assert_eq!(lines[3], "• 9 — left — <t:5:R>");
    assert_eq!(exits_title(7), "Exits in last 7 days");
    assert_eq!(no_exits_message(7), "No exits in the last 7 days.");
}

#[test]
fn utc_days_and_labels() {
    assert_eq!(day_of_time(0), 0);
    assert_eq!(day_of_time(86399), 0);
    assert_eq!(day_of_time(86400), 1);
    assert_eq!(day_of_time(-1), -1);
    assert_eq!(day_label_text(0), "1970-01-01");
    assert_eq!(day_label_text(12234), "2003-07-01");
    assert_eq!(day_label_text(1), "1970-01-02");
}

#[test]
fn member_balance_report() {
    let item = |u: &str, j: &str, l: Option<&str>| RejoinTimes {
        user_id: u.to_string(),
        joined_at: j.to_string(),
        left_at: l.map(|s| s.to_string()),
        departure_type: None,
    };
    let items = vec![
        item("a", "Fri, 02 Jan 1970 10:00:00 +0000", Some("Sat, 03 Jan 1970 10:00:00 +0000")),
        item("a", "Sat, 03 Jan 1970 11:00:00 +0000", None),
        item("b", "Fri, 02 Jan 1970 12:00:00 +0000", Some("broken")),
        item("c", "Thu, 01 Jan 1970 12:00:00 +0000", Some("Sat, 03 Jan 1970 12:00:00 +0000")),
    ];
    let lines = member_balance_lines(&items, 86400, 30).unwrap();
    assert_eq!(
        lines,
        vec![
            "**30 days:**  net +1  |  joins: 3 (2 unique)  |  leaves: 2 (2 unique)".to_string(),
            "".to_string(),
            "1970-01-02  +2 / -0  (net: +2)".to_string(),
            "1970-01-03  +1 / -2  (net: -1)".to_string(),
        ]
    );
    assert!(member_balance_lines(&items, 10_000_000, 30).is_none());
    assert_eq!(balance_days(None), 30);
    assert_eq!(balance_days(Some(0)), 1);
    assert_eq!(balance_title(30), "Member balance (last 30 days)");
    assert_eq!(no_activity_message(5), "No join/leave activity in the last 5 days.");
}

#[test]
fn current_stats_parts() {
    let s = StatsCurrent { current_members: 5, unique_ever: 0, total_stays: 9, total_exits: 0, total_banned: 2 };
    assert_eq!(members_plain(&s).as_deref(), Some("**5**"));
    assert_eq!(banned_plain(&s).as_deref(), Some("2"));
    assert_eq!(left_of_exits(&s), -2);
    let e = current_stats_embed(&s, "**5**".into(), "2".into());
    assert_eq!(e.title, "Current stats");
    let values: Vec<(&str, &str)> = e.fields.iter().map(|f| (f.name.as_str(), f.value.as_str())).collect();
    assert_eq!(
        values,
        vec![
            ("Members (of recorded)", "**5**"),
            ("Total stays", "9"),
            ("Total exits", "0"),
            ("Banned (of exits)", "2"),
            ("Left (of exits)", "-2"),
        ]
    );
    let t = StatsCurrent { current_members: 5, unique_ever: 8, total_stays: 9, total_exits: 4, total_banned: 1 };
    assert!(members_plain(&t).is_none());
    assert!(banned_plain(&t).is_none());
    assert_eq!(left_of_exits(&t), 3);
    let extreme = StatsCurrent { total_exits: i64::MIN, total_banned: 1, ..t };
    assert_eq!(left_of_exits(&extreme), i64::MIN);
}
