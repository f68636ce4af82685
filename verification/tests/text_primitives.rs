use observer::services::search::{fts_label, search_plan, SearchPlan};
use observer::text::{
    chars_of, contains, i64_to_string, parse_u64, push_i64_signed, push_signed_difference, replace_all, str_eq,
    string_from_chars, trim, u64_to_string,
};

#[test]
fn decimal_forms() {
    assert_eq!(u64_to_string(0), "0");
    assert_eq!(u64_to_string(1234567890), "1234567890");
    assert_eq!(u64_to_string(u64::MAX), "18446744073709551615");
    assert_eq!(i64_to_string(-42), "-42");
    assert_eq!(i64_to_string(i64::MIN), "-9223372036854775808");
}

#[test]
fn signed_forms() {
    let mut s = String::new();
    push_i64_signed(&mut s, 0);
    assert_eq!(s, "+0");
    let mut s = String::new();
    push_i64_signed(&mut s, -7);
    assert_eq!(s, "-7");
    let mut s = String::from("net ");
    push_signed_difference(&mut s, 3, 10);
    assert_eq!(s, "net -7");
    let mut s = String::new();
    push_signed_difference(&mut s, 10, 3);
    assert_eq!(s, "+7");
}

#[test]
fn parse_u64_follows_std() {
    assert_eq!(parse_u64("123"), Some(123));
    assert_eq!(parse_u64("+5"), Some(5));
    assert_eq!(parse_u64("0042"), Some(42));
    assert_eq!(parse_u64(""), None);
    assert_eq!(parse_u64("+"), None);
    assert_eq!(parse_u64("-1"), None);
    assert_eq!(parse_u64("12a"), None);
    assert_eq!(parse_u64("18446744073709551615"), Some(u64::MAX));
    assert_eq!(parse_u64("18446744073709551616"), None);
    for s in ["0", "7", "99999", "+1", " 1", "1 ", "abc", "340282366920938463463374607431768211455"] {
        assert_eq!(parse_u64(s), s.parse::<u64>().ok(), "input {s:?}");
    }
}

#[test]
fn replace_all_matches_std() {
    assert_eq!(replace_all("a <@1> b <@1>", "<@1>", "*x*"), "a *x* b *x*");
    assert_eq!(replace_all("aaaa", "aa", "b"), "bb");
    assert_eq!(replace_all("none here", "<@1>", "*x*"), "none here");
    assert_eq!(replace_all("ab", "", "-"), "-a-b-");
    assert_eq!(replace_all("", "", "-"), "-");
    for (s, p, r) in [("abcabc", "bc", "X"), ("xxx", "xx", "y"), ("", "a", "b"), ("<@<@1>1>", "<@1>", "*n*"), ("héé", "", "|")] {
        assert_eq!(replace_all(s, p, r), s.replace(p, r));
    }
}

#[test]
fn trim_and_contains() {
    assert_eq!(trim("  hello world \t\n"), "hello world");
    assert_eq!(trim("\u{3000}x\u{a0}"), "x");
    assert_eq!(trim("   "), "");
    assert_eq!(trim(""), "");
    assert!(contains("error: no such module: fts5", "no such module: fts5"));
    assert!(!contains("all good", "malformed MATCH"));
    assert!(contains("abc", ""));
}

#[test]
fn char_classes_and_lowercase() {
    assert_eq!(trim("\u{2003} a \u{2003}"), "a");
    assert_eq!(trim("_a_"), "_a_");
    assert_eq!(
        search_plan("é7*A"),
        SearchPlan::Text {
            match_expr: "label_norm:é7a* OR account_username:é7a* OR server_nickname:é7a*".to_string(),
            like: "%é7*A%".to_string(),
        }
    );
    assert_eq!(fts_label("1", &(Some("HeLLo ÄÖ".to_string()), None, None)).1, "hello äö");
}

#[test]
fn string_helpers() {
    assert!(str_eq("abc", "abc"));
    assert!(!str_eq("abc", "abd"));
    assert_eq!(chars_of("héllo"), vec!['h', 'é', 'l', 'l', 'o']);
    assert_eq!(string_from_chars(&['a', 'ß', 'c']), "aßc");
}

#[test]
fn whitespace_list_matches_std() {
    for c in (0u32..=0x10FFFF).filter_map(char::from_u32) {
        let s = c.to_string();
        assert_eq!(trim(&s).is_empty(), c.is_whitespace(), "U+{:04X}", c as u32);
    }
}
