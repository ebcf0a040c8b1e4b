use iaministrator::civil_time::{
    approx_days_ago_iso8601, chrono_approx_days, chrono_approx_now, civil_from_unix, decimal_string, is_leap,
    iso8601_days_after, iso8601_days_before, unix_to_iso8601, zero_padded_string,
};
use iaministrator::text::{
    byte_prefix, byte_prefix_allowed, owned, starts_with_char, stable_sort_order, strip_prefix, text_contains,
    text_eq, text_eq_ignore_ascii_case, text_lt, trim_start_matches, truncate,
};

#[test]
fn truncate_keeps_short_text() {
    assert_eq!(truncate("abc", 3), "abc");
    assert_eq!(truncate("", 0), "");
}

#[test]
fn truncate_cuts_with_ellipsis() {
    assert_eq!(truncate("abcdef", 4), "abc\u{2026}");
    assert_eq!(truncate("abcdef", 1), "\u{2026}");
    assert_eq!(truncate("ab", 0), "");
    assert_eq!(truncate("h\u{e9}llo w\u{f6}rld", 6), "h\u{e9}llo\u{2026}");
}

#[test]
fn truncate_never_exceeds_width() {
    for max in 1..12usize {
        let t = truncate("the quick brown fox", max);
        assert!(t.chars().count() <= max);
    }
}

#[test]
fn text_order_is_lexicographic() {
    assert!(text_lt("2024-01-01T00:00:00Z", "2024-01-02T00:00:00Z"));
    assert!(!text_lt("2024-01-02T00:00:00Z", "2024-01-01T00:00:00Z"));
    assert!(!text_lt("abc", "abc"));
    assert!(text_lt("ab", "abc"));
    assert!(!text_lt("abc", "ab"));
    assert!(text_lt("", "a"));
}

#[test]
fn substring_and_equality() {
    assert!(text_contains("guest_example.com#EXT#@tenant.onmicrosoft.com", "#EXT#"));
    assert!(!text_contains("user@example.com", "#EXT#"));
    assert!(text_contains("abc", ""));
    assert!(!text_contains("ab", "abc"));
    assert!(text_eq("same", "same"));
    assert!(!text_eq("same", "Same"));
    assert!(text_eq_ignore_ascii_case("PendingAcceptance", "pendingacceptance"));
    assert!(!text_eq_ignore_ascii_case("Pending", "PendingAcceptance"));
    assert!(starts_with_char("# comment", '#'));
    assert!(!starts_with_char("", '#'));
}

#[test]
fn prefixes_are_stripped() {
    assert_eq!(strip_prefix("https://graph.microsoft.com/v1.0/users?$skip=2", "https://graph.microsoft.com/v1.0"), Some("/users?$skip=2".to_string()));
    assert_eq!(strip_prefix("/users", "https://graph"), None);
    assert_eq!(trim_start_matches("AADSTSAADSTS123", "AADSTS"), "123");
    assert_eq!(trim_start_matches("123AADSTS", "AADSTS"), "123AADSTS");
    assert_eq!(trim_start_matches("abc", ""), "abc");
}

#[test]
fn byte_prefixes_follow_utf8() {
    assert_eq!(byte_prefix("2024-05-01T10:11:12.1234567Z", 24), "2024-05-01T10:11:12.1234");
    assert_eq!(byte_prefix("short", 24), "short");
    assert!(byte_prefix_allowed("h\u{e9}", 3));
    assert!(!byte_prefix_allowed("h\u{e9}llo", 2));
    assert!(byte_prefix_allowed("h\u{e9}llo", 3));
}

#[test]
fn std_string_wrappers() {
    // str::trim through the UPN list parser, str::to_lowercase through the
    // user-type reading, str::to_uppercase through the error-code lookup.
    assert_eq!(
        iaministrator::input::parse_upn_list("\u{3000} x y\u{a0}\n\t\n\u{200b}z"),
        vec!["x y", "\u{200b}z"]
    );
    assert_eq!(iaministrator::user::UserType::from_str("GuEsT"), iaministrator::user::UserType::Guest);
    assert!(matches!(
        iaministrator::error_codes::lookup("aadsts50034"),
        iaministrator::error_codes::LookupResult::Found { .. }
    ));
    assert_eq!(owned("copy"), "copy");
}

#[test]
fn stable_sort_keeps_equal_keys_in_order() {
    let keys: Vec<String> = vec!["b".to_string(), "a".to_string(), "b".to_string(), "".to_string(), "a".to_string()];
    assert_eq!(stable_sort_order(&keys), vec![3, 1, 4, 0, 2]);
    assert_eq!(stable_sort_order(&Vec::new()), Vec::<usize>::new());
}

#[test]
fn leap_years() {
    assert!(is_leap(2000));
    assert!(is_leap(2024));
    assert!(!is_leap(1900));
    assert!(!is_leap(2023));
}

#[test]
fn epoch_and_known_instants() {
    assert_eq!(unix_to_iso8601(0), "1970-01-01T00:00:00Z");
    assert_eq!(unix_to_iso8601(951_782_400), "2000-02-29T00:00:00Z");
    assert_eq!(unix_to_iso8601(1_700_000_000), "2023-11-14T22:13:20Z");
    assert_eq!(unix_to_iso8601(253_402_300_799), "9999-12-31T23:59:59Z");
    assert_eq!(unix_to_iso8601(253_402_300_800), "10000-01-01T00:00:00Z");
    let c = civil_from_unix(1_709_251_199);
    assert_eq!((c.year, c.month, c.day, c.hour, c.minute, c.second), (2024, 2, 29, 23, 59, 59));
}

#[test]
fn iso_text_orders_like_time() {
    let instants = [0u64, 59, 60, 3_599, 86_399, 86_400, 951_782_399, 951_782_400, 1_700_000_000, 4_102_444_800];
    for a in instants.iter() {
        for b in instants.iter() {
            assert_eq!(unix_to_iso8601(*a) < unix_to_iso8601(*b), a < b);
            assert_eq!(text_lt(&unix_to_iso8601(*a), &unix_to_iso8601(*b)), a < b);
        }
    }
}

#[test]
fn days_before_and_after() {
    assert_eq!(iso8601_days_before(2 * 86_400 + 5, 1), "1970-01-02T00:00:05Z");
    assert_eq!(iso8601_days_before(100, 1), "1970-01-01T00:00:00Z");
    assert_eq!(iso8601_days_after(0, 30), Some("1970-01-31T00:00:00Z".to_string()));
    assert_eq!(iso8601_days_after(u64::MAX - 10, 1), None);
    assert_eq!(iso8601_days_after(0, u64::MAX), None);
}

#[test]
fn clock_based_texts_have_iso_shape() {
    let now = chrono_approx_now();
    assert_eq!(now.len(), 20);
    let ago = approx_days_ago_iso8601(14);
    assert!(ago < now);
    let later = chrono_approx_days(30).unwrap();
    assert!(now < later);
}

#[test]
fn decimal_texts() {
    assert_eq!(decimal_string(0), "0");
    assert_eq!(decimal_string(1234567890), "1234567890");
    assert_eq!(zero_padded_string(7, 2), "07");
    assert_eq!(zero_padded_string(123, 2), "123");
    assert_eq!(zero_padded_string(42, 4), "0042");
}

#[test]
fn iso8601_text_order_follows_time_to_year_9999() {
    let last = 253_402_300_799u64;
    assert_eq!(unix_to_iso8601(last), "9999-12-31T23:59:59Z");
    assert!(unix_to_iso8601(last - 1) < unix_to_iso8601(last));
    assert!(unix_to_iso8601(0) < unix_to_iso8601(1));
    assert!(unix_to_iso8601(86_399) < unix_to_iso8601(86_400));
    // From the year 10000 on, text order no longer follows time.
    assert_eq!(unix_to_iso8601(last + 1), "10000-01-01T00:00:00Z");
    assert!(unix_to_iso8601(last + 1) < unix_to_iso8601(last));
}

#[test]
fn days_ago_cutoffs_are_ordered() {
    let now = 1_709_251_200u64;
    assert_eq!(iso8601_days_before(now, 0), unix_to_iso8601(now));
    assert!(iso8601_days_before(now, 30) < iso8601_days_before(now, 7));
    assert_eq!(iso8601_days_before(now, 30), "2024-01-31T00:00:00Z");
    assert!(approx_days_ago_iso8601(90) < approx_days_ago_iso8601(1));
}
