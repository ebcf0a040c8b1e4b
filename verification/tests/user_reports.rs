use iaministrator::cli::UserCommands;
use iaministrator::json::JsonValue;
use iaministrator::plan::Plan;
use iaministrator::report::Tone;
use iaministrator::user::{
    detection_summary, guest_audit_path, guest_audit_report, handle, latest_detection, license_usage, parse_user_row,
    risk_summary, risky_users_summary, sku_name_for, sku_overview, UserType,
};

fn s(x: &str) -> JsonValue {
    JsonValue::Str(x.to_string())
}

fn n(x: i64) -> JsonValue {
    JsonValue::Number(Some(x))
}

fn obj(pairs: Vec<(&str, JsonValue)>) -> JsonValue {
    JsonValue::Object(pairs.into_iter().map(|(k, v)| (k.to_string(), v)).collect())
}

fn guest(upn: &str, enabled: bool, state: &str, last: Option<&str>) -> JsonValue {
    let mut pairs = vec![
        ("userPrincipalName", s(upn)),
        ("mail", s("g@example.com")),
        ("createdDateTime", s("2023-04-05T06:07:08Z")),
        ("accountEnabled", JsonValue::Bool(enabled)),
        ("externalUserState", s(state)),
        ("userType", s("Guest")),
    ];
    if let Some(t) = last {
        pairs.push(("signInActivity", obj(vec![("lastSignInDateTime", s(t))])));
    }
    obj(pairs)
}

#[test]
fn user_type_classification() {
    assert_eq!(UserType::from_str("Member"), UserType::Member);
    assert_eq!(UserType::from_str("GUEST"), UserType::Guest);
    assert_eq!(UserType::from_str("Partner"), UserType::Unknown("partner".to_string()));
    assert_eq!(UserType::from_str("").label(), "");
    assert_eq!(UserType::Member.label(), "Member");
    assert_eq!(UserType::Guest.label(), "Guest");
}

#[test]
fn user_type_label_round_trip() {
    for t in [UserType::Member, UserType::Guest, UserType::Unknown("partner".to_string()), UserType::Unknown("\u{e9}t\u{e9}".to_string())] {
        assert_eq!(UserType::from_str(t.label()), t);
    }
    assert_eq!(UserType::from_str("\u{c9}T\u{c9}"), UserType::Unknown("\u{e9}t\u{e9}".to_string()));
}

#[test]
fn user_row_defaults() {
    let u = obj(vec![("displayName", s("Ada")), ("userType", s("member")), ("accountEnabled", JsonValue::Bool(true))]);
    let row = parse_user_row(&u);
    assert_eq!(row.display_name, "Ada");
    assert_eq!(row.upn, "");
    assert_eq!(row.mail, "");
    assert_eq!(row.user_type, UserType::Member);
    assert!(row.account_enabled);
    let empty = parse_user_row(&JsonValue::Null);
    assert!(!empty.account_enabled);
    assert_eq!(empty.user_type, UserType::Unknown(String::new()));
}

#[test]
fn guest_audit_without_staleness() {
    let guests = vec![
        guest("a_example.com#EXT#@t.onmicrosoft.com", true, "Accepted", None),
        guest("b@t.onmicrosoft.com", false, "pendingacceptance", None),
    ];
    let r = guest_audit_report(&guests, None);
    assert_eq!(r.total, 2);
    assert_eq!(r.disabled, 1);
    assert_eq!(r.pending, 1);
    assert_eq!(r.ext_upns, 1);
    assert_eq!(r.stale, 0);
    assert_eq!(r.lines[0].invite_tone, Tone::Green);
    assert_eq!(r.lines[1].invite_tone, Tone::Plain);
    assert_eq!(r.lines[0].stale, None);
    assert_eq!(r.lines[0].user_type, "Guest");
    assert_eq!(r.lines[0].created, "2023-04-05T06:07:08Z");
}

#[test]
fn guest_audit_flags_stale_guests() {
    let guests = vec![
        guest("old@t", true, "Accepted", Some("2024-01-01T00:00:00Z")),
        guest("new@t", true, "Accepted", Some("2024-06-01T00:00:00Z")),
        guest("never@t", true, "PendingAcceptance", None),
    ];
    let r = guest_audit_report(&guests, Some("2024-03-01T00:00:00Z"));
    assert_eq!(r.stale, 2);
    assert_eq!(r.lines[0].stale, Some(true));
    assert_eq!(r.lines[1].stale, Some(false));
    assert_eq!(r.lines[2].stale, Some(true));
    assert_eq!(r.lines[2].last_sign_in, None);
    assert_eq!(r.lines[1].last_sign_in, Some("2024-06-01T00:00:00Z".to_string()));
    assert_eq!(r.lines[2].invite_tone, Tone::Yellow);
    assert_eq!(r.pending, 1);
}

#[test]
fn guest_columns_are_cut() {
    let long = "a".repeat(60);
    let r = guest_audit_report(&vec![guest(&long, true, "", None)], Some("2024"));
    assert_eq!(r.lines[0].upn.chars().count(), 45);
    let r = guest_audit_report(&vec![guest(&long, true, "", None)], None);
    assert_eq!(r.lines[0].upn.chars().count(), 49);
    assert!(r.lines[0].upn.ends_with('\u{2026}'));
}

#[test]
fn guest_query_paths() {
    assert_eq!(
        guest_audit_path(false),
        "/users?$filter=userType eq 'Guest'&$select=id,userPrincipalName,displayName,mail,createdDateTime,externalUserState,accountEnabled,userType&$top=999"
    );
    assert!(guest_audit_path(true).contains(",signInActivity&$top=999"));
}

fn sku(part: &str, id: &str, purchased: i64, consumed: i64) -> JsonValue {
    obj(vec![
        ("skuId", s(id)),
        ("skuPartNumber", s(part)),
        ("prepaidUnits", obj(vec![("enabled", n(purchased))])),
        ("consumedUnits", n(consumed)),
    ])
}

#[test]
fn sku_overview_sorts_and_totals() {
    let skus = vec![sku("SPE_E5", "id5", 100, 97), sku("EMS", "idE", 10, 3), sku("FLOW_FREE", "idF", 0, 4), sku("AAD_P1", "idA", 50, 41)];
    let r = sku_overview(&skus);
    assert_eq!(r.order, vec![3, 1, 2, 0]);
    let parts: Vec<&str> = r.lines.iter().map(|l| l.part.as_str()).collect();
    assert_eq!(parts, vec!["AAD_P1", "EMS", "FLOW_FREE", "SPE_E5"]);
    assert_eq!(r.lines[3].util, 97);
    assert_eq!(r.lines[3].util_tone, Tone::Red);
    assert_eq!(r.lines[0].util, 82);
    assert_eq!(r.lines[0].util_tone, Tone::Yellow);
    assert_eq!(r.lines[1].util, 30);
    assert_eq!(r.lines[1].util_tone, Tone::Yellow);
    assert_eq!(r.lines[2].util, 0);
    assert_eq!(r.lines[2].util_tone, Tone::Green);
    assert_eq!(r.lines[2].available, -4);
    assert_eq!(r.lines[2].available_tone, Tone::Red);
    assert_eq!(r.total_purchased, 160);
    assert_eq!(r.total_consumed, 145);
    assert_eq!(r.total_available, 15);
}

#[test]
fn utilisation_rounds_toward_zero() {
    let r = sku_overview(&vec![sku("X", "x", 3, -1)]);
    assert_eq!(r.lines[0].util, -33);
}

#[test]
fn sku_lookup_prefers_later_entries() {
    let skus = vec![sku("OLD", "dup", 1, 0), sku("NEW", "dup", 1, 0), obj(vec![("skuId", s("dup"))])];
    assert_eq!(sku_name_for(&skus, "dup"), Some("NEW".to_string()));
    assert_eq!(sku_name_for(&skus, "none"), None);
}

fn licensed_user(upn: &str, enabled: bool, user_type: &str, skus: &[&str]) -> JsonValue {
    obj(vec![
        ("userPrincipalName", s(upn)),
        ("accountEnabled", JsonValue::Bool(enabled)),
        ("userType", s(user_type)),
        ("assignedLicenses", JsonValue::Array(skus.iter().map(|id| obj(vec![("skuId", s(id))])).collect())),
    ])
}

#[test]
fn license_usage_counts() {
    let skus = vec![sku("SPE_E5", "e5", 10, 5), sku("EMS", "ems", 10, 5)];
    let users = vec![
        licensed_user("a@t", true, "Member", &["e5"]),
        licensed_user("b@t", false, "Member", &["e5", "ems", "gone"]),
        licensed_user("c@t", true, "Guest", &["ems"]),
        licensed_user("d@t", true, "Member", &[]),
        obj(vec![("userPrincipalName", s("e@t"))]),
    ];
    let r = license_usage(&users, &skus);
    assert_eq!(r.total, 5);
    assert_eq!(r.licensed, 3);
    assert_eq!(r.unlicensed, 2);
    assert_eq!(r.disabled_licensed, 1);
    assert_eq!(r.guest_licensed, 1);
    assert_eq!(r.wasted_seats, 3);
    assert_eq!(r.more_disabled, 0);
    assert_eq!(r.disabled_rows.len(), 1);
    assert_eq!(r.disabled_rows[0].upn, "b@t");
    assert_eq!(r.disabled_rows[0].licenses, "SPE_E5, EMS, unknown");
}

#[test]
fn license_usage_shows_fifteen_disabled_rows() {
    let users: Vec<JsonValue> = (0..20).map(|i| licensed_user(&format!("u{i}@t"), false, "Member", &["x"])).collect();
    let r = license_usage(&users, &Vec::new());
    assert_eq!(r.disabled_licensed, 20);
    assert_eq!(r.disabled_rows.len(), 15);
    assert_eq!(r.more_disabled, 5);
    assert_eq!(r.disabled_rows[14].upn, "u14@t");
    assert_eq!(r.disabled_rows[0].licenses, "unknown");
}

#[test]
fn risky_users_counts_and_rows() {
    let users = vec![
        obj(vec![("userPrincipalName", s("a@t")), ("riskLevel", s("high")), ("riskState", s("atRisk")), ("riskLastUpdatedDateTime", s("2024-05-01T10:11:12.1234567890Z"))]),
        obj(vec![("userPrincipalName", s("b@t")), ("riskLevel", s("medium"))]),
        obj(vec![("userPrincipalName", s("c@t")), ("riskLevel", s("medium")), ("riskDetail", s("x".repeat(50).as_str()))]),
        obj(vec![("riskLevel", s("low"))]),
    ];
    let r = risky_users_summary(&users);
    assert_eq!((r.high, r.medium, r.low, r.total), (1, 2, 1, 4));
    assert_eq!(r.high_tone, Tone::Red);
    assert_eq!(r.medium_tone, Tone::Yellow);
    assert_eq!(r.lines[0].updated, "2024-05-01T10:11:12.123456");
    assert_eq!(r.lines[0].level_tone, Tone::Red);
    assert_eq!(r.lines[3].level_tone, Tone::Plain);
    assert_eq!(r.lines[2].detail.chars().count(), 40);
    let none = risky_users_summary(&Vec::new());
    assert_eq!(none.high_tone, Tone::Plain);
}

#[test]
fn detection_breakdown_by_count() {
    let det = |t: Option<&str>, level: &str| {
        let mut pairs = vec![("riskLevel", s(level)), ("userPrincipalName", s("u@t"))];
        if let Some(t) = t {
            pairs.push(("riskEventType", s(t)));
        }
        obj(pairs)
    };
    let dets = vec![
        det(Some("unfamiliarFeatures"), "low"),
        det(Some("anonymizedIPAddress"), "high"),
        det(None, "high"),
        det(Some("anonymizedIPAddress"), "medium"),
        det(Some("anonymizedIPAddress"), "high"),
        det(None, "low"),
    ];
    let r = detection_summary(&dets);
    assert_eq!(r.total, 6);
    let types: Vec<(String, usize)> = r.types.iter().map(|t| (t.event_type.clone(), t.count)).collect();
    assert_eq!(types[0], ("anonymizedIPAddress".to_string(), 3));
    assert_eq!(types[1], ("unknown".to_string(), 2));
    assert_eq!(types[2], ("unfamiliarFeatures".to_string(), 1));
    assert_eq!(types.len(), 3);
    assert!(detection_summary(&vec![]).types.is_empty());
    assert_eq!(r.high.len(), 3);
    assert_eq!(r.high[0].ip, "-");
    assert_eq!(r.high[1].event_type, "");
}

#[test]
fn at_most_ten_high_risk_detections() {
    let dets: Vec<JsonValue> = (0..12).map(|_| obj(vec![("riskLevel", s("high")), ("ipAddress", s("10.0.0.1"))])).collect();
    let r = detection_summary(&dets);
    assert_eq!(r.high.len(), 10);
    assert_eq!(r.high[9].ip, "10.0.0.1");
}

#[test]
fn risk_info_extraction() {
    let found = obj(vec![("value", JsonValue::Array(vec![obj(vec![("riskState", s("atRisk"))])]))]);
    let r = risk_summary(&found);
    assert_eq!((r.state.as_str(), r.level.as_str(), r.last_updated.as_str()), ("atRisk", "none", "<unknown>"));
    let r = risk_summary(&obj(vec![("value", JsonValue::Array(vec![]))]));
    assert_eq!(r.last_updated, "<not found in Identity Protection>");
    let d = latest_detection(&obj(vec![("value", JsonValue::Array(vec![obj(vec![("ipAddress", s("1.2.3.4"))])]))]));
    assert_eq!((d.signed_in.as_str(), d.ip.as_str()), ("<unknown>", "1.2.3.4"));
    let d = latest_detection(&JsonValue::Null);
    assert_eq!(d.ip, "<no risky detections found>");
}

#[test]
fn user_command_plans() {
    match handle(UserCommands::Get { upn: "a@t".to_string() }) {
        Plan::ShowUser { upn, path } => {
            assert_eq!(upn, "a@t");
            assert_eq!(path, "/users/a@t?$select=displayName,userPrincipalName,mail,otherMails,proxyAddresses,lastPasswordChangeDateTime");
        }
        _ => panic!("wrong plan"),
    }
    match handle(UserCommands::RiskInfo { upn: "a@t".to_string() }) {
        Plan::UserRisk { risky_user_path, detection_path, .. } => {
            assert!(risky_user_path.starts_with("/identityProtection/riskyUsers?$filter=userPrincipalName eq 'a@t'"));
            assert!(detection_path.contains("&$top=1&"));
        }
        _ => panic!("wrong plan"),
    }
    match handle(UserCommands::LicenseReport) {
        Plan::LicenseReport { skus_path, users_path } => {
            assert_eq!(skus_path, "/subscribedSkus");
            assert_eq!(users_path, "/users?$select=id,userPrincipalName,displayName,accountEnabled,assignedLicenses,userType&$top=999");
        }
        _ => panic!("wrong plan"),
    }
    match handle(UserCommands::GuestAudit { stale_days: Some(30) }) {
        Plan::GuestAudit { stale_days, path } => {
            assert_eq!(stale_days, Some(30));
            assert!(path.contains("signInActivity"));
        }
        _ => panic!("wrong plan"),
    }
    assert!(matches!(handle(UserCommands::Create { file: "f.json".to_string() }), Plan::CreateUser { .. }));
    assert!(matches!(handle(UserCommands::RiskReport), Plan::RiskyUsers { .. }));
}
