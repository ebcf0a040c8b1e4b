use iaministrator::cli::{EntraCommands, GroupCommands, IntuneCommands, SigninCommands};
use iaministrator::entra::{admin_role_rows, app_registration_audit, ca_policy_rows, directory_audit_query, directory_audit_rows};
use iaministrator::group::{
    group_audit, group_audit_row, member_count, member_count_path, member_page_path, owner_count_path, value_count,
    MemberCount,
};
use iaministrator::intune::{compliance_report, stale_cutoff, stale_cutoff_now, stale_devices_report, EARLIEST_INSTANT_SECS};
use iaministrator::json::JsonValue;
use iaministrator::plan::Plan;
use iaministrator::report::Tone;

fn s(x: &str) -> JsonValue {
    JsonValue::Str(x.to_string())
}

fn b(x: bool) -> JsonValue {
    JsonValue::Bool(x)
}

fn obj(pairs: Vec<(&str, JsonValue)>) -> JsonValue {
    JsonValue::Object(pairs.into_iter().map(|(k, v)| (k.to_string(), v)).collect())
}

fn arr(items: Vec<JsonValue>) -> JsonValue {
    JsonValue::Array(items)
}

#[test]
fn group_type_labels() {
    let g = |types: Vec<&str>, sec: bool, mail: bool| {
        obj(vec![
            ("groupTypes", arr(types.into_iter().map(s).collect())),
            ("securityEnabled", b(sec)),
            ("mailEnabled", b(mail)),
        ])
    };
    let label = |v: JsonValue| group_audit_row(&v, 1, exact(1)).group_type;
    assert_eq!(label(g(vec!["Unified", "DynamicMembership"], false, true)), "M365 Dynamic");
    assert_eq!(label(g(vec!["Unified"], false, true)), "M365 Assigned");
    assert_eq!(label(g(vec!["DynamicMembership"], true, false)), "Security Dynamic");
    assert_eq!(label(g(vec![], true, true)), "Mail-Enabled Sec");
    assert_eq!(label(g(vec![], true, false)), "Security Assigned");
    assert_eq!(label(g(vec![], false, true)), "Distribution");
    assert_eq!(label(g(vec!["DynamicMembership"], false, false)), "Other");
}

#[test]
fn group_issues_and_lines() {
    let g = obj(vec![
        ("displayName", s("Sales")),
        ("groupTypes", arr(vec![s("DynamicMembership")])),
        ("membershipRule", s("(user.department -eq \"Sales\")")),
        ("membershipRuleProcessingState", s("paused")),
        ("isAssignableToRole", b(true)),
        ("onPremisesSyncEnabled", b(true)),
        ("createdDateTime", s("2021-03-04T05:06:07Z")),
        ("mailNickname", s("sales")),
    ]);
    let row = group_audit_row(&g, 0, exact(0));
    assert_eq!(row.issues, "empty,no-owner,dyn-paused,role-assign,on-prem-sync");
    assert_eq!(row.issues_tone, Tone::Yellow);
    assert_eq!(row.rule, Some("(user.department -eq \"Sales\")".to_string()));
    let d = row.detail.unwrap();
    assert_eq!((d.sync.as_str(), d.visibility.as_str(), d.created.as_str(), d.nickname.as_str()), ("onprem", "-", "2021-03-04", "sales"));

    let plain = group_audit_row(&obj(vec![("displayName", s("Quiet"))]), 2, exact(5));
    assert_eq!(plain.issues, "-");
    assert_eq!(plain.issues_tone, Tone::Plain);
    assert!(plain.rule.is_none());
    assert!(plain.detail.is_none());
}

#[test]
fn group_audit_totals() {
    let groups = vec![
        obj(vec![("groupTypes", arr(vec![s("DynamicMembership")]))]),
        obj(vec![("isAssignableToRole", b(true))]),
        obj(vec![]),
    ];
    let r = group_audit(&groups, &vec![0, 3, 0], &vec![exact(4), exact(0), exact(0)]);
    assert_eq!((r.total, r.dynamic, r.role_assignable, r.ownerless, r.empty), (3, 1, 1, 2, 2));
    assert_eq!(r.rows[1].issues, "empty,role-assign");
}

#[test]
fn group_count_queries() {
    assert_eq!(owner_count_path("g1"), "/groups/g1/owners?$select=id&$top=100");
    assert_eq!(member_count_path("g1"), "/groups/g1/members/$count");
    assert_eq!(member_page_path("g1"), "/groups/g1/members?$select=id&$top=100");
    let page = obj(vec![("value", arr(vec![obj(vec![]), obj(vec![])]))]);
    assert_eq!(value_count(&page), 2);
    assert_eq!(value_count(&JsonValue::Null), 0);
    assert_eq!(member_count(Some(250), Some(&page)), Some(exact(250)));
    assert_eq!(member_count(None, Some(&page)), Some(exact(2)));
    assert_eq!(member_count(None, None), None);
    let full = obj(vec![("value", arr((0..100).map(|_| obj(vec![])).collect()))]);
    assert_eq!(member_count(None, Some(&full)), Some(MemberCount { count: 100, page_full: true }));
    assert_eq!(member_count(Some(100), Some(&full)), Some(exact(100)));
}

#[test]
fn full_fallback_page_shows_100_plus() {
    let g = obj(vec![("displayName", s("Big"))]);
    let row = group_audit_row(&g, 2, MemberCount { count: 100, page_full: true });
    assert_eq!(row.members, 100);
    assert_eq!(row.issues, "100+");
    assert_eq!(row.issues_tone, Tone::Plain);
    let row = group_audit_row(&g, 0, MemberCount { count: 100, page_full: true });
    assert_eq!(row.issues, "100+,no-owner");
    assert_eq!(group_audit_row(&g, 2, exact(100)).issues, "-");
}

fn exact(count: usize) -> MemberCount {
    MemberCount { count, page_full: false }
}

#[test]
fn group_plans() {
    match iaministrator::group::handle(GroupCommands::Audit) {
        Plan::GroupAudit { path } => assert!(path.starts_with("/groups?$select=id,displayName,mailNickname,")),
        _ => panic!("wrong plan"),
    }
    assert!(matches!(
        iaministrator::group::handle(GroupCommands::Add { upn: "a".to_string(), group: "g".to_string() }),
        Plan::GroupAdd { .. }
    ));
}

#[test]
fn admin_roles_and_policies() {
    let rows = admin_role_rows(&vec![obj(vec![("principalId", s("p")), ("roleDefinitionId", s("r"))])]);
    assert_eq!((rows[0].principal.as_str(), rows[0].role_definition.as_str(), rows[0].scope.as_str()), ("p", "r", ""));
    let pol = ca_policy_rows(&vec![
        obj(vec![("displayName", s("MFA")), ("state", s("enabled"))]),
        obj(vec![("state", s("disabled"))]),
        obj(vec![("state", s("enabledForReportingButNotEnforced"))]),
        obj(vec![]),
    ]);
    let tones: Vec<Tone> = pol.iter().map(|p| p.state_tone).collect();
    assert_eq!(tones, vec![Tone::Green, Tone::Red, Tone::Yellow, Tone::Plain]);
}

#[test]
fn app_credentials_by_expiry() {
    let cred = |end: &str| obj(vec![("endDateTime", s(end))]);
    let apps = vec![
        obj(vec![
            ("displayName", s("Payroll")),
            ("appId", s("1111")),
            ("passwordCredentials", arr(vec![cred("2024-01-01T00:00:00Z"), cred("2024-06-10T00:00:00Z"), cred("2025-01-01T00:00:00Z"), obj(vec![])])),
            ("keyCredentials", arr(vec![obj(vec![])])),
            ("createdDateTime", s("2020-01-01T00:00:00Z")),
        ]),
        obj(vec![("displayName", s("NoCreds"))]),
    ];
    let r = app_registration_audit(&apps, "2024-06-01T00:00:00Z", "2024-07-01T00:00:00Z");
    assert_eq!((r.total, r.expired, r.expiring_soon), (2, 1, 1));
    assert_eq!((r.rows[0].secrets, r.rows[0].certificates), (4, 1));
    assert_eq!((r.rows[1].secrets, r.rows[1].certificates), (0, 0));
}

#[test]
fn directory_audit_entries() {
    assert!(directory_audit_query(500).ends_with("&$top=200"));
    assert!(directory_audit_query(25).ends_with("&$top=25"));
    let entries = vec![
        obj(vec![
            ("activityDateTime", s("2024-05-01T10:11:12.1234567Z")),
            ("result", s("success")),
            ("initiatedBy", obj(vec![("user", obj(vec![("userPrincipalName", s("admin@t"))]))])),
            ("targetResources", arr(vec![obj(vec![("displayName", s("Finance"))])])),
        ]),
        obj(vec![
            ("result", s("failure")),
            ("initiatedBy", obj(vec![("user", JsonValue::Null), ("app", obj(vec![("displayName", s("Sync App"))]))])),
        ]),
    ];
    let rows = directory_audit_rows(&entries);
    assert_eq!(rows[0].date_time, "2024-05-01T10:11:12.123456");
    assert_eq!((rows[0].initiator.as_str(), rows[0].target.as_str()), ("admin@t", "Finance"));
    assert_eq!(rows[0].result_tone, Tone::Green);
    assert_eq!((rows[1].initiator.as_str(), rows[1].target.as_str()), ("Sync App", ""));
    assert_eq!(rows[1].result_tone, Tone::Red);
}

#[test]
fn entra_plans() {
    match iaministrator::entra::handle(EntraCommands::DirectoryAudit { limit: 1000 }) {
        Plan::DirectoryAudit { path } => assert!(path.ends_with("&$top=200")),
        _ => panic!("wrong plan"),
    }
    match iaministrator::entra::handle(EntraCommands::AdminRoles) {
        Plan::AdminRoles { path } => assert_eq!(path, "/roleManagement/directory/roleAssignments?$top=999"),
        _ => panic!("wrong plan"),
    }
    assert!(matches!(iaministrator::entra::handle(EntraCommands::GroupAudit), Plan::GroupAudit { .. }));
    assert!(matches!(iaministrator::entra::handle(EntraCommands::GuestAudit { stale_days: None }), Plan::GuestAudit { stale_days: None, .. }));
}

#[test]
fn device_compliance() {
    let devices = vec![
        obj(vec![("deviceName", s("PC1")), ("complianceState", s("compliant"))]),
        obj(vec![("deviceName", s("PC2")), ("complianceState", s("noncompliant"))]),
        obj(vec![("deviceName", s("PC3"))]),
    ];
    let r = compliance_report(&devices);
    assert_eq!((r.total, r.compliant, r.noncompliant), (3, 1, 1));
    assert_eq!(r.rows[2].state, "unknown");
    assert_eq!(r.rows[2].state_tone, Tone::Yellow);
}

#[test]
fn stale_devices_by_last_sync() {
    let dev = |name: &str, sync: Option<&str>| {
        let mut pairs = vec![("deviceName", s(name))];
        if let Some(t) = sync {
            pairs.push(("lastSyncDateTime", s(t)));
        }
        obj(pairs)
    };
    let devices = vec![
        dev("old", Some("2024-01-01T00:00:00Z")),
        dev("fresh", Some("2024-06-01T00:00:00+02:00")),
        dev("garbled", Some("last tuesday")),
        dev("missing", None),
        dev("edge", Some("2024-03-01T00:00:00Z")),
    ];
    let cutoff = (1_709_251_200i64, 0u32); // 2024-03-01T00:00:00Z
    let r = stale_devices_report(&devices, cutoff);
    let names: Vec<&str> = r.rows.iter().map(|d| d.name.as_str()).collect();
    assert_eq!(names, vec!["old", "garbled", "missing"]);
    assert_eq!(r.count, 3);
    let r = stale_devices_report(&devices, (1_709_251_200, 1));
    assert_eq!(r.count, 4);
}

#[test]
fn stale_cutoff_subtracts_whole_days() {
    assert_eq!(stale_cutoff((1_000_000, 7), 2), Some((1_000_000 - 172_800, 7)));
    assert_eq!(stale_cutoff((i64::MIN + 10, 0), 1), None);
    // 2024-03-01T00:00:00Z minus 30 days is 2024-01-31T00:00:00Z.
    assert_eq!(stale_cutoff((1_709_251_200, 0), 30), Some((1_706_659_200, 0)));
}

#[test]
fn stale_cutoff_stops_at_the_earliest_instant() {
    assert_eq!(stale_cutoff((EARLIEST_INSTANT_SECS + 86_400, 5), 1), Some((EARLIEST_INSTANT_SECS, 5)));
    assert_eq!(stale_cutoff((EARLIEST_INSTANT_SECS + 86_399, 5), 1), None);
    assert_eq!(stale_cutoff((0, 0), u32::MAX), None);
    assert_eq!(chrono::DateTime::<chrono::Utc>::MIN_UTC.timestamp(), EARLIEST_INSTANT_SECS);
    let t = chrono::DateTime::from_timestamp(EARLIEST_INSTANT_SECS + 86_399, 5).unwrap();
    assert!(t.checked_sub_signed(chrono::TimeDelta::days(1)).is_none());
    let t = chrono::DateTime::from_timestamp(EARLIEST_INSTANT_SECS + 86_400, 5).unwrap();
    let back = t.checked_sub_signed(chrono::TimeDelta::days(1)).unwrap();
    assert_eq!((back.timestamp(), back.timestamp_subsec_nanos()), (EARLIEST_INSTANT_SECS, 5));
}

#[test]
fn stale_cutoff_now_reads_the_clock() {
    let c = stale_cutoff_now(1).unwrap();
    assert!(c.0 > 1_600_000_000);
    assert!(c.1 < 1_000_000_000);
}

#[test]
fn intune_and_signin_plans() {
    match iaministrator::intune::handle(IntuneCommands::StaleDevices { days: 30 }) {
        Plan::StaleDevices { days, path } => {
            assert_eq!(days, 30);
            assert!(path.contains("lastSyncDateTime"));
        }
        _ => panic!("wrong plan"),
    }
    assert!(matches!(iaministrator::intune::handle(IntuneCommands::ComplianceReport), Plan::ComplianceReport { .. }));
    match iaministrator::signin::handle(SigninCommands::Bulk { file: "u.txt".to_string(), limit: 50 }) {
        Plan::BulkSignin { file, limit } => assert_eq!((file.as_str(), limit), ("u.txt", 50)),
        _ => panic!("wrong plan"),
    }
}
