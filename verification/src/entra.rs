//! Entra ID reports: admin role assignments, Conditional Access policies,
//! app registrations with credential expiry, and the directory audit log.
use vstd::prelude::*;
use vstd::utf8::encode_utf8;
use crate::cli::EntraCommands;
use crate::json::JsonValue;
use crate::plan::Plan;
use crate::report::{lemma_take_all, Tone};
use crate::text::{byte_prefix, byte_prefix_of, byte_prefix_ok, lex_lt, owned, text_eq, text_lt, truncate, truncated};
use crate::civil_time::{civil_of, decimal_digits, decimal_string, iso8601_text, lemma_iso8601_lt_iff};
use crate::user::{active_risky_users_path, guest_audit_path, guest_select};
use crate::group::{audit_path, groups_path};

verus! {

pub open spec fn role_assignments_path() -> Seq<char> {
    "/roleManagement/directory/roleAssignments?$top=999"@
}

pub open spec fn ca_policies_path() -> Seq<char> {
    "/identity/conditionalAccess/policies?$select=id,displayName,state&$top=999"@
}

pub open spec fn applications_path() -> Seq<char> {
    "/applications?$select=displayName,appId,signInAudience,passwordCredentials,keyCredentials,createdDateTime&$top=999"@
}

/// Graph path of the newest directory audit entries, `limit` of them but at most 200.
pub open spec fn directory_audit_path(limit: u32) -> Seq<char> {
    "/auditLogs/directoryAudits?$select=activityDateTime,category,activityDisplayName,initiatedBy,targetResources,result&$orderby=activityDateTime desc&$top="@
        + decimal_digits(if limit < 200 { limit as nat } else { 200 })
}

/// The work an Entra command asks for.
pub fn handle(action: EntraCommands) -> (r: Plan)
    ensures
        match action {
            EntraCommands::AdminRoles => r matches Plan::AdminRoles { path } && path@ == role_assignments_path(),
            EntraCommands::GuestAudit { stale_days } => r matches Plan::GuestAudit { stale_days: d, path } && d == stale_days
                && path@ == "/users?$filter=userType eq 'Guest'&$select="@ + guest_select(stale_days is Some) + "&$top=999"@,
            EntraCommands::RiskyUsers => r matches Plan::RiskyUsers { users_path } && users_path@ == active_risky_users_path(),
            EntraCommands::CaReport => r matches Plan::CaReport { path } && path@ == ca_policies_path(),
            EntraCommands::AppRegistrationAudit => r matches Plan::AppRegistrationAudit { path } && path@ == applications_path(),
            EntraCommands::DirectoryAudit { limit } => r matches Plan::DirectoryAudit { path } && path@ == directory_audit_path(limit),
            EntraCommands::GroupAudit => r matches Plan::GroupAudit { path } && path@ == groups_path(),
        },
{
    match action {
        EntraCommands::AdminRoles => Plan::AdminRoles { path: owned("/roleManagement/directory/roleAssignments?$top=999") },
        EntraCommands::GuestAudit { stale_days } => {
            let path = guest_audit_path(stale_days.is_some());
            Plan::GuestAudit { stale_days, path }
        },
        EntraCommands::RiskyUsers => Plan::RiskyUsers {
            users_path: owned("/identityProtection/riskyUsers?$filter=riskLevel ne 'none' and riskState ne 'dismissed'&$orderby=riskLevel desc&$top=999"),
        },
        EntraCommands::CaReport => Plan::CaReport {
            path: owned("/identity/conditionalAccess/policies?$select=id,displayName,state&$top=999"),
        },
        EntraCommands::AppRegistrationAudit => Plan::AppRegistrationAudit {
            path: owned("/applications?$select=displayName,appId,signInAudience,passwordCredentials,keyCredentials,createdDateTime&$top=999"),
        },
        EntraCommands::DirectoryAudit { limit } => Plan::DirectoryAudit { path: directory_audit_query(limit) },
        EntraCommands::GroupAudit => Plan::GroupAudit { path: audit_path() },
    }
}

/// Graph path of the newest directory audit entries, `limit` of them but at most 200.
pub fn directory_audit_query(limit: u32) -> (r: String)
    ensures
        r@ == directory_audit_path(limit),
{
    let top: u32 = if limit < 200 { limit } else { 200 };
    let mut p = owned(
        "/auditLogs/directoryAudits?$select=activityDateTime,category,activityDisplayName,initiatedBy,targetResources,result&$orderby=activityDateTime desc&$top=",
    );
    p.append(decimal_string(top as u64).as_str());
    p
}

// ---------------------------------------------------------------------------
// Admin roles
// ---------------------------------------------------------------------------

/// One admin role assignment.
pub struct RoleAssignmentRow {
    pub principal: String,
    pub role_definition: String,
    pub scope: String,
}

/// The principal, role definition and scope of each assignment ("" when absent).
pub fn admin_role_rows(assignments: &Vec<JsonValue>) -> (r: Vec<RoleAssignmentRow>)
    ensures
        r@.len() == assignments@.len(),
        forall|i: int| 0 <= i < r@.len() ==> {
            &&& (#[trigger] r@[i]).principal@ == assignments@[i].str_or("principalId"@, ""@)
            &&& r@[i].role_definition@ == assignments@[i].str_or("roleDefinitionId"@, ""@)
            &&& r@[i].scope@ == assignments@[i].str_or("directoryScopeId"@, ""@)
        },
{
    let n = assignments.len();
    let mut rows: Vec<RoleAssignmentRow> = Vec::new();
    let mut i: usize = 0;
    while i < n
        invariant
            n == assignments@.len(),
            i <= n,
            rows@.len() == i,
            forall|k: int| 0 <= k < i ==> {
                &&& (#[trigger] rows@[k]).principal@ == assignments@[k].str_or("principalId"@, ""@)
                &&& rows@[k].role_definition@ == assignments@[k].str_or("roleDefinitionId"@, ""@)
                &&& rows@[k].scope@ == assignments@[k].str_or("directoryScopeId"@, ""@)
            },
        decreases n - i,
    {
        let a = &assignments[i];
        rows.push(RoleAssignmentRow {
            principal: a.str_or_default("principalId", ""),
            role_definition: a.str_or_default("roleDefinitionId", ""),
            scope: a.str_or_default("directoryScopeId", ""),
        });
        i = i + 1;
    }
    rows
}

// ---------------------------------------------------------------------------
// Conditional Access
// ---------------------------------------------------------------------------

/// Emphasis of a policy state: enabled green, disabled red, report-only yellow.
pub open spec fn policy_state_tone(state: Seq<char>) -> Tone {
    if state == "enabled"@ {
        Tone::Green
    } else if state == "disabled"@ {
        Tone::Red
    } else if state == "enabledForReportingButNotEnforced"@ {
        Tone::Yellow
    } else {
        Tone::Plain
    }
}

/// One Conditional Access policy.
pub struct PolicyRow {
    pub name: String,
    pub state: String,
    pub state_tone: Tone,
}

/// Name, state and state emphasis of each policy.
pub fn ca_policy_rows(policies: &Vec<JsonValue>) -> (r: Vec<PolicyRow>)
    ensures
        r@.len() == policies@.len(),
        forall|i: int| 0 <= i < r@.len() ==> {
            &&& (#[trigger] r@[i]).name@ == policies@[i].str_or("displayName"@, ""@)
            &&& r@[i].state@ == policies@[i].str_or("state"@, ""@)
            &&& r@[i].state_tone == policy_state_tone(policies@[i].str_or("state"@, ""@))
        },
{
    let n = policies.len();
    let mut rows: Vec<PolicyRow> = Vec::new();
    let mut i: usize = 0;
    while i < n
        invariant
            n == policies@.len(),
            i <= n,
            rows@.len() == i,
            forall|k: int| 0 <= k < i ==> {
                &&& (#[trigger] rows@[k]).name@ == policies@[k].str_or("displayName"@, ""@)
                &&& rows@[k].state@ == policies@[k].str_or("state"@, ""@)
                &&& rows@[k].state_tone == policy_state_tone(policies@[k].str_or("state"@, ""@))
            },
        decreases n - i,
    {
        let p = &policies[i];
        let state = p.str_or_default("state", "");
        let tone = if text_eq(state.as_str(), "enabled") {
            Tone::Green
        } else if text_eq(state.as_str(), "disabled") {
            Tone::Red
        } else if text_eq(state.as_str(), "enabledForReportingButNotEnforced") {
            Tone::Yellow
        } else {
            Tone::Plain
        };
        rows.push(PolicyRow { name: p.str_or_default("displayName", ""), state, state_tone: tone });
        i = i + 1;
    }
    rows
}

// ---------------------------------------------------------------------------
// App registrations
// ---------------------------------------------------------------------------

/// The password credentials of an app registration.
pub open spec fn password_credentials(app: JsonValue) -> Seq<JsonValue> {
    app.items_of("passwordCredentials"@)
}

/// Credentials of `creds` whose end date is before `now`.
pub open spec fn expired_count(creds: Seq<JsonValue>, now: Seq<char>) -> nat
    decreases creds.len(),
{
    if creds.len() == 0 {
        0
    } else {
        expired_count(creds.drop_last(), now) + match creds.last().field("endDateTime"@).str_value() {
            Some(end) => if lex_lt(end, now) { 1nat } else { 0nat },
            None => 0nat,
        }
    }
}

/// Credentials of `creds` whose end date is not before `now` but before `soon`.
pub open spec fn expiring_count(creds: Seq<JsonValue>, now: Seq<char>, soon: Seq<char>) -> nat
    decreases creds.len(),
{
    if creds.len() == 0 {
        0
    } else {
        expiring_count(creds.drop_last(), now, soon) + match creds.last().field("endDateTime"@).str_value() {
            Some(end) => if !lex_lt(end, now) && lex_lt(end, soon) { 1nat } else { 0nat },
            None => 0nat,
        }
    }
}

pub open spec fn total_expired(apps: Seq<JsonValue>, now: Seq<char>) -> nat
    decreases apps.len(),
{
    if apps.len() == 0 { 0 } else { total_expired(apps.drop_last(), now) + expired_count(password_credentials(apps.last()), now) }
}

pub open spec fn total_expiring(apps: Seq<JsonValue>, now: Seq<char>, soon: Seq<char>) -> nat
    decreases apps.len(),
{
    if apps.len() == 0 {
        0
    } else {
        total_expiring(apps.drop_last(), now, soon) + expiring_count(password_credentials(apps.last()), now, soon)
    }
}

/// One app registration.
pub struct AppRow {
    /// `displayName` cut to 44 characters.
    pub name: String,
    pub app_id: String,
    /// `signInAudience` cut to 21 characters.
    pub audience: String,
    /// Number of password credentials.
    pub secrets: usize,
    /// Number of key credentials.
    pub certificates: usize,
    /// The first 24 bytes of `createdDateTime`.
    pub created: String,
}

pub open spec fn app_row_shows(r: AppRow, app: JsonValue) -> bool {
    &&& r.name@ == truncated(app.str_or("displayName"@, ""@), 44)
    &&& r.app_id@ == app.str_or("appId"@, ""@)
    &&& r.audience@ == truncated(app.str_or("signInAudience"@, ""@), 21)
    &&& r.secrets == app.items_of("passwordCredentials"@).len()
    &&& r.certificates == app.items_of("keyCredentials"@).len()
    &&& encode_utf8(r.created@) == byte_prefix_of(app.str_or("createdDateTime"@, ""@), 24)
}

/// The app registration audit.
pub struct AppAudit {
    pub rows: Vec<AppRow>,
    pub total: usize,
    /// Password credentials already expired.
    pub expired: usize,
    /// Password credentials expiring before the horizon.
    pub expiring_soon: usize,
}

fn credential_counts(creds: &Vec<JsonValue>, now: &str, soon: &str) -> (r: (usize, usize))
    ensures
        r.0 == expired_count(creds@, now@),
        r.1 == expiring_count(creds@, now@, soon@),
{
    let n = creds.len();
    let mut expired: usize = 0;
    let mut expiring: usize = 0;
    let mut i: usize = 0;
    while i < n
        invariant
            n == creds@.len(),
            i <= n,
            expired == expired_count(creds@.take(i as int), now@),
            expiring == expiring_count(creds@.take(i as int), now@, soon@),
            expired + expiring <= i,
        decreases n - i,
    {
        proof {
            assert(creds@.take(i + 1).drop_last() =~= creds@.take(i as int));
        }
        match creds[i].str_at("endDateTime") {
            Some(end) => {
                if text_lt(end, now) {
                    expired = expired + 1;
                } else if text_lt(end, soon) {
                    expiring = expiring + 1;
                }
            },
            None => {},
        }
        i = i + 1;
    }
    proof {
        lemma_take_all(creds@);
    }
    (expired, expiring)
}

/// Audits the app registrations; credential end dates (ISO-8601 text) are
/// compared with `now` and with `soon` (30 days on).
pub fn app_registration_audit(apps: &Vec<JsonValue>, now: &str, soon: &str) -> (r: AppAudit)
    requires
        forall|i: int| 0 <= i < apps@.len() ==> byte_prefix_ok(#[trigger] apps@[i].str_or("createdDateTime"@, ""@), 24),
        total_expired(apps@, now@) + total_expiring(apps@, now@, soon@) <= usize::MAX,
    ensures
        r.rows@.len() == apps@.len(),
        forall|i: int| 0 <= i < apps@.len() ==> app_row_shows(#[trigger] r.rows@[i], apps@[i]),
        r.total == apps@.len(),
        r.expired == total_expired(apps@, now@),
        r.expiring_soon == total_expiring(apps@, now@, soon@),
{
    let n = apps.len();
    let mut rows: Vec<AppRow> = Vec::new();
    let mut expired: usize = 0;
    let mut expiring: usize = 0;
    let mut i: usize = 0;
    while i < n
        invariant
            n == apps@.len(),
            i <= n,
            forall|k: int| 0 <= k < apps@.len() ==> byte_prefix_ok(#[trigger] apps@[k].str_or("createdDateTime"@, ""@), 24),
            total_expired(apps@, now@) + total_expiring(apps@, now@, soon@) <= usize::MAX,
            rows@.len() == i,
            forall|k: int| 0 <= k < i ==> app_row_shows(#[trigger] rows@[k], apps@[k]),
            expired == total_expired(apps@.take(i as int), now@),
            expiring == total_expiring(apps@.take(i as int), now@, soon@),
        decreases n - i,
    {
        let app = &apps[i];
        let name = app.str_or_default("displayName", "");
        let audience = app.str_or_default("signInAudience", "");
        let created = app.str_or_default("createdDateTime", "");
        let secrets = app.array_len_at("passwordCredentials");
        let certificates = app.array_len_at("keyCredentials");
        proof {
            assert(apps@.take(i + 1).drop_last() =~= apps@.take(i as int));
            lemma_totals_mono(apps@, now@, soon@, i + 1);
        }
        match app.array_at("passwordCredentials") {
            Some(creds) => {
                let (e, s) = credential_counts(creds, now, soon);
                expired = expired + e;
                expiring = expiring + s;
            },
            None => {},
        }
        rows.push(AppRow {
            name: truncate(name.as_str(), 44),
            app_id: app.str_or_default("appId", ""),
            audience: truncate(audience.as_str(), 21),
            secrets,
            certificates,
            created: byte_prefix(created.as_str(), 24),
        });
        i = i + 1;
    }
    proof {
        lemma_take_all(apps@);
    }
    AppAudit { rows, total: n, expired, expiring_soon: expiring }
}

proof fn lemma_totals_mono(apps: Seq<JsonValue>, now: Seq<char>, soon: Seq<char>, k: int)
    requires
        0 <= k <= apps.len(),
    ensures
        total_expired(apps.take(k), now) <= total_expired(apps, now),
        total_expiring(apps.take(k), now, soon) <= total_expiring(apps, now, soon),
    decreases apps.len() - k,
{
    if k < apps.len() {
        lemma_totals_mono(apps, now, soon, k + 1);
        assert(apps.take(k + 1).drop_last() =~= apps.take(k));
    } else {
        assert(apps.take(k) =~= apps);
    }
}

// ---------------------------------------------------------------------------
// Directory audit
// ---------------------------------------------------------------------------

/// Who started an audited activity: the user's UPN, else the app's name, else "".
pub open spec fn initiator(e: JsonValue) -> Seq<char> {
    let by = e.field("initiatedBy"@);
    match by.field("user"@).field("userPrincipalName"@).str_value() {
        Some(u) => u,
        None => by.field("app"@).str_or("displayName"@, ""@),
    }
}

/// The display name of the first target resource, or "".
pub open spec fn first_target(e: JsonValue) -> Seq<char> {
    match e.field("targetResources"@).array_items() {
        Some(items) => if items.len() > 0 {
            match items[0].field("displayName"@).str_value() {
                Some(n) => n,
                None => ""@,
            }
        } else {
            ""@
        },
        None => ""@,
    }
}

/// Emphasis of an audit result: success green, failure red.
pub open spec fn result_tone(result: Seq<char>) -> Tone {
    if result == "success"@ {
        Tone::Green
    } else if result == "failure"@ {
        Tone::Red
    } else {
        Tone::Plain
    }
}

/// One directory audit entry.
pub struct AuditRow {
    /// The first 26 bytes of `activityDateTime`.
    pub date_time: String,
    /// `category` cut to 17 characters.
    pub category: String,
    /// `activityDisplayName` cut to 39 characters.
    pub activity: String,
    /// The initiator cut to 39 characters.
    pub initiator: String,
    /// The first target cut to 29 characters.
    pub target: String,
    pub result: String,
    pub result_tone: Tone,
}

pub open spec fn audit_row_shows(r: AuditRow, e: JsonValue) -> bool {
    &&& encode_utf8(r.date_time@) == byte_prefix_of(e.str_or("activityDateTime"@, ""@), 26)
    &&& r.category@ == truncated(e.str_or("category"@, ""@), 17)
    &&& r.activity@ == truncated(e.str_or("activityDisplayName"@, ""@), 39)
    &&& r.initiator@ == truncated(initiator(e), 39)
    &&& r.target@ == truncated(first_target(e), 29)
    &&& r.result@ == e.str_or("result"@, ""@)
    &&& r.result_tone == result_tone(e.str_or("result"@, ""@))
}

fn initiator_of(e: &JsonValue) -> (r: String)
    ensures
        r@ == initiator(*e),
{
    let by = e.get("initiatedBy");
    let user_upn = match by {
        Some(b) => match b.get("user") {
            Some(u) => u.str_at("userPrincipalName"),
            None => None,
        },
        None => None,
    };
    match user_upn {
        Some(u) => owned(u),
        None => match by {
            Some(b) => match b.get("app") {
                Some(a) => a.str_or_default("displayName", ""),
                None => owned(""),
            },
            None => owned(""),
        },
    }
}

fn first_target_of(e: &JsonValue) -> (r: String)
    ensures
        r@ == first_target(*e),
{
    match e.array_at("targetResources") {
        Some(items) => if items.len() > 0 {
            match items[0].str_at("displayName") {
                Some(n) => owned(n),
                None => owned(""),
            }
        } else {
            owned("")
        },
        None => owned(""),
    }
}

/// One row per directory audit entry.
pub fn directory_audit_rows(entries: &Vec<JsonValue>) -> (r: Vec<AuditRow>)
    requires
        forall|i: int| 0 <= i < entries@.len() ==> byte_prefix_ok(#[trigger] entries@[i].str_or("activityDateTime"@, ""@), 26),
    ensures
        r@.len() == entries@.len(),
        forall|i: int| 0 <= i < r@.len() ==> audit_row_shows(#[trigger] r@[i], entries@[i]),
{
    let n = entries.len();
    let mut rows: Vec<AuditRow> = Vec::new();
    let mut i: usize = 0;
    while i < n
        invariant
            n == entries@.len(),
            i <= n,
            forall|k: int| 0 <= k < entries@.len() ==> byte_prefix_ok(#[trigger] entries@[k].str_or("activityDateTime"@, ""@), 26),
            rows@.len() == i,
            forall|k: int| 0 <= k < i ==> audit_row_shows(#[trigger] rows@[k], entries@[k]),
        decreases n - i,
    {
        let e = &entries[i];
        let dt = e.str_or_default("activityDateTime", "");
        let category = e.str_or_default("category", "");
        let activity = e.str_or_default("activityDisplayName", "");
        let result = e.str_or_default("result", "");
        let tone = if text_eq(result.as_str(), "success") {
            Tone::Green
        } else if text_eq(result.as_str(), "failure") {
            Tone::Red
        } else {
            Tone::Plain
        };
        let initiator = initiator_of(e);
        let target = first_target_of(e);
        rows.push(AuditRow {
            date_time: byte_prefix(dt.as_str(), 26),
            category: truncate(category.as_str(), 17),
            activity: truncate(activity.as_str(), 39),
            initiator: truncate(initiator.as_str(), 39),
            target: truncate(target.as_str(), 29),
            result,
            result_tone: tone,
        });
        i = i + 1;
    }
    rows
}

/// Law: when a credential's end date and the reference instants are ISO-8601
/// texts of instants before the year 10000, the credential counts as expired
/// exactly when it ended before `now`, and as expiring soon exactly when it
/// ends at or after `now` but before `soon`.
pub proof fn lemma_expiry_by_instant(cred: JsonValue, end: int, now: int, soon: int)
    requires
        0 <= end <= u64::MAX,
        0 <= now <= u64::MAX,
        0 <= soon <= u64::MAX,
        civil_of(end).year <= 9999,
        civil_of(now).year <= 9999,
        civil_of(soon).year <= 9999,
        cred.field("endDateTime"@).str_value() == Some(iso8601_text(end)),
    ensures
        expired_count(seq![cred], iso8601_text(now)) == (if end < now { 1nat } else { 0nat }),
        expiring_count(seq![cred], iso8601_text(now), iso8601_text(soon)) == (if now <= end < soon { 1nat } else { 0nat }),
{
    lemma_iso8601_lt_iff(end, now);
    lemma_iso8601_lt_iff(end, soon);
    let one = seq![cred];
    assert(one.drop_last() =~= Seq::<JsonValue>::empty());
    assert(one.last() == cred);
    assert(expired_count(one.drop_last(), iso8601_text(now)) == 0);
    assert(expiring_count(one.drop_last(), iso8601_text(now), iso8601_text(soon)) == 0);
}

} // verus!
