//! Intune device reports: compliance of managed devices, and devices whose
//! last sync is older than a number of days.
use vstd::prelude::*;
use vstd::utf8::encode_utf8;
use crate::civil_time::system_clock;
use crate::cli::IntuneCommands;
use crate::json::JsonValue;
use crate::plan::Plan;
use crate::report::{count_where, keep_where, lemma_count_step, lemma_keep_step, lemma_take_all, Tone};
use crate::text::{owned, text_eq};

verus! {

pub open spec fn compliance_devices_path() -> Seq<char> {
    "/deviceManagement/managedDevices?$select=deviceName,userPrincipalName,complianceState,operatingSystem,osVersion,lastSyncDateTime&$top=999"@
}

pub open spec fn sync_devices_path() -> Seq<char> {
    "/deviceManagement/managedDevices?$select=deviceName,userPrincipalName,lastSyncDateTime,operatingSystem,complianceState&$top=999"@
}

/// The work an Intune command asks for.
pub fn handle(action: IntuneCommands) -> (r: Plan)
    ensures
        match action {
            IntuneCommands::ComplianceReport => r matches Plan::ComplianceReport { path } && path@ == compliance_devices_path(),
            IntuneCommands::StaleDevices { days } => r matches Plan::StaleDevices { days: d, path } && d == days
                && path@ == sync_devices_path(),
        },
{
    match action {
        IntuneCommands::ComplianceReport => Plan::ComplianceReport {
            path: owned("/deviceManagement/managedDevices?$select=deviceName,userPrincipalName,complianceState,operatingSystem,osVersion,lastSyncDateTime&$top=999"),
        },
        IntuneCommands::StaleDevices { days } => Plan::StaleDevices {
            days,
            path: owned("/deviceManagement/managedDevices?$select=deviceName,userPrincipalName,lastSyncDateTime,operatingSystem,complianceState&$top=999"),
        },
    }
}

// ---------------------------------------------------------------------------
// Compliance
// ---------------------------------------------------------------------------

pub open spec fn compliance_state(d: JsonValue) -> Seq<char> {
    d.str_or("complianceState"@, "unknown"@)
}

/// Emphasis of a compliance state: compliant green, noncompliant red, others yellow.
pub open spec fn compliance_tone(state: Seq<char>) -> Tone {
    if state == "compliant"@ {
        Tone::Green
    } else if state == "noncompliant"@ {
        Tone::Red
    } else {
        Tone::Yellow
    }
}

/// One managed device.
pub struct DeviceRow {
    pub name: String,
    pub upn: String,
    pub state: String,
    pub state_tone: Tone,
    pub os: String,
    pub last_sync: String,
}

pub open spec fn device_row_shows(r: DeviceRow, d: JsonValue) -> bool {
    &&& r.name@ == d.str_or("deviceName"@, ""@)
    &&& r.upn@ == d.str_or("userPrincipalName"@, ""@)
    &&& r.state@ == compliance_state(d)
    &&& r.state_tone == compliance_tone(compliance_state(d))
    &&& r.os@ == d.str_or("operatingSystem"@, ""@)
    &&& r.last_sync@ == d.str_or("lastSyncDateTime"@, ""@)
}

/// The compliance report.
pub struct ComplianceReport {
    pub rows: Vec<DeviceRow>,
    pub total: usize,
    pub compliant: usize,
    pub noncompliant: usize,
}

/// One row per device and the compliant and non-compliant counts.
pub fn compliance_report(devices: &Vec<JsonValue>) -> (r: ComplianceReport)
    ensures
        r.rows@.len() == devices@.len(),
        forall|i: int| 0 <= i < devices@.len() ==> device_row_shows(#[trigger] r.rows@[i], devices@[i]),
        r.total == devices@.len(),
        r.compliant == count_where(devices@, |d: JsonValue| compliance_state(d) == "compliant"@),
        r.noncompliant == count_where(devices@, |d: JsonValue| compliance_state(d) == "noncompliant"@),
{
    let ghost pc = |d: JsonValue| compliance_state(d) == "compliant"@;
    let ghost pn = |d: JsonValue| compliance_state(d) == "noncompliant"@;
    let n = devices.len();
    let mut rows: Vec<DeviceRow> = Vec::new();
    let mut compliant: usize = 0;
    let mut noncompliant: usize = 0;
    let mut i: usize = 0;
    while i < n
        invariant
            n == devices@.len(),
            i <= n,
            pc == (|d: JsonValue| compliance_state(d) == "compliant"@),
            pn == (|d: JsonValue| compliance_state(d) == "noncompliant"@),
            rows@.len() == i,
            forall|k: int| 0 <= k < i ==> device_row_shows(#[trigger] rows@[k], devices@[k]),
            compliant == count_where(devices@.take(i as int), pc),
            noncompliant == count_where(devices@.take(i as int), pn),
        decreases n - i,
    {
        let d = &devices[i];
        proof {
            lemma_count_step(devices@, pc, i as int);
            lemma_count_step(devices@, pn, i as int);
            reveal_strlit("compliant");
            reveal_strlit("noncompliant");
            assert("compliant"@.len() != "noncompliant"@.len());
        }
        let state = d.str_or_default("complianceState", "unknown");
        let tone = if text_eq(state.as_str(), "compliant") {
            compliant = compliant + 1;
            Tone::Green
        } else if text_eq(state.as_str(), "noncompliant") {
            noncompliant = noncompliant + 1;
            Tone::Red
        } else {
            Tone::Yellow
        };
        rows.push(DeviceRow {
            name: d.str_or_default("deviceName", ""),
            upn: d.str_or_default("userPrincipalName", ""),
            state,
            state_tone: tone,
            os: d.str_or_default("operatingSystem", ""),
            last_sync: d.str_or_default("lastSyncDateTime", ""),
        });
        i = i + 1;
    }
    proof {
        lemma_take_all(devices@);
    }
    ComplianceReport { rows, total: n, compliant, noncompliant }
}

// ---------------------------------------------------------------------------
// Stale devices
// ---------------------------------------------------------------------------

/// What `chrono::DateTime::parse_from_rfc3339` makes of a text: `None` when
/// it is not RFC 3339, otherwise the instant as seconds since the Unix epoch
/// and nanoseconds within the second.
pub uninterp spec fn rfc3339_instant(s: Seq<char>) -> Option<(i64, u32)>;

/// The fewest bytes an RFC 3339 date-time takes ("YYYY-MM-DDTHH:MM:SS"
/// before its offset).
pub open spec fn rfc3339_min_bytes() -> nat {
    19
}

/// Calls `chrono::DateTime::parse_from_rfc3339` and reads the instant with
/// `timestamp` and `timestamp_subsec_nanos`; the contract names the result
/// `rfc3339_instant`, and states that a text of fewer than 19 bytes (the
/// empty text among them) is refused, which the parser checks first.
#[verifier::external_body]
fn parse_rfc3339(s: &str) -> (r: Option<(i64, u32)>)
    ensures
        r == rfc3339_instant(s@),
        encode_utf8(s@).len() < rfc3339_min_bytes() ==> r is None,
{
    match chrono::DateTime::parse_from_rfc3339(s) {
        Ok(dt) => Some((dt.timestamp(), dt.timestamp_subsec_nanos())),
        Err(_) => None,
    }
}

/// The instant of a clock reading (as `system_clock` gives it) in seconds
/// since the Unix epoch, rounded down, and nanoseconds within the second, the
/// way `DateTime<Utc>` holds it; `None` when the seconds do not fit in an `i64`.
pub open spec fn clock_instant(c: Result<(u64, u32), (u64, u32)>) -> Option<(i64, u32)> {
    match c {
        Ok(d) => if d.0 <= i64::MAX { Some((d.0 as i64, d.1)) } else { None },
        Err(d) => if d.1 == 0 {
            if -d.0 >= i64::MIN { Some(((-d.0) as i64, 0u32)) } else { None }
        } else {
            if -d.0 - 1 >= i64::MIN { Some(((-d.0 - 1) as i64, (1_000_000_000 - d.1) as u32)) } else { None }
        },
    }
}

fn instant_of_clock(c: Result<(u64, u32), (u64, u32)>) -> (r: Option<(i64, u32)>)
    requires
        match c {
            Ok(d) => d.1 < 1_000_000_000,
            Err(d) => d.1 < 1_000_000_000,
        },
    ensures
        r == clock_instant(c),
{
    match c {
        Ok(d) => if d.0 <= i64::MAX as u64 { Some((d.0 as i64, d.1)) } else { None },
        Err(d) => if d.1 == 0 {
            if d.0 <= i64::MAX as u64 {
                Some((-(d.0 as i64), 0))
            } else if d.0 == i64::MAX as u64 + 1 {
                Some((i64::MIN, 0))
            } else {
                None
            }
        } else {
            if d.0 <= i64::MAX as u64 { Some((-(d.0 as i64) - 1, 1_000_000_000 - d.1)) } else { None }
        },
    }
}

/// Instants compared as (seconds, nanoseconds), the order of `DateTime<Utc>`.
pub open spec fn instant_lt(a: (i64, u32), b: (i64, u32)) -> bool {
    a.0 < b.0 || (a.0 == b.0 && a.1 < b.1)
}

/// The earliest instant a `chrono` date-time holds, -262143-01-01T00:00:00Z,
/// in seconds since the Unix epoch.
pub const EARLIEST_INSTANT_SECS: i64 = -8_334_601_228_800;

/// What `DateTime<Utc> - TimeDelta::days(days)` gives: the same time of day
/// `days` whole days earlier, or nothing (a panic there) when that falls
/// before the earliest instant.
pub open spec fn days_before_instant(now: (i64, u32), days: u32) -> Option<(i64, u32)> {
    if now.0 - days * 86400 >= EARLIEST_INSTANT_SECS {
        Some(((now.0 - days * 86400) as i64, now.1))
    } else {
        None
    }
}

/// The instant `days` whole days before `now`.
pub fn stale_cutoff(now: (i64, u32), days: u32) -> (r: Option<(i64, u32)>)
    ensures
        r == days_before_instant(now, days),
{
    let span: i64 = days as i64 * 86400;
    if now.0 < EARLIEST_INSTANT_SECS + span {
        None
    } else {
        Some((now.0 - span, now.1))
    }
}

/// The instant `days` whole days before the time of the call. The clock is
/// read once, also when it is set before the Unix epoch; whatever it gave,
/// the result is that instant moved back, or `None` when there is none.
pub fn stale_cutoff_now(days: u32) -> (r: Option<(i64, u32)>)
    ensures
        exists|c: Result<(u64, u32), (u64, u32)>| r == match #[trigger] clock_instant(c) {
            Some(now) => days_before_instant(now, days),
            None => None,
        },
{
    let c = system_clock();
    match instant_of_clock(c) {
        Some(now) => stale_cutoff(now, days),
        None => None,
    }
}

/// A device is stale when its last sync cannot be read as RFC 3339 or is
/// before the cutoff.
pub open spec fn device_is_stale(d: JsonValue, cutoff: (i64, u32)) -> bool {
    match rfc3339_instant(d.str_or("lastSyncDateTime"@, ""@)) {
        Some(t) => instant_lt(t, cutoff),
        None => true,
    }
}

/// One stale device.
pub struct StaleDeviceRow {
    pub name: String,
    pub upn: String,
    pub last_sync: String,
    pub os: String,
}

pub open spec fn stale_row_shows(r: StaleDeviceRow, d: JsonValue) -> bool {
    &&& r.name@ == d.str_or("deviceName"@, ""@)
    &&& r.upn@ == d.str_or("userPrincipalName"@, ""@)
    &&& r.last_sync@ == d.str_or("lastSyncDateTime"@, ""@)
    &&& r.os@ == d.str_or("operatingSystem"@, ""@)
}

/// The stale devices, in list order, and how many there are.
pub struct StaleDevices {
    pub rows: Vec<StaleDeviceRow>,
    pub count: usize,
}

/// The devices whose last sync is before `cutoff` or unreadable.
pub fn stale_devices_report(devices: &Vec<JsonValue>, cutoff: (i64, u32)) -> (r: StaleDevices)
    ensures
        r.rows@.len() == keep_where(devices@, |d: JsonValue| device_is_stale(d, cutoff)).len(),
        forall|j: int| 0 <= j < r.rows@.len() ==> stale_row_shows(
            #[trigger] r.rows@[j],
            keep_where(devices@, |d: JsonValue| device_is_stale(d, cutoff))[j],
        ),
        r.count == r.rows@.len(),
        forall|i: int| 0 <= i < devices@.len() && encode_utf8(devices@[i].str_or("lastSyncDateTime"@, ""@)).len() < rfc3339_min_bytes()
            ==> device_is_stale(#[trigger] devices@[i], cutoff),
{
    let ghost ps = |d: JsonValue| device_is_stale(d, cutoff);
    let n = devices.len();
    let mut rows: Vec<StaleDeviceRow> = Vec::new();
    let mut i: usize = 0;
    while i < n
        invariant
            n == devices@.len(),
            i <= n,
            ps == (|d: JsonValue| device_is_stale(d, cutoff)),
            rows@.len() == keep_where(devices@.take(i as int), ps).len(),
            forall|j: int| 0 <= j < rows@.len() ==> stale_row_shows(#[trigger] rows@[j], keep_where(devices@.take(i as int), ps)[j]),
            forall|k: int| 0 <= k < i && encode_utf8(devices@[k].str_or("lastSyncDateTime"@, ""@)).len() < rfc3339_min_bytes()
                ==> device_is_stale(#[trigger] devices@[k], cutoff),
        decreases n - i,
    {
        let d = &devices[i];
        proof {
            lemma_keep_step(devices@, ps, i as int);
        }
        let sync = d.str_or_default("lastSyncDateTime", "");
        let stale = match parse_rfc3339(sync.as_str()) {
            Some(t) => t.0 < cutoff.0 || (t.0 == cutoff.0 && t.1 < cutoff.1),
            None => true,
        };
        if stale {
            rows.push(StaleDeviceRow {
                name: d.str_or_default("deviceName", ""),
                upn: d.str_or_default("userPrincipalName", ""),
                last_sync: sync,
                os: d.str_or_default("operatingSystem", ""),
            });
        }
        i = i + 1;
    }
    proof {
        lemma_take_all(devices@);
    }
    let count = rows.len();
    StaleDevices { rows, count }
}

} // verus!
