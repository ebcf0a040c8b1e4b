//! The command line of `iam`: commands and their arguments. The front end
//! parses the process arguments into these values.
use vstd::prelude::*;

verus! {

/// The parsed command line.
pub struct Cli {
    pub command: Commands,
}

#[allow(inconsistent_fields)]
pub enum Commands {
    User { action: UserCommands },
    Group { action: GroupCommands },
    Signin { action: SigninCommands },
    Error { code: String },
    Auth { action: AuthCommands },
    /// PowerShell-backed utilities (IntuneToolKit wrappers, complex endpoints).
    Ps { action: PsCommands },
    /// Entra ID reports.
    Entra { action: EntraCommands },
    /// Intune device management reports.
    Intune { action: IntuneCommands },
}

pub enum UserCommands {
    Get { upn: String },
    Create { file: String },
    /// Show Identity Protection risk state, last risky sign-in date, and last risky sign-in IP.
    RiskInfo { upn: String },
    /// Audit guest users; with `stale_days`, flag guests without a recent sign-in.
    GuestAudit { stale_days: Option<u64> },
    /// SKU overview and user license analysis.
    LicenseReport,
    /// Active risky users and recent risk detections.
    RiskReport,
}

pub enum GroupCommands {
    Diff { user1: String, user2: String },
    Memberships { upn: String },
    Add { upn: String, group: String },
    /// Group health audit.
    Audit,
}

pub enum SigninCommands {
    Bulk { file: String, limit: u32 },
}

pub enum AuthCommands {
    /// Prompt for tenant_id, client_id and client_secret and store them
    /// (the `set` subcommand).
    SetCredentials,
    /// Clear the stored credentials and prompt for new ones.
    Reset,
}

/// PowerShell-backed commands, running IntuneToolKit scripts.
pub enum PsCommands {
    /// Minimal PowerShell-backed smoke test.
    Hello,
    ComplianceReport { scripts_dir: Option<String>, output: Option<String> },
    PolicyConflict { scripts_dir: Option<String>, output: Option<String> },
    Dashboard { scripts_dir: Option<String>, output: Option<String> },
    BitLockerKeys { scripts_dir: Option<String>, output: Option<String> },
    BulkActions { scripts_dir: Option<String>, action: String, device_ids: String },
    UpdateRingHealth { scripts_dir: Option<String>, output: Option<String> },
    UpdateCompliance { scripts_dir: Option<String>, output: Option<String> },
    GroupPolicies { scripts_dir: Option<String>, output: Option<String> },
    AppRegistrationAudit { scripts_dir: Option<String>, output: Option<String> },
}

/// Entra ID report commands.
pub enum EntraCommands {
    /// List admin role assignments.
    AdminRoles,
    /// Audit guest users.
    GuestAudit { stale_days: Option<u64> },
    /// List risky users.
    RiskyUsers,
    /// Conditional Access policy report.
    CaReport,
    /// App registrations with credential expiry.
    AppRegistrationAudit,
    /// Recent directory audit log entries (at most 200).
    DirectoryAudit { limit: u32 },
    /// Group health audit.
    GroupAudit,
}

/// Intune device management commands.
pub enum IntuneCommands {
    /// Managed device compliance report.
    ComplianceReport,
    /// Devices whose last sync is older than `days` days.
    StaleDevices { days: u32 },
}

} // verus!
