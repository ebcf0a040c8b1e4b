//! What a command runs: the Graph queries to make and the report to build
//! from their answers. The front end performs the requests and prints.
use vstd::prelude::*;

verus! {

/// The work a command asks for.
pub enum Plan {
    /// Fetch `path` and show the user's details.
    ShowUser { upn: String, path: String },
    /// Create users from the payload in `file`.
    CreateUser { file: String },
    /// Fetch both paths and show the user's risk summary.
    UserRisk { upn: String, risky_user_path: String, detection_path: String },
    /// Fetch all pages of `path` and run the guest audit; with `stale_days`,
    /// guests without a sign-in in that many days are flagged.
    GuestAudit { stale_days: Option<u64>, path: String },
    /// Fetch the SKUs and all users and run the license report.
    LicenseReport { skus_path: String, users_path: String },
    /// Fetch the active risky users and the recent detections.
    RiskyUsers { users_path: String },
    AdminRoles { path: String },
    CaReport { path: String },
    AppRegistrationAudit { path: String },
    DirectoryAudit { path: String },
    GroupDiff { user1: String, user2: String },
    GroupMemberships { upn: String },
    GroupAdd { upn: String, group: String },
    GroupAudit { path: String },
    BulkSignin { file: String, limit: u32 },
    ComplianceReport { path: String },
    StaleDevices { days: u32, path: String },
}

} // verus!
