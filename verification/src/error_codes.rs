//! Lookup of Entra sign-in (AADSTS) error codes: a description and a
//! remediation hint for each known code.
use vstd::prelude::*;
use crate::report::{keep_where, lemma_keep_step, lemma_take_all};
use crate::text::{owned, strip_repeated_prefix, text_eq, to_uppercase, trim, trim_start_matches, trimmed, uppercased};

verus! {

/// A known error code.
pub struct ErrorEntry {
    pub code: String,
    pub description: String,
    pub remediation: String,
}

pub open spec fn entry_view(e: ErrorEntry) -> (Seq<char>, Seq<char>, Seq<char>) {
    (e.code@, e.description@, e.remediation@)
}

/// The known codes with their descriptions and remediation hints.
pub open spec fn known_errors() -> Seq<(Seq<char>, Seq<char>, Seq<char>)> {
    seq![
        ("AADSTS50034"@, "User account does not exist in the directory."@,
            "Verify the UPN or ObjectId. The account may have been deleted or is in a different tenant."@),
        ("AADSTS50076"@, "MFA required \u{2014} user must use multi-factor authentication."@,
            "Check Conditional Access policies. If testing, use an MFA-exempt service account or add an exclusion."@),
        ("AADSTS50105"@, "User is not assigned to a role for the application."@,
            "Assign the user (or their group) to the enterprise app under 'Users and groups'."@),
        ("AADSTS65001"@, "The user or administrator has not consented to use the application."@,
            "Grant admin consent at: https://portal.azure.com \u{2192} Enterprise Apps \u{2192} Permissions \u{2192} Grant admin consent."@),
        ("AADSTS70011"@, "Invalid scope \u{2014} the provided value for 'scope' is not valid for this application."@,
            "Check the API permissions registered on the app. Ensure the scope matches exactly (case-sensitive)."@),
        ("AADSTS700016"@, "Application not found in directory. It may not be installed in the tenant."@,
            "Verify the client_id/app registration exists in this tenant. Check for multi-tenant vs single-tenant config."@),
        ("AADSTS90002"@, "Tenant not found \u{2014} either invalid tenant ID or tenant does not support this flow."@,
            "Confirm the tenant ID / domain. Use 'common' or 'organizations' as the authority if multi-tenant."@),
    ]
}

fn entry(code: &str, description: &str, remediation: &str) -> (r: ErrorEntry)
    ensures
        entry_view(r) == (code@, description@, remediation@),
{
    ErrorEntry { code: owned(code), description: owned(description), remediation: owned(remediation) }
}

/// The known codes, in table order.
pub fn error_table() -> (r: Vec<ErrorEntry>)
    ensures
        r@.map_values(|e: ErrorEntry| entry_view(e)) == known_errors(),
{
    let mut t: Vec<ErrorEntry> = Vec::new();
    t.push(entry(
        "AADSTS50034",
        "User account does not exist in the directory.",
        "Verify the UPN or ObjectId. The account may have been deleted or is in a different tenant.",
    ));
    t.push(entry(
        "AADSTS50076",
        "MFA required \u{2014} user must use multi-factor authentication.",
        "Check Conditional Access policies. If testing, use an MFA-exempt service account or add an exclusion.",
    ));
    t.push(entry(
        "AADSTS50105",
        "User is not assigned to a role for the application.",
        "Assign the user (or their group) to the enterprise app under 'Users and groups'.",
    ));
    t.push(entry(
        "AADSTS65001",
        "The user or administrator has not consented to use the application.",
        "Grant admin consent at: https://portal.azure.com \u{2192} Enterprise Apps \u{2192} Permissions \u{2192} Grant admin consent.",
    ));
    t.push(entry(
        "AADSTS70011",
        "Invalid scope \u{2014} the provided value for 'scope' is not valid for this application.",
        "Check the API permissions registered on the app. Ensure the scope matches exactly (case-sensitive).",
    ));
    t.push(entry(
        "AADSTS700016",
        "Application not found in directory. It may not be installed in the tenant.",
        "Verify the client_id/app registration exists in this tenant. Check for multi-tenant vs single-tenant config.",
    ));
    t.push(entry(
        "AADSTS90002",
        "Tenant not found \u{2014} either invalid tenant ID or tenant does not support this flow.",
        "Confirm the tenant ID / domain. Use 'common' or 'organizations' as the authority if multi-tenant.",
    ));
    assert(t@.map_values(|e: ErrorEntry| entry_view(e)) =~= known_errors());
    t
}

/// The code as it is compared: trimmed, then upper-cased.
pub open spec fn normalized_code(code: Seq<char>) -> Seq<char> {
    uppercased(trimmed(code))
}

/// The table entries whose upper-cased code equals the normalized code.
pub open spec fn matching_entries(norm: Seq<char>) -> Seq<(Seq<char>, Seq<char>, Seq<char>)> {
    keep_where(known_errors(), |e: (Seq<char>, Seq<char>, Seq<char>)| uppercased(e.0) == norm)
}

/// What a lookup found.
pub enum LookupResult {
    /// The matching entries, in table order.
    Found(Vec<ErrorEntry>),
    /// No entry matched; `numeric` is the normalized code without leading
    /// "AADSTS", for the online error-code page.
    NotFound { code: String, numeric: String },
}

/// Looks up an error code, ignoring surrounding white space and case.
pub fn lookup(code: &str) -> (r: LookupResult)
    ensures
        match r {
            LookupResult::Found(es) => {
                &&& es@.len() > 0
                &&& es@.map_values(|e: ErrorEntry| entry_view(e)) == matching_entries(normalized_code(code@))
            },
            LookupResult::NotFound { code: c, numeric } => {
                &&& matching_entries(normalized_code(code@)).len() == 0
                &&& c@ == code@
                &&& numeric@ == strip_repeated_prefix(normalized_code(code@), "AADSTS"@)
            },
        },
{
    let trimmed_code = trim(code);
    let normalized = to_uppercase(trimmed_code.as_str());
    let table = error_table();
    let ghost views = table@.map_values(|e: ErrorEntry| entry_view(e));
    let ghost p = |e: (Seq<char>, Seq<char>, Seq<char>)| uppercased(e.0) == normalized@;
    let mut found: Vec<ErrorEntry> = Vec::new();
    let n = table.len();
    let mut i: usize = 0;
    proof {
        assert(views.take(0) =~= Seq::<(Seq<char>, Seq<char>, Seq<char>)>::empty());
    }
    while i < n
        invariant
            n == table@.len(),
            views == table@.map_values(|e: ErrorEntry| entry_view(e)),
            views == known_errors(),
            p == (|e: (Seq<char>, Seq<char>, Seq<char>)| uppercased(e.0) == normalized@),
            i <= n,
            found@.map_values(|e: ErrorEntry| entry_view(e)) == keep_where(views.take(i as int), p),
        decreases n - i,
    {
        proof {
            lemma_keep_step(views, p, i as int);
        }
        let e = &table[i];
        let upper = to_uppercase(e.code.as_str());
        if text_eq(upper.as_str(), normalized.as_str()) {
            let copy = entry(e.code.as_str(), e.description.as_str(), e.remediation.as_str());
            let ghost before = found@;
            found.push(copy);
            proof {
                assert(found@.map_values(|e: ErrorEntry| entry_view(e)) =~= before.map_values(|e: ErrorEntry| entry_view(e)).push(entry_view(copy)));
            }
        }
        i = i + 1;
    }
    proof {
        lemma_take_all(views);
        reveal_strlit("AADSTS");
    }
    if found.len() > 0 {
        LookupResult::Found(found)
    } else {
        LookupResult::NotFound { code: owned(code), numeric: trim_start_matches(normalized.as_str(), "AADSTS") }
    }
}

} // verus!
