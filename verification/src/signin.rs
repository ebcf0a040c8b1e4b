//! Sign-in commands.
use vstd::prelude::*;
use crate::cli::SigninCommands;
use crate::plan::Plan;

verus! {

/// The work a sign-in command asks for: the bulk sign-in audit of the users
/// listed in `file`, at most `limit` of them.
pub fn handle(action: SigninCommands) -> (r: Plan)
    ensures
        match action {
            SigninCommands::Bulk { file, limit } => r matches Plan::BulkSignin { file: f, limit: l } && f@ == file@ && l == limit,
        },
{
    match action {
        SigninCommands::Bulk { file, limit } => Plan::BulkSignin { file, limit },
    }
}

} // verus!
