//! Verified core of the `iam` command-line tool for Microsoft Entra ID and
//! Intune administration: the report computations, the Graph query plans,
//! the credential and token-cache decisions and the text handling that the
//! terminal front end relies on.
pub mod text;
pub mod civil_time;
pub mod json;
pub mod report;
pub mod user;
pub mod cli;
pub mod plan;
pub mod group;
pub mod entra;
pub mod intune;
pub mod error_codes;
pub mod auth;
pub mod graph;
pub mod input;
pub mod output;
pub mod signin;
