# iaministrator

`iam` is a command-line tool for Microsoft Entra ID and Intune administration
through Microsoft Graph: user, guest, licence and risk reports, group audits,
sign-in lookups, directory and app-registration audits, device compliance and
stale-device reports, and sign-in error-code lookup.

## Layout

- `src/`: the library, written in Verus. Every report is a verified function
  from the Graph JSON it reads (`json::JsonValue`) to the rows, counts and
  colours it prints; each command becomes a `plan::Plan` (which Graph paths to
  fetch and which report to build). Credentials, token caching (`auth`),
  paging (`graph`), the ISO-8601 clock arithmetic (`civil_time`), list-file
  parsing (`input`) and display helpers (`text`, `output`) are verified too.
  Calls into `std` and `chrono` that the logic needs stand behind small
  trusted wrappers whose contracts say what the called function returns.
- `app/`: the terminal program around the library: argument parsing (clap),
  HTTP (reqwest), the OS keyring, prompts, JSON decoding (serde_json),
  coloured printing, and running the plans.
- `tests/`: tests of the library on concrete values.
