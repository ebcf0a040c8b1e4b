use iaministrator::auth::{
    check_new_credentials, keyring_service, stored_credential, token_expiry, token_form, token_url, usable_env_value,
    AuthError, CredentialField, Instant, TokenCache,
};
use iaministrator::error_codes::{error_table, lookup, LookupResult};
use iaministrator::graph::{graph_url, Pager};
use iaministrator::input::{lines_of, parse_upn_list};
use iaministrator::json::JsonValue;
use iaministrator::output::{group_entry, level_tone, state_tone, user_details, user_summary, FieldValue};
use iaministrator::report::Tone;

fn s(x: &str) -> JsonValue {
    JsonValue::Str(x.to_string())
}

fn obj(pairs: Vec<(&str, JsonValue)>) -> JsonValue {
    JsonValue::Object(pairs.into_iter().map(|(k, v)| (k.to_string(), v)).collect())
}

fn page(items: Vec<JsonValue>, next: Option<&str>) -> JsonValue {
    let mut pairs = vec![("value", JsonValue::Array(items))];
    if let Some(n) = next {
        pairs.push(("@odata.nextLink", s(n)));
    }
    obj(pairs)
}

#[test]
fn error_lookup_matches_ignoring_case_and_space() {
    match lookup("  aadsts50034 \n") {
        LookupResult::Found(es) => {
            assert_eq!(es.len(), 1);
            assert_eq!(es[0].code, "AADSTS50034");
            assert_eq!(es[0].description, "User account does not exist in the directory.");
        }
        _ => panic!("expected a match"),
    }
    match lookup("AADSTS99999") {
        LookupResult::NotFound { code, numeric } => {
            assert_eq!(code, "AADSTS99999");
            assert_eq!(numeric, "99999");
        }
        _ => panic!("expected no match"),
    }
    match lookup("bogus") {
        LookupResult::NotFound { numeric, .. } => assert_eq!(numeric, "BOGUS"),
        _ => panic!("expected no match"),
    }
    assert_eq!(error_table().len(), 7);
}

#[test]
fn credential_rules() {
    assert_eq!(check_new_credentials("t", "c", "s"), Ok(()));
    assert_eq!(check_new_credentials("t", "", "s"), Err(AuthError::FieldsRequired));
    assert_eq!(usable_env_value(Some(" tenant ")), Some(" tenant ".to_string()));
    assert_eq!(usable_env_value(Some(" \t ")), None);
    assert_eq!(usable_env_value(None), None);
    assert_eq!(stored_credential(Some("x".to_string()), CredentialField::ClientId), Ok("x".to_string()));
    let missing = stored_credential(None, CredentialField::ClientSecret);
    assert_eq!(missing, Err(AuthError::Missing(CredentialField::ClientSecret)));
    assert_eq!(missing.unwrap_err().message(), "IAM_CLIENT_SECRET not set and no stored client_secret in keyring");
    assert_eq!(AuthError::FieldsRequired.message(), "All credential fields are required");
    assert_eq!(CredentialField::TenantId.keyring_name(), "tenant_id");
    assert_eq!(CredentialField::ClientId.env_var(), "IAM_CLIENT_ID");
    assert_eq!(keyring_service(), "iaministrator");
}

#[test]
fn token_request_and_cache() {
    assert_eq!(token_url("contoso.onmicrosoft.com"), "https://login.microsoftonline.com/contoso.onmicrosoft.com/oauth2/v2.0/token");
    let form = token_form("cid", "secret");
    assert_eq!(form[0], ("grant_type".to_string(), "client_credentials".to_string()));
    assert_eq!(form[3].1, "https://graph.microsoft.com/.default");
    let now = Instant { secs: 1_000, nanos: 5 };
    let exp = token_expiry(now, 3_600).unwrap();
    assert_eq!(exp, Instant { secs: 4_540, nanos: 5 });
    assert_eq!(token_expiry(now, 30), Some(now));
    assert_eq!(token_expiry(Instant { secs: u64::MAX, nanos: 0 }, 61), None);
    let mut cache = TokenCache::new();
    assert_eq!(cache.lookup(now), None);
    cache.store("tok".to_string(), exp);
    assert_eq!(cache.lookup(Instant { secs: 4_540, nanos: 4 }), Some("tok".to_string()));
    assert_eq!(cache.lookup(exp), None);
    cache.clear();
    assert_eq!(cache.lookup(now), None);
}

#[test]
fn pager_follows_next_links() {
    assert_eq!(graph_url("/users"), "https://graph.microsoft.com/v1.0/users");
    let mut p = Pager::start(page(vec![s("a"), s("b")], Some("https://graph.microsoft.com/v1.0/users?$skiptoken=X")));
    assert_eq!(p.next_path(), Some("/users?$skiptoken=X".to_string()));
    p.absorb(page(vec![s("c")], Some("https://other.example/next")));
    assert_eq!(p.next_path(), Some("https://other.example/next".to_string()));
    p.absorb(obj(vec![("value", JsonValue::Null)]));
    assert_eq!(p.next_path(), None);
    let items: Vec<String> = p.into_items().into_iter().map(|v| match v { JsonValue::Str(x) => x, _ => String::new() }).collect();
    assert_eq!(items, vec!["a", "b", "c"]);
}

#[test]
fn upn_lists() {
    assert_eq!(lines_of("a\r\nb\n\nc"), vec!["a", "b", "", "c"]);
    assert_eq!(lines_of("x\n"), vec!["x"]);
    assert_eq!(lines_of(""), Vec::<String>::new());
    assert_eq!(lines_of("tail\r"), vec!["tail\r"]);
    let raw = "# users to audit\n  alice@contoso.com  \r\n\n\tbob@contoso.com\n#carol@contoso.com\n";
    assert_eq!(parse_upn_list(raw), vec!["alice@contoso.com", "bob@contoso.com"]);
}

#[test]
fn user_views() {
    let v = obj(vec![
        ("userPrincipalName", s("a@t")),
        ("proxyAddresses", JsonValue::Array(vec![s("SMTP:a@t"), JsonValue::Number(Some(1)), s("smtp:alias@t")])),
        ("otherMails", JsonValue::Array(vec![s("a@home")])),
        ("accountEnabled", JsonValue::Bool(false)),
        ("jobTitle", JsonValue::Null),
    ]);
    let d = user_details(&v);
    assert_eq!(d.display_name, "<unknown>");
    assert_eq!(d.mail, "<none>");
    assert_eq!(d.aliases, vec!["SMTP:a@t", "smtp:alias@t", "a@home"]);
    assert_eq!(d.last_password_change, "<unknown>");
    let fields = user_summary(&v);
    let keys: Vec<&str> = fields.iter().map(|f| f.key).collect();
    assert_eq!(keys, vec!["userPrincipalName", "accountEnabled", "jobTitle"]);
    assert!(matches!(fields[1].value, FieldValue::Flag(false)));
    assert!(matches!(fields[2].value, FieldValue::Other));
    assert_eq!(fields[0].label, "UPN");
    let g = group_entry(&obj(vec![("id", s("g1"))]));
    assert_eq!((g.name.as_str(), g.id.as_str()), ("<unnamed>", "g1"));
}

#[test]
fn risk_tones() {
    assert_eq!(state_tone("atRisk"), Tone::RedBold);
    assert_eq!(state_tone("dismissed"), Tone::Yellow);
    assert_eq!(state_tone("remediated"), Tone::Green);
    assert_eq!(state_tone("confirmedSafe"), Tone::Green);
    assert_eq!(state_tone("confirmedCompromised"), Tone::RedBold);
    assert_eq!(state_tone("none"), Tone::Yellow);
    assert_eq!(state_tone("unknownFutureValue"), Tone::Yellow);
    assert_eq!(level_tone("high"), Tone::RedBold);
    assert_eq!(level_tone("low"), Tone::Plain);
    assert_eq!(level_tone("hidden"), Tone::Dimmed);
}

#[test]
fn failure_messages_trim_the_body() {
    assert_eq!(
        iaministrator::auth::token_failure_message("400 Bad Request", "  {\"error\":\"invalid_client\"}\n"),
        "Token request failed: 400 Bad Request \u{2013} {\"error\":\"invalid_client\"}"
    );
    assert_eq!(
        iaministrator::graph::request_failure_message("404 Not Found", ""),
        "Graph request failed: 404 Not Found \u{2013} "
    );
}

#[test]
fn lookup_upper_cases_ascii_codes() {
    match lookup(" aadsts50034 ") {
        LookupResult::Found(es) => {
            assert_eq!(es.len(), 1);
            assert_eq!(es[0].description, "User account does not exist in the directory.");
        }
        _ => panic!("expected a match"),
    }
    match lookup("aadsts99999") {
        LookupResult::NotFound { numeric, .. } => assert_eq!(numeric, "99999"),
        _ => panic!("expected no match"),
    }
}
