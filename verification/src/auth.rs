//! Credentials and bearer tokens: where each credential comes from, the
//! checks on newly entered credentials, the token request, and the cache
//! that reuses a token until shortly before it expires.
use vstd::prelude::*;
use crate::text::{owned, trim, trimmed};

verus! {

/// The `auth` commands.
pub enum AuthCommands {
    /// Prompt for the credentials and store them in the OS keyring (`iam auth set`).
    SetCredentials,
    /// Clear the stored credentials and prompt for new ones (`iam auth reset`).
    Reset,
}

/// One of the three credentials.
#[derive(Clone, Copy, Debug, PartialEq, Eq)]
pub enum CredentialField {
    TenantId,
    ClientId,
    ClientSecret,
}

/// Keyring service under which the credentials are stored.
pub fn keyring_service() -> (r: &'static str)
    ensures
        r@ == "iaministrator"@,
{
    "iaministrator"
}

impl CredentialField {
    /// Keyring entry name of the credential.
    pub fn keyring_name(self) -> (r: &'static str)
        ensures
            r@ == match self {
                CredentialField::TenantId => "tenant_id"@,
                CredentialField::ClientId => "client_id"@,
                CredentialField::ClientSecret => "client_secret"@,
            },
    {
        match self {
            CredentialField::TenantId => "tenant_id",
            CredentialField::ClientId => "client_id",
            CredentialField::ClientSecret => "client_secret",
        }
    }

    /// Environment variable that overrides the stored credential.
    pub fn env_var(self) -> (r: &'static str)
        ensures
            r@ == match self {
                CredentialField::TenantId => "IAM_TENANT_ID"@,
                CredentialField::ClientId => "IAM_CLIENT_ID"@,
                CredentialField::ClientSecret => "IAM_CLIENT_SECRET"@,
            },
    {
        match self {
            CredentialField::TenantId => "IAM_TENANT_ID",
            CredentialField::ClientId => "IAM_CLIENT_ID",
            CredentialField::ClientSecret => "IAM_CLIENT_SECRET",
        }
    }
}

/// Why credentials could not be had.
#[derive(Clone, Copy, Debug, PartialEq, Eq)]
pub enum AuthError {
    /// A newly entered credential was empty.
    FieldsRequired,
    /// The credential is neither in the environment nor in the keyring.
    Missing(CredentialField),
}

impl AuthError {
    /// The message shown for the error.
    pub fn message(&self) -> (r: &'static str)
        ensures
            r@ == match self {
                AuthError::FieldsRequired => "All credential fields are required"@,
                AuthError::Missing(CredentialField::TenantId) => "IAM_TENANT_ID not set and no stored tenant_id in keyring"@,
                AuthError::Missing(CredentialField::ClientId) => "IAM_CLIENT_ID not set and no stored client_id in keyring"@,
                AuthError::Missing(CredentialField::ClientSecret) => "IAM_CLIENT_SECRET not set and no stored client_secret in keyring"@,
            },
    {
        match self {
            AuthError::FieldsRequired => "All credential fields are required",
            AuthError::Missing(CredentialField::TenantId) => "IAM_TENANT_ID not set and no stored tenant_id in keyring",
            AuthError::Missing(CredentialField::ClientId) => "IAM_CLIENT_ID not set and no stored client_id in keyring",
            AuthError::Missing(CredentialField::ClientSecret) => "IAM_CLIENT_SECRET not set and no stored client_secret in keyring",
        }
    }
}

/// Newly entered credentials are accepted only when none is empty.
pub fn check_new_credentials(tenant_id: &str, client_id: &str, client_secret: &str) -> (r: Result<(), AuthError>)
    ensures
        r is Ok <==> (tenant_id@.len() > 0 && client_id@.len() > 0 && client_secret@.len() > 0),
        r is Err ==> r == Err::<(), AuthError>(AuthError::FieldsRequired),
{
    if tenant_id.unicode_len() == 0 || client_id.unicode_len() == 0 || client_secret.unicode_len() == 0 {
        Err(AuthError::FieldsRequired)
    } else {
        Ok(())
    }
}

/// The value of an environment variable, when it is set and not blank.
pub fn usable_env_value(value: Option<&str>) -> (r: Option<String>)
    ensures
        match value {
            Some(v) => if trimmed(v@).len() > 0 { r matches Some(s) && s@ == v@ } else { r is None },
            None => r is None,
        },
{
    match value {
        Some(v) => {
            let t = trim(v);
            if t.unicode_len() > 0 { Some(owned(v)) } else { None }
        },
        None => None,
    }
}

/// The stored value of a credential, or the error naming it.
pub fn stored_credential(stored: Option<String>, field: CredentialField) -> (r: Result<String, AuthError>)
    ensures
        match stored {
            Some(v) => r matches Ok(s) && s@ == v@,
            None => r == Err::<String, AuthError>(AuthError::Missing(field)),
        },
{
    match stored {
        Some(v) => Ok(v),
        None => Err(AuthError::Missing(field)),
    }
}

/// The OAuth 2.0 token endpoint of a tenant.
pub fn token_url(tenant_id: &str) -> (r: String)
    ensures
        r@ == "https://login.microsoftonline.com/"@ + tenant_id@ + "/oauth2/v2.0/token"@,
{
    let mut u = owned("https://login.microsoftonline.com/");
    u.append(tenant_id);
    u.append("/oauth2/v2.0/token");
    u
}

/// The error of a token request answered with an unsuccessful status: the
/// status as shown (such as "400 Bad Request") and the answer's body without
/// surrounding white space.
pub fn token_failure_message(status: &str, body: &str) -> (r: String)
    ensures
        r@ == "Token request failed: "@ + status@ + " \u{2013} "@ + trimmed(body@),
{
    let mut m = owned("Token request failed: ");
    m.append(status);
    m.append(" \u{2013} ");
    let b = trim(body);
    m.append(b.as_str());
    m
}

/// Form fields of a client-credentials token request for Microsoft Graph.
pub fn token_form(client_id: &str, client_secret: &str) -> (r: Vec<(String, String)>)
    ensures
        r@.len() == 4,
        r@[0].0@ == "grant_type"@ && r@[0].1@ == "client_credentials"@,
        r@[1].0@ == "client_id"@ && r@[1].1@ == client_id@,
        r@[2].0@ == "client_secret"@ && r@[2].1@ == client_secret@,
        r@[3].0@ == "scope"@ && r@[3].1@ == "https://graph.microsoft.com/.default"@,
{
    let mut f: Vec<(String, String)> = Vec::new();
    f.push((owned("grant_type"), owned("client_credentials")));
    f.push((owned("client_id"), owned(client_id)));
    f.push((owned("client_secret"), owned(client_secret)));
    f.push((owned("scope"), owned("https://graph.microsoft.com/.default")));
    f
}

/// A point in time: seconds and nanoseconds since the Unix epoch.
#[derive(Clone, Copy, Debug, PartialEq, Eq)]
pub struct Instant {
    pub secs: u64,
    pub nanos: u32,
}

impl Instant {
    pub open spec fn before(self, other: Instant) -> bool {
        self.secs < other.secs || (self.secs == other.secs && self.nanos < other.nanos)
    }
}

/// When a token obtained at `now` and valid for `expires_in` seconds stops
/// being reused: one minute early (at `now` for lifetimes under a minute).
/// `None` when that instant is not representable.
pub fn token_expiry(now: Instant, expires_in: u64) -> (r: Option<Instant>)
    ensures
        ({
            let life = if expires_in >= 60 { expires_in - 60 } else { 0 };
            &&& now.secs + life <= u64::MAX ==> r == Some(Instant { secs: (now.secs + life) as u64, nanos: now.nanos })
            &&& now.secs + life > u64::MAX ==> r is None
        }),
{
    let life = if expires_in >= 60 { expires_in - 60 } else { 0 };
    if now.secs > u64::MAX - life {
        None
    } else {
        Some(Instant { secs: now.secs + life, nanos: now.nanos })
    }
}

/// A bearer token and the instant until which it is reused.
pub struct CachedToken {
    pub token: String,
    pub expires_at: Instant,
}

/// The process-wide token cache.
pub struct TokenCache {
    pub cached: Option<CachedToken>,
}

impl TokenCache {
    /// The token the cache hands out at `now`.
    pub open spec fn serves(self, now: Instant) -> Option<Seq<char>> {
        match self.cached {
            Some(c) => if now.before(c.expires_at) { Some(c.token@) } else { None },
            None => None,
        }
    }

    /// An empty cache.
    pub fn new() -> (r: TokenCache)
        ensures
            r.cached is None,
    {
        TokenCache { cached: None }
    }

    /// The cached token, when there is one and `now` is before its expiry.
    pub fn lookup(&self, now: Instant) -> (r: Option<String>)
        ensures
            match self.serves(now) {
                Some(t) => r matches Some(s) && s@ == t,
                None => r is None,
            },
    {
        match &self.cached {
            Some(c) => {
                if now.secs < c.expires_at.secs || (now.secs == c.expires_at.secs && now.nanos < c.expires_at.nanos) {
                    Some(c.token.clone())
                } else {
                    None
                }
            },
            None => None,
        }
    }

    /// Remembers a new token until `expires_at`, replacing any other.
    pub fn store(&mut self, token: String, expires_at: Instant)
        ensures
            final(self).cached matches Some(c) && c.token@ == token@ && c.expires_at == expires_at,
    {
        self.cached = Some(CachedToken { token, expires_at });
    }

    /// Forgets the cached token (after the credentials change).
    pub fn clear(&mut self)
        ensures
            final(self).cached is None,
    {
        self.cached = None;
    }
}

/// Law: once a token is stored, the cache hands it out for every instant
/// before its expiry and for none at or after it; after `clear` it hands out
/// nothing.
pub proof fn lemma_cache_serves_until_expiry(token: String, expires_at: Instant, now: Instant)
    ensures
        (TokenCache { cached: Some(CachedToken { token, expires_at }) }).serves(now)
            == if now.before(expires_at) { Some(token@) } else { None::<Seq<char>> },
        (TokenCache { cached: None }).serves(now) is None,
{
}

} // verus!
