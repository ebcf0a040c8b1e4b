//! User commands: user-type classification, the parsed user row, the guest
//! audit, the license report, the risky-users report and the per-user risk
//! summary, together with the Graph queries they run.
use vstd::prelude::*;
use vstd::utf8::encode_utf8;
use crate::cli::UserCommands;
use crate::json::JsonValue;
use crate::plan::Plan;
use crate::report::{count_where, joined, keep_where, lemma_count_step, lemma_keep_step, lemma_take_all, Tone};
use crate::civil_time::{civil_of, iso8601_text, lemma_iso8601_lt_iff};
use crate::text::{
    byte_prefix, byte_prefix_of, byte_prefix_ok, eq_ignoring_ascii_case, has_substring, is_ascii_text, lex_lt, lowercased, owned,
    text_contains, text_eq, text_eq_ignore_ascii_case, text_lt, to_lowercase, truncate, truncated,
    is_stable_sort_order, stable_sort_order,
};

verus! {

// ---------------------------------------------------------------------------
// User type model
// ---------------------------------------------------------------------------

/// Classification of an Entra ID user account.
#[derive(Debug, PartialEq, Eq)]
pub enum UserType {
    Member,
    Guest,
    Unknown(String),
}

/// `t` is the classification of the Graph `userType` text `text`: compared
/// after Unicode lower-casing, "member" and "guest" are recognised and any
/// other text is kept, lower-cased.
pub open spec fn classifies(t: UserType, text: Seq<char>) -> bool {
    let l = lowercased(text);
    match t {
        UserType::Member => l == "member"@,
        UserType::Guest => l == "guest"@ && l != "member"@,
        UserType::Unknown(u) => u@ == l && l != "member"@ && l != "guest"@,
    }
}

/// The label shown for the classification of `text`.
pub open spec fn user_type_label(text: Seq<char>) -> Seq<char> {
    let l = lowercased(text);
    if l == "member"@ {
        "Member"@
    } else if l == "guest"@ {
        "Guest"@
    } else {
        l
    }
}

impl UserType {
    /// Classifies a Graph `userType` value, ignoring case.
    pub fn from_str(s: &str) -> (r: UserType)
        ensures
            classifies(r, s@),
    {
        let l = to_lowercase(s);
        if text_eq(l.as_str(), "member") {
            UserType::Member
        } else if text_eq(l.as_str(), "guest") {
            UserType::Guest
        } else {
            UserType::Unknown(l)
        }
    }

    /// Display label: "Member", "Guest", or the unrecognised text itself.
    pub fn label(&self) -> (r: &str)
        ensures
            match self {
                UserType::Member => r@ == "Member"@,
                UserType::Guest => r@ == "Guest"@,
                UserType::Unknown(s) => r@ == s@,
            },
    {
        match self {
            UserType::Member => "Member",
            UserType::Guest => "Guest",
            UserType::Unknown(s) => s.as_str(),
        }
    }
}

/// The two classifications are the same: the same variant, and for an
/// unrecognised type the same text.
pub open spec fn same_user_type(a: UserType, b: UserType) -> bool {
    match (a, b) {
        (UserType::Member, UserType::Member) => true,
        (UserType::Guest, UserType::Guest) => true,
        (UserType::Unknown(x), UserType::Unknown(y)) => x@ == y@,
        _ => false,
    }
}

/// Law: classifying the label of a classification gives that classification
/// back, for Member, Guest and every unrecognised type whose text is already
/// in lower case and is neither "member" nor "guest" (the texts `from_str`
/// keeps).
pub proof fn lemma_label_round_trip(t: UserType, label: Seq<char>, back: UserType)
    requires
        match t {
            UserType::Member => label == "Member"@,
            UserType::Guest => label == "Guest"@,
            UserType::Unknown(u) => label == u@ && lowercased(u@) == u@ && u@ != "member"@ && u@ != "guest"@,
        },
        classifies(back, label),
    ensures
        same_user_type(back, t),
{
    reveal_strlit("Member");
    reveal_strlit("member");
    reveal_strlit("Guest");
    reveal_strlit("guest");
    assert("member"@ != "guest"@) by {
        assert("member"@.len() != "guest"@.len());
    }
    match t {
        UserType::Member => {
            assert(is_ascii_text("Member"@));
            assert(lowercased("Member"@) =~= "member"@);
        },
        UserType::Guest => {
            assert(is_ascii_text("Guest"@));
            assert(lowercased("Guest"@) =~= "guest"@);
        },
        UserType::Unknown(u) => {},
    }
}

proof fn lemma_label_of_classification(t: UserType, text: Seq<char>, r: Seq<char>)
    requires
        classifies(t, text),
        match t {
            UserType::Member => r == "Member"@,
            UserType::Guest => r == "Guest"@,
            UserType::Unknown(s) => r == s@,
        },
    ensures
        r == user_type_label(text),
{
}

// ---------------------------------------------------------------------------
// Shared user row
// ---------------------------------------------------------------------------

/// A lightweight, parsed user row shared between guest audit and license report.
pub struct UserRow {
    pub display_name: String,
    pub upn: String,
    pub mail: String,
    pub created: String,
    pub user_type: UserType,
    pub account_enabled: bool,
}

impl UserRow {
    /// The row holds the fields of the Graph user object `u`, with "" for a
    /// missing text field and `false` for a missing `accountEnabled`.
    pub open spec fn parsed_from(self, u: JsonValue) -> bool {
        &&& self.display_name@ == u.str_or("displayName"@, ""@)
        &&& self.upn@ == u.str_or("userPrincipalName"@, ""@)
        &&& self.mail@ == u.str_or("mail"@, ""@)
        &&& self.created@ == u.str_or("createdDateTime"@, ""@)
        &&& classifies(self.user_type, u.str_or("userType"@, ""@))
        &&& self.account_enabled == u.bool_or("accountEnabled"@, false)
    }
}

/// Parses a Graph user object into a `UserRow`.
/// Field set assumed: displayName, userPrincipalName, mail, createdDateTime,
/// userType, accountEnabled.
pub fn parse_user_row(u: &JsonValue) -> (r: UserRow)
    ensures
        r.parsed_from(*u),
{
    let user_type_text = u.str_or_default("userType", "");
    UserRow {
        display_name: u.str_or_default("displayName", ""),
        upn: u.str_or_default("userPrincipalName", ""),
        mail: u.str_or_default("mail", ""),
        created: u.str_or_default("createdDateTime", ""),
        user_type: UserType::from_str(user_type_text.as_str()),
        account_enabled: u.bool_or_default("accountEnabled", false),
    }
}

// ---------------------------------------------------------------------------
// Guest audit
// ---------------------------------------------------------------------------

/// `$select` fields of the guest query; `signInActivity` only when staleness is checked.
pub open spec fn guest_select(with_sign_in: bool) -> Seq<char> {
    if with_sign_in {
        "id,userPrincipalName,displayName,mail,createdDateTime,externalUserState,accountEnabled,userType,signInActivity"@
    } else {
        "id,userPrincipalName,displayName,mail,createdDateTime,externalUserState,accountEnabled,userType"@
    }
}

/// Graph path listing all guest users.
pub fn guest_audit_path(with_sign_in: bool) -> (r: String)
    ensures
        r@ == "/users?$filter=userType eq 'Guest'&$select="@ + guest_select(with_sign_in) + "&$top=999"@,
{
    let mut p = owned("/users?$filter=userType eq 'Guest'&$select=");
    if with_sign_in {
        p.append("id,userPrincipalName,displayName,mail,createdDateTime,externalUserState,accountEnabled,userType,signInActivity");
    } else {
        p.append("id,userPrincipalName,displayName,mail,createdDateTime,externalUserState,accountEnabled,userType");
    }
    p.append("&$top=999");
    p
}

/// `signInActivity.lastSignInDateTime` of a guest, or "" when absent.
pub open spec fn last_sign_in_of(g: JsonValue) -> Seq<char> {
    g.field("signInActivity"@).str_or("lastSignInDateTime"@, ""@)
}

/// A guest is stale when it never signed in or last signed in before the cutoff.
pub open spec fn guest_is_stale(g: JsonValue, cutoff: Seq<char>) -> bool {
    last_sign_in_of(g).len() == 0 || lex_lt(last_sign_in_of(g), cutoff)
}

/// Emphasis of an invitation state.
pub open spec fn invite_tone(state: Seq<char>) -> Tone {
    if state == "Accepted"@ {
        Tone::Green
    } else if state == "PendingAcceptance"@ {
        Tone::Yellow
    } else {
        Tone::Plain
    }
}

/// The guest's record can be shown (the 24-byte cuts fall on character boundaries).
pub open spec fn guest_printable(g: JsonValue, check_stale: bool) -> bool {
    &&& byte_prefix_ok(g.str_or("createdDateTime"@, ""@), 24)
    &&& check_stale ==> byte_prefix_ok(last_sign_in_of(g), 24)
}

/// One row of the guest audit.
pub struct GuestLine {
    /// UPN cut to the column width (45 with staleness, 49 without).
    pub upn: String,
    /// Mail cut to the column width (31 with staleness, 34 without).
    pub mail: String,
    /// The first 24 bytes of `createdDateTime`.
    pub created: String,
    pub enabled: bool,
    pub invite_state: String,
    pub invite_tone: Tone,
    /// Whether the guest is stale; `None` when staleness is not checked.
    pub stale: Option<bool>,
    /// The first 24 bytes of the last sign-in; `None` for "never" or when
    /// staleness is not checked.
    pub last_sign_in: Option<String>,
    pub user_type: String,
}

impl GuestLine {
    pub open spec fn shows(self, g: JsonValue, cutoff: Option<Seq<char>>) -> bool {
        let stale_mode = cutoff is Some;
        let last = last_sign_in_of(g);
        &&& self.upn@ == truncated(g.str_or("userPrincipalName"@, ""@), if stale_mode { 45 } else { 49 })
        &&& self.mail@ == truncated(g.str_or("mail"@, ""@), if stale_mode { 31 } else { 34 })
        &&& encode_utf8(self.created@) == byte_prefix_of(g.str_or("createdDateTime"@, ""@), 24)
        &&& self.enabled == g.bool_or("accountEnabled"@, false)
        &&& self.invite_state@ == g.str_or("externalUserState"@, ""@)
        &&& self.invite_tone == invite_tone(g.str_or("externalUserState"@, ""@))
        &&& self.user_type@ == user_type_label(g.str_or("userType"@, ""@))
        &&& match cutoff {
            Some(c) => {
                &&& self.stale == Some(guest_is_stale(g, c))
                &&& last.len() == 0 ==> self.last_sign_in is None
                &&& last.len() > 0 ==> (self.last_sign_in matches Some(t) && encode_utf8(t@) == byte_prefix_of(last, 24))
            },
            None => self.stale is None && self.last_sign_in is None,
        }
    }
}

/// The guest audit: one row per guest and the summary counts.
pub struct GuestAudit {
    pub lines: Vec<GuestLine>,
    pub total: usize,
    pub disabled: usize,
    pub pending: usize,
    pub ext_upns: usize,
    pub stale: usize,
}

pub open spec fn guest_disabled(g: JsonValue) -> bool {
    !g.bool_or("accountEnabled"@, false)
}

pub open spec fn guest_pending(g: JsonValue) -> bool {
    eq_ignoring_ascii_case(g.str_or("externalUserState"@, ""@), "PendingAcceptance"@)
}

pub open spec fn guest_ext_upn(g: JsonValue) -> bool {
    has_substring(g.str_or("userPrincipalName"@, ""@), "#EXT#"@)
}

fn guest_line(g: &JsonValue, cutoff: Option<&str>) -> (r: GuestLine)
    requires
        guest_printable(*g, cutoff is Some),
    ensures
        r.shows(*g, match cutoff { Some(c) => Some(c@), None => None }),
{
    let row = parse_user_row(g);
    let invite = g.str_or_default("externalUserState", "");
    let tone = if text_eq(invite.as_str(), "Accepted") {
        Tone::Green
    } else if text_eq(invite.as_str(), "PendingAcceptance") {
        Tone::Yellow
    } else {
        Tone::Plain
    };
    let created = byte_prefix(row.created.as_str(), 24);
    let label = row.user_type.label();
    proof {
        lemma_label_of_classification(row.user_type, g.str_or("userType"@, ""@), label@);
    }
    let user_type = owned(label);
    match cutoff {
        Some(c) => {
            let last = match g.get("signInActivity") {
                Some(a) => a.str_or_default("lastSignInDateTime", ""),
                None => owned(""),
            };
            let never = last.unicode_len() == 0;
            let stale = never || text_lt(last.as_str(), c);
            let shown = if never { None } else { Some(byte_prefix(last.as_str(), 24)) };
            GuestLine {
                upn: truncate(row.upn.as_str(), 45),
                mail: truncate(row.mail.as_str(), 31),
                created,
                enabled: row.account_enabled,
                invite_state: invite,
                invite_tone: tone,
                stale: Some(stale),
                last_sign_in: shown,
                user_type,
            }
        },
        None => GuestLine {
            upn: truncate(row.upn.as_str(), 49),
            mail: truncate(row.mail.as_str(), 34),
            created,
            enabled: row.account_enabled,
            invite_state: invite,
            invite_tone: tone,
            stale: None,
            last_sign_in: None,
            user_type,
        },
    }
}

/// Builds the guest audit from the guest users Graph returned. With a cutoff
/// (ISO-8601 text), guests that never signed in or last signed in before it
/// are flagged stale.
pub fn guest_audit_report(guests: &Vec<JsonValue>, stale_cutoff: Option<&str>) -> (r: GuestAudit)
    requires
        forall|i: int| 0 <= i < guests@.len() ==> guest_printable(#[trigger] guests@[i], stale_cutoff is Some),
    ensures
        r.lines@.len() == guests@.len(),
        forall|i: int| 0 <= i < guests@.len() ==> (#[trigger] r.lines@[i]).shows(
            guests@[i],
            match stale_cutoff { Some(c) => Some(c@), None => None },
        ),
        r.total == guests@.len(),
        r.disabled == count_where(guests@, |g: JsonValue| guest_disabled(g)),
        r.pending == count_where(guests@, |g: JsonValue| guest_pending(g)),
        r.ext_upns == count_where(guests@, |g: JsonValue| guest_ext_upn(g)),
        r.stale == match stale_cutoff {
            Some(c) => count_where(guests@, |g: JsonValue| guest_is_stale(g, c@)),
            None => 0,
        },
{
    let ghost cut = match stale_cutoff { Some(c) => Some(c@), None => None };
    let ghost p_dis = |g: JsonValue| guest_disabled(g);
    let ghost p_pen = |g: JsonValue| guest_pending(g);
    let ghost p_ext = |g: JsonValue| guest_ext_upn(g);
    let ghost p_stale = |g: JsonValue| match stale_cutoff { Some(c) => guest_is_stale(g, c@), None => false };
    let n = guests.len();
    let mut lines: Vec<GuestLine> = Vec::new();
    let mut disabled: usize = 0;
    let mut pending: usize = 0;
    let mut ext_upns: usize = 0;
    let mut stale: usize = 0;
    let mut i: usize = 0;
    while i < n
        invariant
            n == guests@.len(),
            i <= n,
            forall|k: int| 0 <= k < guests@.len() ==> guest_printable(#[trigger] guests@[k], stale_cutoff is Some),
            cut == match stale_cutoff { Some(c) => Some(c@), None => None::<Seq<char>> },
            lines@.len() == i,
            forall|k: int| 0 <= k < i ==> (#[trigger] lines@[k]).shows(guests@[k], cut),
            p_dis == (|g: JsonValue| guest_disabled(g)),
            p_pen == (|g: JsonValue| guest_pending(g)),
            p_ext == (|g: JsonValue| guest_ext_upn(g)),
            p_stale == (|g: JsonValue| match stale_cutoff { Some(c) => guest_is_stale(g, c@), None => false }),
            disabled == count_where(guests@.take(i as int), p_dis),
            pending == count_where(guests@.take(i as int), p_pen),
            ext_upns == count_where(guests@.take(i as int), p_ext),
            stale == count_where(guests@.take(i as int), p_stale),
        decreases n - i,
    {
        let g = &guests[i];
        let line = guest_line(g, stale_cutoff);
        proof {
            lemma_count_step(guests@, p_dis, i as int);
            lemma_count_step(guests@, p_pen, i as int);
            lemma_count_step(guests@, p_ext, i as int);
            lemma_count_step(guests@, p_stale, i as int);
            assert(p_dis(guests@[i as int]) == guest_disabled(guests@[i as int]));
            assert(p_pen(guests@[i as int]) == guest_pending(guests@[i as int]));
            assert(line.enabled == guests@[i as int].bool_or("accountEnabled"@, false));
            assert(line.invite_state@ == guests@[i as int].str_or("externalUserState"@, ""@));
        }
        if !line.enabled {
            disabled = disabled + 1;
        }
        if text_eq_ignore_ascii_case(line.invite_state.as_str(), "PendingAcceptance") {
            pending = pending + 1;
        }
        let upn = g.str_or_default("userPrincipalName", "");
        if text_contains(upn.as_str(), "#EXT#") {
            ext_upns = ext_upns + 1;
        }
        if line.stale == Some(true) {
            stale = stale + 1;
        }
        lines.push(line);
        i = i + 1;
    }
    proof {
        lemma_take_all(guests@);
        if stale_cutoff is None {
            assert(count_where(guests@, p_stale) == 0) by {
                lemma_count_none(guests@, p_stale);
            }
        } else {
            assert(p_stale =~= |g: JsonValue| guest_is_stale(g, stale_cutoff->0@));
        }
    }
    GuestAudit { lines, total: n, disabled, pending, ext_upns, stale }
}

proof fn lemma_count_none(s: Seq<JsonValue>, p: spec_fn(JsonValue) -> bool)
    requires
        forall|g: JsonValue| !#[trigger] p(g),
    ensures
        count_where(s, p) == 0,
    decreases s.len(),
{
    if s.len() > 0 {
        lemma_count_none(s.drop_last(), p);
    }
}

// ---------------------------------------------------------------------------
// License report
// ---------------------------------------------------------------------------

pub open spec fn sku_part(s: JsonValue) -> Seq<char> {
    s.str_or("skuPartNumber"@, ""@)
}

/// `prepaidUnits.enabled`, or 0.
pub open spec fn sku_purchased(s: JsonValue) -> i64 {
    s.field("prepaidUnits"@).int_or("enabled"@, 0)
}

/// `consumedUnits`, or 0.
pub open spec fn sku_consumed(s: JsonValue) -> i64 {
    s.int_or("consumedUnits"@, 0)
}

/// Integer division rounding toward zero, as Rust's `/` does (`d > 0`).
pub open spec fn trunc_div(x: int, d: int) -> int {
    if x >= 0 { x / d } else { -((-x) / d) }
}

/// Utilisation percentage, 0 when nothing is purchased.
pub open spec fn utilisation(purchased: int, consumed: int) -> int {
    if purchased > 0 { trunc_div(consumed * 100, purchased) } else { 0 }
}

/// Emphasis of a utilisation: red from 95%, yellow from 80%, yellow below
/// 50% when more than five seats are purchased, green otherwise.
pub open spec fn util_tone(util: int, purchased: int) -> Tone {
    if util >= 95 {
        Tone::Red
    } else if util >= 80 {
        Tone::Yellow
    } else if util < 50 && purchased > 5 {
        Tone::Yellow
    } else {
        Tone::Green
    }
}

/// The SKU's figures can be computed in `i64`.
pub open spec fn sku_figures_fit(s: JsonValue) -> bool {
    &&& i64::MIN <= sku_purchased(s) - sku_consumed(s) <= i64::MAX
    &&& i64::MIN <= sku_consumed(s) * 100 <= i64::MAX
}

pub open spec fn sum_purchased(s: Seq<JsonValue>) -> int
    decreases s.len(),
{
    if s.len() == 0 { 0 } else { sum_purchased(s.drop_last()) + sku_purchased(s.last()) }
}

pub open spec fn sum_consumed(s: Seq<JsonValue>) -> int
    decreases s.len(),
{
    if s.len() == 0 { 0 } else { sum_consumed(s.drop_last()) + sku_consumed(s.last()) }
}

/// One row of the SKU overview.
pub struct SkuLine {
    /// `skuPartNumber` cut to 41 characters.
    pub part: String,
    pub purchased: i64,
    pub consumed: i64,
    pub available: i64,
    pub util: i64,
    pub util_tone: Tone,
    /// Red when more seats are consumed than purchased.
    pub available_tone: Tone,
}

impl SkuLine {
    pub open spec fn shows(self, s: JsonValue) -> bool {
        &&& self.part@ == truncated(sku_part(s), 41)
        &&& self.purchased == sku_purchased(s)
        &&& self.consumed == sku_consumed(s)
        &&& self.available == sku_purchased(s) - sku_consumed(s)
        &&& self.util == utilisation(sku_purchased(s) as int, sku_consumed(s) as int)
        &&& self.util_tone == util_tone(self.util as int, sku_purchased(s) as int)
        &&& self.available_tone == if self.available < 0 { Tone::Red } else { Tone::Plain }
    }
}

/// The SKU overview: SKUs sorted by part number, and the totals.
pub struct SkuOverview {
    /// Indices into the SKU list, in the order the rows are shown.
    pub order: Vec<usize>,
    pub lines: Vec<SkuLine>,
    pub total_purchased: i64,
    pub total_consumed: i64,
    pub total_available: i64,
}

fn sku_line(s: &JsonValue) -> (r: SkuLine)
    requires
        sku_figures_fit(*s),
    ensures
        r.shows(*s),
{
    let part = s.str_or_default("skuPartNumber", "");
    let purch = match s.get("prepaidUnits") {
        Some(p) => p.int_or_default("enabled", 0),
        None => 0,
    };
    let cons = s.int_or_default("consumedUnits", 0);
    let avail = purch - cons;
    let util: i64 = if purch > 0 {
        match (cons * 100).checked_div(purch) {
            Some(u) => u,
            None => 0,
        }
    } else {
        0
    };
    let util_tone = if util >= 95 {
        Tone::Red
    } else if util >= 80 {
        Tone::Yellow
    } else if util < 50 && purch > 5 {
        Tone::Yellow
    } else {
        Tone::Green
    };
    SkuLine {
        part: truncate(part.as_str(), 41),
        purchased: purch,
        consumed: cons,
        available: avail,
        util,
        util_tone,
        available_tone: if avail < 0 { Tone::Red } else { Tone::Plain },
    }
}

/// The SKU overview of the subscribed SKUs: rows in stable order of part
/// number, and the purchased, consumed and available totals.
pub fn sku_overview(skus: &Vec<JsonValue>) -> (r: SkuOverview)
    requires
        forall|i: int| 0 <= i < skus@.len() ==> sku_figures_fit(#[trigger] skus@[i]),
        i64::MIN <= sum_purchased(skus@) <= i64::MAX,
        i64::MIN <= sum_consumed(skus@) <= i64::MAX,
        i64::MIN <= sum_purchased(skus@) - sum_consumed(skus@) <= i64::MAX,
    ensures
        is_stable_sort_order(skus@.map_values(|s: JsonValue| sku_part(s)), r.order@),
        r.lines@.len() == skus@.len(),
        forall|j: int| 0 <= j < r.lines@.len() ==> (#[trigger] r.lines@[j]).shows(skus@[r.order@[j] as int]),
        r.total_purchased == sum_purchased(skus@),
        r.total_consumed == sum_consumed(skus@),
        r.total_available == sum_purchased(skus@) - sum_consumed(skus@),
{
    let n = skus.len();
    let mut keys: Vec<String> = Vec::new();
    let mut tp: i128 = 0;
    let mut tc: i128 = 0;
    let mut i: usize = 0;
    while i < n
        invariant
            n == skus@.len(),
            i <= n,
            keys@.len() == i,
            forall|k: int| 0 <= k < i ==> (#[trigger] keys@[k])@ == sku_part(skus@[k]),
            tp == sum_purchased(skus@.take(i as int)),
            tc == sum_consumed(skus@.take(i as int)),
            -(i as int) * 0x8000_0000_0000_0000 <= tp <= (i as int) * 0x8000_0000_0000_0000,
            -(i as int) * 0x8000_0000_0000_0000 <= tc <= (i as int) * 0x8000_0000_0000_0000,
        decreases n - i,
    {
        let s = &skus[i];
        keys.push(s.str_or_default("skuPartNumber", ""));
        let purch = match s.get("prepaidUnits") {
            Some(p) => p.int_or_default("enabled", 0),
            None => 0,
        };
        let cons = s.int_or_default("consumedUnits", 0);
        proof {
            assert(skus@.take(i + 1).drop_last() =~= skus@.take(i as int));
        }
        tp = tp + purch as i128;
        tc = tc + cons as i128;
        i = i + 1;
    }
    proof {
        lemma_take_all(skus@);
        assert(keys@.map_values(|k: String| k@) =~= skus@.map_values(|s: JsonValue| sku_part(s)));
    }
    let order = stable_sort_order(&keys);
    let mut lines: Vec<SkuLine> = Vec::new();
    let mut j: usize = 0;
    while j < n
        invariant
            n == skus@.len(),
            order@.len() == n,
            forall|t: int| 0 <= t < n ==> #[trigger] order@[t] < n,
            forall|k: int| 0 <= k < skus@.len() ==> sku_figures_fit(#[trigger] skus@[k]),
            j <= n,
            lines@.len() == j,
            forall|t: int| 0 <= t < j ==> (#[trigger] lines@[t]).shows(skus@[order@[t] as int]),
        decreases n - j,
    {
        let idx = order[j];
        lines.push(sku_line(&skus[idx]));
        j = j + 1;
    }
    SkuOverview {
        order,
        lines,
        total_purchased: tp as i64,
        total_consumed: tc as i64,
        total_available: (tp - tc) as i64,
    }
}

/// Part number of the SKU with id `id`: the last SKU whose `skuId` and
/// `skuPartNumber` are both texts and whose `skuId` is `id` (a later entry
/// overrides an earlier one).
pub open spec fn sku_name(skus: Seq<JsonValue>, id: Seq<char>) -> Option<Seq<char>>
    decreases skus.len(),
{
    if skus.len() == 0 {
        None
    } else {
        let s = skus.last();
        if s.field("skuId"@).str_value() == Some(id) && s.field("skuPartNumber"@).str_value() is Some {
            s.field("skuPartNumber"@).str_value()
        } else {
            sku_name(skus.drop_last(), id)
        }
    }
}

/// Looks up the part number of a SKU id.
pub fn sku_name_for(skus: &Vec<JsonValue>, id: &str) -> (r: Option<String>)
    ensures
        match r {
            Some(n) => sku_name(skus@, id@) == Some(n@),
            None => sku_name(skus@, id@) is None,
        },
{
    let mut i: usize = skus.len();
    assert(skus@.take(i as int) =~= skus@);
    while i > 0
        invariant
            i <= skus@.len(),
            sku_name(skus@, id@) == sku_name(skus@.take(i as int), id@),
        decreases i,
    {
        let s = &skus[i - 1];
        proof {
            assert(skus@.take(i as int).drop_last() =~= skus@.take(i - 1));
            assert(skus@.take(i as int).last() == skus@[i - 1]);
        }
        match (s.str_at("skuId"), s.str_at("skuPartNumber")) {
            (Some(sid), Some(name)) => {
                if text_eq(sid, id) {
                    return Some(owned(name));
                }
            },
            _ => {},
        }
        i = i - 1;
    }
    None
}

/// Name shown for an assigned license: its SKU's part number, or "unknown".
pub open spec fn license_name(l: JsonValue, skus: Seq<JsonValue>) -> Seq<char> {
    match l.field("skuId"@).str_value() {
        Some(id) => match sku_name(skus, id) {
            Some(n) => n,
            None => "unknown"@,
        },
        None => "unknown"@,
    }
}

/// The names of a user's licenses, joined with ", ".
pub open spec fn license_names(licenses: Seq<JsonValue>, skus: Seq<JsonValue>) -> Seq<char> {
    joined(licenses.map_values(|l: JsonValue| license_name(l, skus)), ", "@)
}

fn license_names_text(licenses: &Vec<JsonValue>, skus: &Vec<JsonValue>) -> (r: String)
    ensures
        r@ == license_names(licenses@, skus@),
{
    let ghost names = licenses@.map_values(|l: JsonValue| license_name(l, skus@));
    let n = licenses.len();
    let mut out = String::new();
    let mut i: usize = 0;
    while i < n
        invariant
            n == licenses@.len(),
            names == licenses@.map_values(|l: JsonValue| license_name(l, skus@)),
            i <= n,
            out@ == joined(names.take(i as int), ", "@),
        decreases n - i,
    {
        let l = &licenses[i];
        let name = match l.str_at("skuId") {
            Some(id) => match sku_name_for(skus, id) {
                Some(nm) => nm,
                None => owned("unknown"),
            },
            None => owned("unknown"),
        };
        proof {
            assert(names.take(i + 1).drop_last() =~= names.take(i as int));
            assert(names.take(i + 1).last() == names[i as int]);
            assert(names[i as int] == license_name(licenses@[i as int], skus@));
        }
        if i > 0 {
            out.append(", ");
        }
        out.append(name.as_str());
        proof {
            if i == 0 {
                assert(out@ =~= names.take(1)[0]);
            }
        }
        i = i + 1;
    }
    assert(names.take(n as int) =~= names);
    out
}

pub open spec fn user_licensed(u: JsonValue) -> bool {
    u.items_of("assignedLicenses"@).len() > 0
}

pub open spec fn user_disabled_licensed(u: JsonValue) -> bool {
    user_licensed(u) && !u.bool_or("accountEnabled"@, false)
}

pub open spec fn user_guest_licensed(u: JsonValue) -> bool {
    user_licensed(u) && lowercased(u.str_or("userType"@, ""@)) == "guest"@
}

/// Law: a user counts as a disabled account holding licenses exactly when its
/// `assignedLicenses` array is non-empty and `accountEnabled` is not `true`,
/// whatever its `userType` (guests included).
pub proof fn lemma_disabled_licensed_any_user_type(u: JsonValue)
    ensures
        user_disabled_licensed(u) <==> (u.items_of("assignedLicenses"@).len() > 0 && !u.bool_or("accountEnabled"@, false)),
        user_guest_licensed(u) && !u.bool_or("accountEnabled"@, false) ==> user_disabled_licensed(u),
{
}

/// Law: the licensed users split into the disabled ones the licence report
/// lists and the enabled ones; no licensed user is left out of both.
pub proof fn lemma_licensed_users_split(users: Seq<JsonValue>)
    ensures
        count_where(users, |u: JsonValue| user_licensed(u))
            == keep_where(users, |u: JsonValue| user_disabled_licensed(u)).len()
                + count_where(users, |u: JsonValue| u.items_of("assignedLicenses"@).len() > 0 && u.bool_or("accountEnabled"@, false)),
    decreases users.len(),
{
    if users.len() > 0 {
        lemma_licensed_users_split(users.drop_last());
    }
}

/// Law: each further user adds its licences to the wasted seats exactly when
/// it holds licences and is not enabled, whatever its `userType`.
pub proof fn lemma_wasted_seats_step(users: Seq<JsonValue>, u: JsonValue)
    ensures
        wasted_seats(users.push(u)) == wasted_seats(users) + if u.items_of("assignedLicenses"@).len() > 0
            && !u.bool_or("accountEnabled"@, false) {
            u.items_of("assignedLicenses"@).len() as int
        } else {
            0
        },
{
    assert(users.push(u).drop_last() =~= users);
}

/// Licenses held by disabled accounts.
pub open spec fn wasted_seats(users: Seq<JsonValue>) -> int
    decreases users.len(),
{
    if users.len() == 0 {
        0
    } else {
        wasted_seats(users.drop_last()) + if user_disabled_licensed(users.last()) {
            users.last().items_of("assignedLicenses"@).len() as int
        } else {
            0
        }
    }
}

/// A disabled account that still holds licenses.
pub struct DisabledLicenseRow {
    pub upn: String,
    /// License names joined with ", ".
    pub licenses: String,
}

/// The user license analysis.
pub struct LicenseUsage {
    pub total: usize,
    pub licensed: usize,
    pub unlicensed: usize,
    pub disabled_licensed: usize,
    pub guest_licensed: usize,
    pub wasted_seats: usize,
    /// The first 15 disabled licensed accounts, in list order.
    pub disabled_rows: Vec<DisabledLicenseRow>,
    /// How many more disabled licensed accounts there are.
    pub more_disabled: usize,
}

pub open spec fn disabled_row_shows(row: DisabledLicenseRow, u: JsonValue, skus: Seq<JsonValue>) -> bool {
    &&& row.upn@ == u.str_or("userPrincipalName"@, ""@)
    &&& row.licenses@ == license_names(u.items_of("assignedLicenses"@), skus)
}

/// The license analysis of the users, with license names looked up in the SKUs.
pub fn license_usage(users: &Vec<JsonValue>, skus: &Vec<JsonValue>) -> (r: LicenseUsage)
    requires
        wasted_seats(users@) <= usize::MAX,
    ensures
        r.total == users@.len(),
        r.licensed == count_where(users@, |u: JsonValue| user_licensed(u)),
        r.unlicensed == count_where(users@, |u: JsonValue| !user_licensed(u)),
        r.disabled_licensed == keep_where(users@, |u: JsonValue| user_disabled_licensed(u)).len(),
        r.guest_licensed == count_where(users@, |u: JsonValue| user_guest_licensed(u)),
        r.wasted_seats == wasted_seats(users@),
        r.disabled_rows@.len() == if r.disabled_licensed <= 15 { r.disabled_licensed as int } else { 15 },
        r.more_disabled == if r.disabled_licensed <= 15 { 0 } else { r.disabled_licensed - 15 },
        forall|j: int| 0 <= j < r.disabled_rows@.len() ==> disabled_row_shows(
            #[trigger] r.disabled_rows@[j],
            keep_where(users@, |u: JsonValue| user_disabled_licensed(u))[j],
            skus@,
        ),
{
    let ghost p_lic = |u: JsonValue| user_licensed(u);
    let ghost p_unl = |u: JsonValue| !user_licensed(u);
    let ghost p_dis = |u: JsonValue| user_disabled_licensed(u);
    let ghost p_gst = |u: JsonValue| user_guest_licensed(u);
    let n = users.len();
    let mut licensed: usize = 0;
    let mut unlicensed: usize = 0;
    let mut disabled: usize = 0;
    let mut guests: usize = 0;
    let mut wasted: usize = 0;
    let mut rows: Vec<DisabledLicenseRow> = Vec::new();
    let mut i: usize = 0;
    while i < n
        invariant
            n == users@.len(),
            i <= n,
            wasted_seats(users@) <= usize::MAX,
            p_lic == (|u: JsonValue| user_licensed(u)),
            p_unl == (|u: JsonValue| !user_licensed(u)),
            p_dis == (|u: JsonValue| user_disabled_licensed(u)),
            p_gst == (|u: JsonValue| user_guest_licensed(u)),
            licensed == count_where(users@.take(i as int), p_lic),
            unlicensed == count_where(users@.take(i as int), p_unl),
            disabled == keep_where(users@.take(i as int), p_dis).len(),
            guests == count_where(users@.take(i as int), p_gst),
            wasted == wasted_seats(users@.take(i as int)),
            rows@.len() == if disabled <= 15 { disabled as int } else { 15 },
            forall|j: int| 0 <= j < rows@.len() ==> disabled_row_shows(
                #[trigger] rows@[j],
                keep_where(users@.take(i as int), p_dis)[j],
                skus@,
            ),
        decreases n - i,
    {
        let u = &users[i];
        let row = parse_user_row(u);
        proof {
            lemma_count_step(users@, p_lic, i as int);
            lemma_count_step(users@, p_unl, i as int);
            lemma_count_step(users@, p_gst, i as int);
            lemma_keep_step(users@, p_dis, i as int);
            assert(users@.take(i + 1).drop_last() =~= users@.take(i as int));
            lemma_wasted_prefix(users@, i as int);
            reveal_strlit("guest");
            reveal_strlit("member");
        }
        let lic_count = u.array_len_at("assignedLicenses");
        if lic_count > 0 {
            licensed = licensed + 1;
            if !row.account_enabled {
                disabled = disabled + 1;
                wasted = wasted + lic_count;
                if rows.len() < 15 {
                    let names = match u.array_at("assignedLicenses") {
                        Some(ls) => license_names_text(ls, skus),
                        None => String::new(),
                    };
                    rows.push(DisabledLicenseRow { upn: row.upn, licenses: names });
                }
            }
            match row.user_type {
                UserType::Guest => {
                    guests = guests + 1;
                },
                UserType::Member => {
                    assert("guest"@.len() != "member"@.len());
                },
                UserType::Unknown(_) => {},
            }
        } else {
            unlicensed = unlicensed + 1;
        }
        i = i + 1;
    }
    proof {
        lemma_take_all(users@);
    }
    let more = if disabled > 15 { disabled - 15 } else { 0 };
    LicenseUsage {
        total: n,
        licensed,
        unlicensed,
        disabled_licensed: disabled,
        guest_licensed: guests,
        wasted_seats: wasted,
        disabled_rows: rows,
        more_disabled: more,
    }
}

proof fn lemma_wasted_prefix(users: Seq<JsonValue>, i: int)
    requires
        0 <= i < users.len(),
    ensures
        wasted_seats(users.take(i + 1)) == wasted_seats(users.take(i)) + if user_disabled_licensed(users[i]) {
            users[i].items_of("assignedLicenses"@).len() as int
        } else {
            0
        },
        wasted_seats(users.take(i + 1)) <= wasted_seats(users),
        wasted_seats(users.take(i)) >= 0,
{
    assert(users.take(i + 1).drop_last() =~= users.take(i));
    lemma_wasted_mono(users, i + 1);
    lemma_wasted_nonneg(users.take(i));
}

proof fn lemma_wasted_nonneg(users: Seq<JsonValue>)
    ensures
        wasted_seats(users) >= 0,
    decreases users.len(),
{
    if users.len() > 0 {
        lemma_wasted_nonneg(users.drop_last());
    }
}

proof fn lemma_wasted_mono(users: Seq<JsonValue>, k: int)
    requires
        0 <= k <= users.len(),
    ensures
        wasted_seats(users.take(k)) <= wasted_seats(users),
    decreases users.len() - k,
{
    if k < users.len() {
        lemma_wasted_mono(users, k + 1);
        assert(users.take(k + 1).drop_last() =~= users.take(k));
    } else {
        assert(users.take(k) =~= users);
    }
}

// ---------------------------------------------------------------------------
// Risky users report
// ---------------------------------------------------------------------------

pub open spec fn level_is(u: JsonValue, level: Seq<char>) -> bool {
    u.field("riskLevel"@).str_value() == Some(level)
}

/// Emphasis of a risk level: high red, medium yellow, others plain.
pub open spec fn risk_level_tone(level: Seq<char>) -> Tone {
    if level == "high"@ {
        Tone::Red
    } else if level == "medium"@ {
        Tone::Yellow
    } else {
        Tone::Plain
    }
}

/// One active risky user.
pub struct RiskyUserLine {
    /// UPN cut to 49 characters.
    pub upn: String,
    pub level: String,
    pub level_tone: Tone,
    pub state: String,
    /// The first 26 bytes of `riskLastUpdatedDateTime`.
    pub updated: String,
    /// `riskDetail` cut to 40 characters.
    pub detail: String,
}

impl RiskyUserLine {
    pub open spec fn shows(self, u: JsonValue) -> bool {
        &&& self.upn@ == truncated(u.str_or("userPrincipalName"@, ""@), 49)
        &&& self.level@ == u.str_or("riskLevel"@, ""@)
        &&& self.level_tone == risk_level_tone(u.str_or("riskLevel"@, ""@))
        &&& self.state@ == u.str_or("riskState"@, ""@)
        &&& encode_utf8(self.updated@) == byte_prefix_of(u.str_or("riskLastUpdatedDateTime"@, ""@), 26)
        &&& self.detail@ == truncated(u.str_or("riskDetail"@, ""@), 40)
    }
}

/// The active risky users: counts per level and one row per user.
pub struct RiskyUsers {
    pub high: usize,
    pub medium: usize,
    pub low: usize,
    /// Red when there is a high-risk user.
    pub high_tone: Tone,
    /// Yellow when there is a medium-risk user.
    pub medium_tone: Tone,
    pub lines: Vec<RiskyUserLine>,
    pub total: usize,
}

fn risky_user_line(u: &JsonValue) -> (r: RiskyUserLine)
    requires
        byte_prefix_ok(u.str_or("riskLastUpdatedDateTime"@, ""@), 26),
    ensures
        r.shows(*u),
{
    let upn = u.str_or_default("userPrincipalName", "");
    let level = u.str_or_default("riskLevel", "");
    let state = u.str_or_default("riskState", "");
    let updated = u.str_or_default("riskLastUpdatedDateTime", "");
    let detail = u.str_or_default("riskDetail", "");
    let tone = if text_eq(level.as_str(), "high") {
        Tone::Red
    } else if text_eq(level.as_str(), "medium") {
        Tone::Yellow
    } else {
        Tone::Plain
    };
    RiskyUserLine {
        upn: truncate(upn.as_str(), 49),
        level,
        level_tone: tone,
        state,
        updated: byte_prefix(updated.as_str(), 26),
        detail: truncate(detail.as_str(), 40),
    }
}

fn level_equals(u: &JsonValue, level: &str) -> (r: bool)
    ensures
        r == level_is(*u, level@),
{
    match u.str_at("riskLevel") {
        Some(l) => text_eq(l, level),
        None => false,
    }
}

/// Summarises the active risky users Graph returned.
pub fn risky_users_summary(users: &Vec<JsonValue>) -> (r: RiskyUsers)
    requires
        forall|i: int| 0 <= i < users@.len() ==> byte_prefix_ok(#[trigger] users@[i].str_or("riskLastUpdatedDateTime"@, ""@), 26),
    ensures
        r.high == count_where(users@, |u: JsonValue| level_is(u, "high"@)),
        r.medium == count_where(users@, |u: JsonValue| level_is(u, "medium"@)),
        r.low == count_where(users@, |u: JsonValue| level_is(u, "low"@)),
        r.high_tone == if r.high > 0 { Tone::Red } else { Tone::Plain },
        r.medium_tone == if r.medium > 0 { Tone::Yellow } else { Tone::Plain },
        r.lines@.len() == users@.len(),
        forall|j: int| 0 <= j < users@.len() ==> (#[trigger] r.lines@[j]).shows(users@[j]),
        r.total == users@.len(),
{
    let ghost ph = |u: JsonValue| level_is(u, "high"@);
    let ghost pm = |u: JsonValue| level_is(u, "medium"@);
    let ghost pl = |u: JsonValue| level_is(u, "low"@);
    let n = users.len();
    let mut high: usize = 0;
    let mut medium: usize = 0;
    let mut low: usize = 0;
    let mut lines: Vec<RiskyUserLine> = Vec::new();
    let mut i: usize = 0;
    while i < n
        invariant
            n == users@.len(),
            i <= n,
            forall|k: int| 0 <= k < users@.len() ==> byte_prefix_ok(#[trigger] users@[k].str_or("riskLastUpdatedDateTime"@, ""@), 26),
            ph == (|u: JsonValue| level_is(u, "high"@)),
            pm == (|u: JsonValue| level_is(u, "medium"@)),
            pl == (|u: JsonValue| level_is(u, "low"@)),
            high == count_where(users@.take(i as int), ph),
            medium == count_where(users@.take(i as int), pm),
            low == count_where(users@.take(i as int), pl),
            lines@.len() == i,
            forall|k: int| 0 <= k < i ==> (#[trigger] lines@[k]).shows(users@[k]),
        decreases n - i,
    {
        let u = &users[i];
        proof {
            lemma_count_step(users@, ph, i as int);
            lemma_count_step(users@, pm, i as int);
            lemma_count_step(users@, pl, i as int);
        }
        if level_equals(u, "high") {
            high = high + 1;
        }
        if level_equals(u, "medium") {
            medium = medium + 1;
        }
        if level_equals(u, "low") {
            low = low + 1;
        }
        lines.push(risky_user_line(u));
        i = i + 1;
    }
    proof {
        lemma_take_all(users@);
    }
    RiskyUsers {
        high,
        medium,
        low,
        high_tone: if high > 0 { Tone::Red } else { Tone::Plain },
        medium_tone: if medium > 0 { Tone::Yellow } else { Tone::Plain },
        lines,
        total: n,
    }
}

/// The `riskEventType` of a detection, or "unknown".
pub open spec fn detection_type(d: JsonValue) -> Seq<char> {
    d.str_or("riskEventType"@, "unknown"@)
}

/// Some entry of `b` is for type `t`.
pub open spec fn type_listed(b: Seq<TypeCount>, t: Seq<char>) -> bool {
    exists|j: int| 0 <= j < b.len() && #[trigger] b[j].event_type@ == t
}

/// A detection type and how many detections have it.
pub struct TypeCount {
    pub event_type: String,
    pub count: usize,
}

/// The breakdown lists every detection type that occurs, and only those,
/// once each with its exact count, in non-increasing order of count.
pub open spec fn is_type_breakdown(dets: Seq<JsonValue>, b: Seq<TypeCount>) -> bool {
    &&& forall|j: int| 0 <= j < b.len() ==> #[trigger] b[j].count == type_count(dets, b[j].event_type@)
    &&& forall|j: int| 0 <= j < b.len() ==> #[trigger] b[j].count > 0
    &&& forall|j: int, k: int| 0 <= j < k < b.len() ==> #[trigger] b[j].event_type@ != #[trigger] b[k].event_type@
    &&& forall|i: int| 0 <= i < dets.len() ==> type_listed(b, detection_type(#[trigger] dets[i]))
    &&& forall|j: int, k: int| 0 <= j < k < b.len() ==> #[trigger] b[j].count >= #[trigger] b[k].count
}

/// One high-risk detection.
pub struct HighRiskDetection {
    /// UPN cut to 39 characters.
    pub upn: String,
    /// Event type cut to 44 characters.
    pub event_type: String,
    /// `ipAddress`, or "-".
    pub ip: String,
}

pub open spec fn high_detection_shows(h: HighRiskDetection, d: JsonValue) -> bool {
    &&& h.upn@ == truncated(d.str_or("userPrincipalName"@, ""@), 39)
    &&& h.event_type@ == truncated(d.str_or("riskEventType"@, ""@), 44)
    &&& h.ip@ == d.str_or("ipAddress"@, "-"@)
}

/// The recent risk detections: the breakdown by type and the first ten
/// high-risk detections.
pub struct DetectionSummary {
    pub types: Vec<TypeCount>,
    pub high: Vec<HighRiskDetection>,
    pub total: usize,
}

/// Detections counted by type, in order of first appearance.
fn count_types(dets: &Vec<JsonValue>) -> (r: Vec<TypeCount>)
    ensures
        forall|j: int| 0 <= j < r@.len() ==> #[trigger] r@[j].count == type_count(dets@, r@[j].event_type@),
        forall|j: int| 0 <= j < r@.len() ==> #[trigger] r@[j].count > 0,
        forall|j: int, k: int| 0 <= j < k < r@.len() ==> #[trigger] r@[j].event_type@ != #[trigger] r@[k].event_type@,
        forall|i: int| 0 <= i < dets@.len() ==> type_listed(r@, detection_type(#[trigger] dets@[i])),
{
    let n = dets.len();
    let mut out: Vec<TypeCount> = Vec::new();
    let mut i: usize = 0;
    while i < n
        invariant
            n == dets@.len(),
            i <= n,
            out@.len() <= i,
            forall|j: int| 0 <= j < out@.len() ==> #[trigger] out@[j].count == type_count(dets@.take(i as int), out@[j].event_type@),
            forall|j: int| 0 <= j < out@.len() ==> #[trigger] out@[j].count > 0,
            forall|j: int, k: int| 0 <= j < k < out@.len() ==> #[trigger] out@[j].event_type@ != #[trigger] out@[k].event_type@,
            forall|t: int| 0 <= t < i ==> type_listed(out@, detection_type(#[trigger] dets@[t])),
        decreases n - i,
    {
        let t = dets[i].str_or_default("riskEventType", "unknown");
        let ghost old_out = out@;
        let m = out.len();
        let mut j: usize = 0;
        while j < m && !text_eq(out[j].event_type.as_str(), t.as_str())
            invariant
                m == out@.len(),
                j <= m,
                forall|k: int| 0 <= k < j ==> out@[k].event_type@ != t@,
            decreases m - j,
        {
            j = j + 1;
        }
        proof {
            assert forall|k: int| 0 <= k < out@.len() implies #[trigger] type_count(dets@.take(i + 1), out@[k].event_type@)
                == type_count(dets@.take(i as int), out@[k].event_type@)
                    + if out@[k].event_type@ == t@ { 1nat } else { 0nat } by {
                lemma_type_count_step(dets@, out@[k].event_type@, i as int);
            }
        }
        if j < m {
            let c = out[j].count;
            proof {
                lemma_type_count_bound(dets@.take(i as int), t@);
            }
            let updated = TypeCount { event_type: t, count: c + 1 };
            out.set(j, updated);
            proof {
                assert forall|t2: int| 0 <= t2 < i + 1 implies type_listed(out@, detection_type(#[trigger] dets@[t2])) by {
                    if t2 < i {
                        assert(type_listed(old_out, detection_type(dets@[t2])));
                        let k = choose|k: int| 0 <= k < old_out.len() && #[trigger] old_out[k].event_type@ == detection_type(dets@[t2]);
                        assert(out@[k].event_type@ == old_out[k].event_type@);
                    } else {
                        assert(out@[j as int].event_type@ == detection_type(dets@[t2]));
                    }
                }
            }
        } else {
            proof {
                lemma_type_count_step(dets@, t@, i as int);
                lemma_count_zero_absent(dets@.take(i as int), t@);
                assert forall|t2: int| 0 <= t2 < i implies detection_type(#[trigger] dets@.take(i as int)[t2]) != t@ by {
                    assert(type_listed(old_out, detection_type(dets@[t2])));
                    let k = choose|k: int| 0 <= k < old_out.len() && #[trigger] old_out[k].event_type@ == detection_type(dets@[t2]);
                    assert(dets@.take(i as int)[t2] == dets@[t2]);
                }
            }
            out.push(TypeCount { event_type: t, count: 1 });
            proof {
                assert forall|t2: int| 0 <= t2 < i + 1 implies type_listed(out@, detection_type(#[trigger] dets@[t2])) by {
                    if t2 < i {
                        assert(type_listed(old_out, detection_type(dets@[t2])));
                        let k = choose|k: int| 0 <= k < old_out.len() && #[trigger] old_out[k].event_type@ == detection_type(dets@[t2]);
                        assert(out@[k] == old_out[k]);
                    } else {
                        assert(out@[m as int].event_type@ == detection_type(dets@[t2]));
                    }
                }
            }
        }
        i = i + 1;
    }
    proof {
        lemma_take_all(dets@);
        assert forall|t: int| 0 <= t < dets@.len() implies type_listed(out@, detection_type(#[trigger] dets@[t])) by {
            assert(t < i);
        }
    }
    out
}

/// Number of detections of type `t`.
pub open spec fn type_count(dets: Seq<JsonValue>, t: Seq<char>) -> nat
    decreases dets.len(),
{
    if dets.len() == 0 {
        0
    } else {
        type_count(dets.drop_last(), t) + if detection_type(dets.last()) == t { 1nat } else { 0nat }
    }
}

proof fn lemma_type_count_step(s: Seq<JsonValue>, t: Seq<char>, i: int)
    requires
        0 <= i < s.len(),
    ensures
        type_count(s.take(i + 1), t) == type_count(s.take(i), t) + if detection_type(s[i]) == t { 1nat } else { 0nat },
{
    assert(s.take(i + 1).drop_last() =~= s.take(i));
}

proof fn lemma_type_count_bound(s: Seq<JsonValue>, t: Seq<char>)
    ensures
        type_count(s, t) <= s.len(),
    decreases s.len(),
{
    if s.len() > 0 {
        lemma_type_count_bound(s.drop_last(), t);
    }
}

proof fn lemma_count_zero_absent(s: Seq<JsonValue>, t: Seq<char>)
    requires
        forall|k: int| 0 <= k < s.len() ==> detection_type(#[trigger] s[k]) != t,
    ensures
        type_count(s, t) == 0,
    decreases s.len(),
{
    if s.len() > 0 {
        lemma_count_zero_absent(s.drop_last(), t);
    }
}

fn copy_type_count(t: &TypeCount) -> (r: TypeCount)
    ensures
        r == *t,
{
    TypeCount { event_type: t.event_type.clone(), count: t.count }
}

/// The entries of `v` reordered by non-increasing count, equal counts kept in order.
fn sort_by_count_desc(v: &Vec<TypeCount>) -> (r: (Vec<TypeCount>, Ghost<Seq<int>>, Ghost<Seq<int>>))
    ensures
        r.0@.len() == v@.len(),
        r.1@.len() == v@.len(),
        r.2@.len() == v@.len(),
        forall|j: int| 0 <= j < v@.len() ==> 0 <= #[trigger] r.1@[j] < v@.len() && r.0@[j] == v@[r.1@[j]],
        forall|j1: int, j2: int| 0 <= j1 < j2 < v@.len() ==> #[trigger] r.1@[j1] != #[trigger] r.1@[j2],
        forall|k: int| 0 <= k < v@.len() ==> 0 <= #[trigger] r.2@[k] < v@.len() && r.1@[r.2@[k]] == k,
        forall|j1: int, j2: int| 0 <= j1 < j2 < v@.len() ==> #[trigger] r.0@[j1].count >= #[trigger] r.0@[j2].count,
{
    let n = v.len();
    let mut out: Vec<TypeCount> = Vec::new();
    let ghost mut perm: Seq<int> = Seq::empty();
    let ghost mut inv: Seq<int> = Seq::empty();
    let mut i: usize = 0;
    while i < n
        invariant
            n == v@.len(),
            i <= n,
            out@.len() == i,
            perm.len() == i,
            inv.len() == i,
            forall|j: int| 0 <= j < i ==> 0 <= #[trigger] perm[j] < i && out@[j] == v@[perm[j]],
            forall|j1: int, j2: int| 0 <= j1 < j2 < i ==> #[trigger] perm[j1] != #[trigger] perm[j2],
            forall|k: int| 0 <= k < i ==> 0 <= #[trigger] inv[k] < i && perm[inv[k]] == k,
            forall|j1: int, j2: int| 0 <= j1 < j2 < i ==> #[trigger] out@[j1].count >= #[trigger] out@[j2].count,
        decreases n - i,
    {
        let c = v[i].count;
        let mut p: usize = 0;
        while p < out.len() && out[p].count >= c
            invariant
                p <= out@.len(),
                forall|j: int| 0 <= j < p ==> #[trigger] out@[j].count >= c,
            decreases out@.len() - p,
        {
            p = p + 1;
        }
        let ghost old_out = out@;
        let ghost old_perm = perm;
        let ghost old_inv = inv;
        out.insert(p, copy_type_count(&v[i]));
        proof {
            perm = old_perm.insert(p as int, i as int);
            inv = Seq::new(i as nat, |k: int| if old_inv[k] >= p { old_inv[k] + 1 } else { old_inv[k] }).push(p as int);
            assert forall|j1: int, j2: int| 0 <= j1 < j2 < i + 1 implies #[trigger] out@[j1].count >= #[trigger] out@[j2].count by {
                if j2 < p {
                } else if j1 < p && j2 == p {
                } else if j1 < p {
                    assert(out@[j2] == old_out[j2 - 1]);
                    assert(old_out[j2 - 1].count <= c) by {
                        if j2 - 1 > p {
                            assert(old_out[p as int].count >= old_out[j2 - 1].count);
                        }
                    }
                } else if j1 == p {
                    assert(out@[j2] == old_out[j2 - 1]);
                    if j2 - 1 > p {
                        assert(old_out[p as int].count >= old_out[j2 - 1].count);
                    }
                } else {
                    assert(out@[j1] == old_out[j1 - 1]);
                    assert(out@[j2] == old_out[j2 - 1]);
                }
            }
            assert forall|j: int| 0 <= j < i + 1 implies 0 <= #[trigger] perm[j] < i + 1 && out@[j] == v@[perm[j]] by {
                if j < p {
                    assert(out@[j] == old_out[j]);
                } else if j > p {
                    assert(out@[j] == old_out[j - 1]);
                }
            }
            assert forall|j1: int, j2: int| 0 <= j1 < j2 < i + 1 implies #[trigger] perm[j1] != #[trigger] perm[j2] by {
                if j1 != p && j2 != p {
                    let a = if j1 < p { j1 } else { j1 - 1 };
                    let b = if j2 < p { j2 } else { j2 - 1 };
                    assert(perm[j1] == old_perm[a]);
                    assert(perm[j2] == old_perm[b]);
                }
            }
            assert forall|k: int| 0 <= k < i + 1 implies 0 <= #[trigger] inv[k] < i + 1 && perm[inv[k]] == k by {
                if k < i {
                    let q = old_inv[k];
                    assert(old_perm[q] == k);
                    if q >= p {
                        assert(perm[q + 1] == old_perm[q]);
                    } else {
                        assert(perm[q] == old_perm[q]);
                    }
                }
            }
        }
        i = i + 1;
    }
    (out, Ghost(perm), Ghost(inv))
}

/// Summarises the recent risk detections: the count of each detection type
/// in non-increasing order of count, and the first ten high-risk detections.
pub fn detection_summary(dets: &Vec<JsonValue>) -> (r: DetectionSummary)
    ensures
        is_type_breakdown(dets@, r.types@),
        r.high@.len() == if keep_where(dets@, |d: JsonValue| level_is(d, "high"@)).len() < 10 {
            keep_where(dets@, |d: JsonValue| level_is(d, "high"@)).len() as int
        } else {
            10
        },
        forall|j: int| 0 <= j < r.high@.len() ==> high_detection_shows(
            #[trigger] r.high@[j],
            keep_where(dets@, |d: JsonValue| level_is(d, "high"@))[j],
        ),
        r.total == dets@.len(),
{
    let counted = count_types(dets);
    let (types, Ghost(perm), Ghost(inv)) = sort_by_count_desc(&counted);
    proof {
        assert forall|j1: int, j2: int| 0 <= j1 < j2 < types@.len() implies #[trigger] types@[j1].event_type@ != #[trigger] types@[j2].event_type@ by {
            let a = perm[j1];
            let b = perm[j2];
            if a < b {
                assert(counted@[a].event_type@ != counted@[b].event_type@);
            } else {
                assert(counted@[b].event_type@ != counted@[a].event_type@);
            }
        }
        assert forall|i: int| 0 <= i < dets@.len() implies type_listed(types@, detection_type(#[trigger] dets@[i])) by {
            assert(type_listed(counted@, detection_type(dets@[i])));
            let k = choose|k: int| 0 <= k < counted@.len() && #[trigger] counted@[k].event_type@ == detection_type(dets@[i]);
            let j = inv[k];
            assert(types@[j] == counted@[k]);
        }
        assert forall|j: int| 0 <= j < types@.len() implies #[trigger] types@[j].count == type_count(dets@, types@[j].event_type@) by {
            assert(types@[j] == counted@[perm[j]]);
        }
        assert forall|j: int| 0 <= j < types@.len() implies #[trigger] types@[j].count > 0 by {
            assert(types@[j] == counted@[perm[j]]);
        }
    }
    let ghost ph = |d: JsonValue| level_is(d, "high"@);
    let n = dets.len();
    let mut high: Vec<HighRiskDetection> = Vec::new();
    let mut i: usize = 0;
    while i < n
        invariant
            n == dets@.len(),
            i <= n,
            ph == (|d: JsonValue| level_is(d, "high"@)),
            high@.len() == if keep_where(dets@.take(i as int), ph).len() < 10 { keep_where(dets@.take(i as int), ph).len() as int } else { 10 },
            forall|j: int| 0 <= j < high@.len() ==> high_detection_shows(#[trigger] high@[j], keep_where(dets@.take(i as int), ph)[j]),
        decreases n - i,
    {
        let d = &dets[i];
        proof {
            lemma_keep_step(dets@, ph, i as int);
        }
        if level_equals(d, "high") && high.len() < 10 {
            let upn = d.str_or_default("userPrincipalName", "");
            let etype = d.str_or_default("riskEventType", "");
            let ip = d.str_or_default("ipAddress", "-");
            high.push(HighRiskDetection {
                upn: truncate(upn.as_str(), 39),
                event_type: truncate(etype.as_str(), 44),
                ip,
            });
        }
        i = i + 1;
    }
    proof {
        lemma_take_all(dets@);
    }
    DetectionSummary { types, high, total: n }
}

// ---------------------------------------------------------------------------
// Single-user queries
// ---------------------------------------------------------------------------

/// Graph path of a user's details.
pub fn user_details_path(upn: &str) -> (r: String)
    ensures
        r@ == "/users/"@ + upn@ + "?$select=displayName,userPrincipalName,mail,otherMails,proxyAddresses,lastPasswordChangeDateTime"@,
{
    let mut p = owned("/users/");
    p.append(upn);
    p.append("?$select=displayName,userPrincipalName,mail,otherMails,proxyAddresses,lastPasswordChangeDateTime");
    p
}

/// Graph path of the Identity Protection record of a user.
pub fn risky_user_path(upn: &str) -> (r: String)
    ensures
        r@ == "/identityProtection/riskyUsers?$filter=userPrincipalName eq '"@ + upn@
            + "'&$select=userPrincipalName,riskState,riskLevel,riskLastUpdatedDateTime"@,
{
    let mut p = owned("/identityProtection/riskyUsers?$filter=userPrincipalName eq '");
    p.append(upn);
    p.append("'&$select=userPrincipalName,riskState,riskLevel,riskLastUpdatedDateTime");
    p
}

/// Graph path of the latest risk detection of a user.
pub fn latest_detection_path(upn: &str) -> (r: String)
    ensures
        r@ == "/identityProtection/riskDetections?$filter=userPrincipalName eq '"@ + upn@
            + "'&$orderby=activityDateTime desc&$top=1&$select=activityDateTime,ipAddress,riskState,riskEventType"@,
{
    let mut p = owned("/identityProtection/riskDetections?$filter=userPrincipalName eq '");
    p.append(upn);
    p.append("'&$orderby=activityDateTime desc&$top=1&$select=activityDateTime,ipAddress,riskState,riskEventType");
    p
}

/// The first item of a response's `value` array.
pub open spec fn first_value(resp: JsonValue) -> Option<JsonValue> {
    match resp.field("value"@).array_items() {
        Some(items) => if items.len() > 0 { Some(items[0]) } else { None },
        None => None,
    }
}

fn first_value_of(resp: &JsonValue) -> (r: Option<&JsonValue>)
    ensures
        match r {
            Some(v) => first_value(*resp) == Some(*v),
            None => first_value(*resp) is None,
        },
{
    match resp.array_at("value") {
        Some(items) => if items.len() > 0 { Some(&items[0]) } else { None },
        None => None,
    }
}

/// Identity Protection state of a user.
pub struct RiskSummary {
    pub state: String,
    pub level: String,
    pub last_updated: String,
}

/// The risk state, level and last update of the first record of a
/// `riskyUsers` answer; "none", "none" and a not-found note without one.
pub fn risk_summary(resp: &JsonValue) -> (r: RiskSummary)
    ensures
        match first_value(*resp) {
            Some(e) => {
                &&& r.state@ == e.str_or("riskState"@, "none"@)
                &&& r.level@ == e.str_or("riskLevel"@, "none"@)
                &&& r.last_updated@ == e.str_or("riskLastUpdatedDateTime"@, "<unknown>"@)
            },
            None => {
                &&& r.state@ == "none"@
                &&& r.level@ == "none"@
                &&& r.last_updated@ == "<not found in Identity Protection>"@
            },
        },
{
    match first_value_of(resp) {
        Some(e) => RiskSummary {
            state: e.str_or_default("riskState", "none"),
            level: e.str_or_default("riskLevel", "none"),
            last_updated: e.str_or_default("riskLastUpdatedDateTime", "<unknown>"),
        },
        None => RiskSummary {
            state: owned("none"),
            level: owned("none"),
            last_updated: owned("<not found in Identity Protection>"),
        },
    }
}

/// Time and address of the latest risky sign-in.
pub struct LatestDetection {
    pub signed_in: String,
    pub ip: String,
}

/// The time and IP address of the first record of a `riskDetections`
/// answer, "<unknown>" for a missing field; a no-detection note for both
/// without a record.
pub fn latest_detection(resp: &JsonValue) -> (r: LatestDetection)
    ensures
        match first_value(*resp) {
            Some(e) => {
                &&& r.signed_in@ == e.str_or("activityDateTime"@, "<unknown>"@)
                &&& r.ip@ == e.str_or("ipAddress"@, "<unknown>"@)
            },
            None => {
                &&& r.signed_in@ == "<no risky detections found>"@
                &&& r.ip@ == "<no risky detections found>"@
            },
        },
{
    match first_value_of(resp) {
        Some(e) => LatestDetection {
            signed_in: e.str_or_default("activityDateTime", "<unknown>"),
            ip: e.str_or_default("ipAddress", "<unknown>"),
        },
        None => LatestDetection {
            signed_in: owned("<no risky detections found>"),
            ip: owned("<no risky detections found>"),
        },
    }
}

/// Graph path of the recent risk detections: detected at or after `since`,
/// newest first, at most 200.
pub fn recent_detections_path(since: &str) -> (r: String)
    ensures
        r@ == "/identityProtection/riskDetections?$filter=detectedDateTime ge "@ + since@
            + "&$top=200&$orderby=detectedDateTime desc"@,
{
    let mut p = owned("/identityProtection/riskDetections?$filter=detectedDateTime ge ");
    p.append(since);
    p.append("&$top=200&$orderby=detectedDateTime desc");
    p
}

// ---------------------------------------------------------------------------
// Command dispatch
// ---------------------------------------------------------------------------

/// Graph path of all users with their licenses.
pub open spec fn licensed_users_path() -> Seq<char> {
    "/users?$select=id,userPrincipalName,displayName,accountEnabled,assignedLicenses,userType&$top=999"@
}

/// Graph path of the active risky users.
pub open spec fn active_risky_users_path() -> Seq<char> {
    "/identityProtection/riskyUsers?$filter=riskLevel ne 'none' and riskState ne 'dismissed'&$orderby=riskLevel desc&$top=999"@
}

/// The work a user command asks for.
pub fn handle(action: UserCommands) -> (r: Plan)
    ensures
        match action {
            UserCommands::Get { upn } => r matches Plan::ShowUser { upn: u, path } && u@ == upn@
                && path@ == "/users/"@ + upn@ + "?$select=displayName,userPrincipalName,mail,otherMails,proxyAddresses,lastPasswordChangeDateTime"@,
            UserCommands::Create { file } => r matches Plan::CreateUser { file: f } && f@ == file@,
            UserCommands::RiskInfo { upn } => r matches Plan::UserRisk { upn: u, risky_user_path, detection_path }
                && u@ == upn@
                && risky_user_path@ == "/identityProtection/riskyUsers?$filter=userPrincipalName eq '"@ + upn@
                    + "'&$select=userPrincipalName,riskState,riskLevel,riskLastUpdatedDateTime"@
                && detection_path@ == "/identityProtection/riskDetections?$filter=userPrincipalName eq '"@ + upn@
                    + "'&$orderby=activityDateTime desc&$top=1&$select=activityDateTime,ipAddress,riskState,riskEventType"@,
            UserCommands::GuestAudit { stale_days } => r matches Plan::GuestAudit { stale_days: d, path } && d == stale_days
                && path@ == "/users?$filter=userType eq 'Guest'&$select="@ + guest_select(stale_days is Some) + "&$top=999"@,
            UserCommands::LicenseReport => r matches Plan::LicenseReport { skus_path, users_path }
                && skus_path@ == "/subscribedSkus"@ && users_path@ == licensed_users_path(),
            UserCommands::RiskReport => r matches Plan::RiskyUsers { users_path } && users_path@ == active_risky_users_path(),
        },
{
    match action {
        UserCommands::Get { upn } => {
            let path = user_details_path(upn.as_str());
            Plan::ShowUser { upn, path }
        },
        UserCommands::Create { file } => Plan::CreateUser { file },
        UserCommands::RiskInfo { upn } => {
            let risky_user_path = risky_user_path(upn.as_str());
            let detection_path = latest_detection_path(upn.as_str());
            Plan::UserRisk { upn, risky_user_path, detection_path }
        },
        UserCommands::GuestAudit { stale_days } => {
            let path = guest_audit_path(stale_days.is_some());
            Plan::GuestAudit { stale_days, path }
        },
        UserCommands::LicenseReport => Plan::LicenseReport {
            skus_path: owned("/subscribedSkus"),
            users_path: owned("/users?$select=id,userPrincipalName,displayName,accountEnabled,assignedLicenses,userType&$top=999"),
        },
        UserCommands::RiskReport => Plan::RiskyUsers {
            users_path: owned("/identityProtection/riskyUsers?$filter=riskLevel ne 'none' and riskState ne 'dismissed'&$orderby=riskLevel desc&$top=999"),
        },
    }
}

/// Law: when the last sign-in and the cutoff are both ISO-8601 texts of
/// instants before the year 10000 (as Graph and `unix_to_iso8601` write
/// them), a guest is flagged stale exactly when it last signed in before the
/// cutoff instant.
pub proof fn lemma_stale_means_older(g: JsonValue, signed_in: int, cutoff: int)
    requires
        0 <= signed_in <= u64::MAX,
        0 <= cutoff <= u64::MAX,
        civil_of(signed_in).year <= 9999,
        civil_of(cutoff).year <= 9999,
        last_sign_in_of(g) == iso8601_text(signed_in),
    ensures
        guest_is_stale(g, iso8601_text(cutoff)) <==> signed_in < cutoff,
{
    assert(iso8601_text(signed_in).len() > 0) by {
        assert(iso8601_text(signed_in).last() == 'Z');
    }
    lemma_iso8601_lt_iff(signed_in, cutoff);
}

} // verus!
