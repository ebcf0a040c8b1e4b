//! What the terminal views of a user, a group and a risk summary show.
use vstd::prelude::*;
use crate::json::JsonValue;
use crate::report::{keep_where, lemma_keep_step, lemma_take_all, Tone};
use crate::text::{owned, text_eq};

verus! {

/// The texts among `items`, in order (`filter_map(as_str)`).
pub open spec fn text_items(items: Seq<JsonValue>) -> Seq<Seq<char>>
    decreases items.len(),
{
    if items.len() == 0 {
        Seq::empty()
    } else {
        match items.last().str_value() {
            Some(s) => text_items(items.drop_last()).push(s),
            None => text_items(items.drop_last()),
        }
    }
}

fn push_text_items(out: &mut Vec<String>, items: &Vec<JsonValue>)
    ensures
        final(out)@.map_values(|s: String| s@) == old(out)@.map_values(|s: String| s@) + text_items(items@),
{
    let ghost start = old(out)@.map_values(|s: String| s@);
    let n = items.len();
    let mut i: usize = 0;
    assert(items@.take(0) =~= Seq::<JsonValue>::empty());
    assert(start + Seq::<Seq<char>>::empty() =~= start);
    while i < n
        invariant
            n == items@.len(),
            i <= n,
            out@.map_values(|s: String| s@) == start + text_items(items@.take(i as int)),
        decreases n - i,
    {
        proof {
            assert(items@.take(i + 1).drop_last() =~= items@.take(i as int));
            assert(items@.take(i + 1).last() == items@[i as int]);
        }
        match items[i].as_str() {
            Some(s) => {
                let ghost before = out@;
                out.push(owned(s));
                proof {
                    assert(out@.map_values(|x: String| x@) =~= before.map_values(|x: String| x@).push(s@));
                }
            },
            None => {},
        }
        i = i + 1;
    }
    assert(items@.take(n as int) =~= items@);
}

/// The detailed view of a user.
pub struct UserDetails {
    pub display_name: String,
    pub upn: String,
    pub mail: String,
    /// The proxy addresses, then the other mail addresses.
    pub aliases: Vec<String>,
    pub last_password_change: String,
}

/// The detailed view of a Graph user object: names with "<unknown>" and
/// "<none>" placeholders, and the aliases.
pub fn user_details(v: &JsonValue) -> (r: UserDetails)
    ensures
        r.display_name@ == v.str_or("displayName"@, "<unknown>"@),
        r.upn@ == v.str_or("userPrincipalName"@, "<unknown>"@),
        r.mail@ == v.str_or("mail"@, "<none>"@),
        r.aliases@.map_values(|s: String| s@) == text_items(v.items_of("proxyAddresses"@)) + text_items(v.items_of("otherMails"@)),
        r.last_password_change@ == v.str_or("lastPasswordChangeDateTime"@, "<unknown>"@),
{
    let mut aliases: Vec<String> = Vec::new();
    assert(aliases@.map_values(|s: String| s@) =~= Seq::<Seq<char>>::empty());
    match v.array_at("proxyAddresses") {
        Some(items) => push_text_items(&mut aliases, items),
        None => {
            assert(text_items(Seq::<JsonValue>::empty()) =~= Seq::<Seq<char>>::empty());
        },
    }
    let ghost mid = aliases@.map_values(|s: String| s@);
    assert(mid =~= text_items(v.items_of("proxyAddresses"@)));
    match v.array_at("otherMails") {
        Some(items) => push_text_items(&mut aliases, items),
        None => {
            assert(mid + text_items(Seq::<JsonValue>::empty()) =~= mid);
        },
    }
    UserDetails {
        display_name: v.str_or_default("displayName", "<unknown>"),
        upn: v.str_or_default("userPrincipalName", "<unknown>"),
        mail: v.str_or_default("mail", "<none>"),
        aliases,
        last_password_change: v.str_or_default("lastPasswordChangeDateTime", "<unknown>"),
    }
}

/// Emphasis of an Identity Protection risk state.
pub open spec fn risk_state_tone(state: Seq<char>) -> Tone {
    if state == "atRisk"@ || state == "confirmedCompromised"@ {
        Tone::RedBold
    } else if state == "remediated"@ || state == "confirmedSafe"@ {
        Tone::Green
    } else {
        Tone::Yellow
    }
}

/// Emphasis of an Identity Protection risk level in the user risk view.
pub open spec fn risk_level_tone(level: Seq<char>) -> Tone {
    if level == "high"@ {
        Tone::RedBold
    } else if level == "medium"@ {
        Tone::Yellow
    } else if level == "low"@ {
        Tone::Plain
    } else if level == "none"@ {
        Tone::GreenDimmed
    } else {
        Tone::Dimmed
    }
}

/// Emphasis of a risk state: at risk or confirmed compromised red,
/// remediated or confirmed safe green, every other state yellow.
pub fn state_tone(state: &str) -> (r: Tone)
    ensures
        r == risk_state_tone(state@),
{
    if text_eq(state, "atRisk") || text_eq(state, "confirmedCompromised") {
        Tone::RedBold
    } else if text_eq(state, "remediated") || text_eq(state, "confirmedSafe") {
        Tone::Green
    } else {
        Tone::Yellow
    }
}

/// Emphasis of a risk level: high red, medium yellow, low plain, none dimmed
/// green, others dimmed.
pub fn level_tone(level: &str) -> (r: Tone)
    ensures
        r == risk_level_tone(level@),
{
    if text_eq(level, "high") {
        Tone::RedBold
    } else if text_eq(level, "medium") {
        Tone::Yellow
    } else if text_eq(level, "low") {
        Tone::Plain
    } else if text_eq(level, "none") {
        Tone::GreenDimmed
    } else {
        Tone::Dimmed
    }
}

/// One group in a group list.
pub struct GroupEntry {
    pub name: String,
    pub id: String,
}

/// The name (or "<unnamed>") and id (or "") of a group.
pub fn group_entry(g: &JsonValue) -> (r: GroupEntry)
    ensures
        r.name@ == g.str_or("displayName"@, "<unnamed>"@),
        r.id@ == g.str_or("id"@, ""@),
{
    GroupEntry { name: g.str_or_default("displayName", "<unnamed>"), id: g.str_or_default("id", "") }
}

/// A field value of the user summary.
pub enum FieldValue {
    Text(String),
    Flag(bool),
    /// Any other JSON value, shown as JSON.
    Other,
}

/// One line of the user summary.
pub struct UserField {
    pub key: &'static str,
    pub label: &'static str,
    pub value: FieldValue,
}

/// The fields of the user summary, in display order: (member name, label).
pub open spec fn summary_fields() -> Seq<(Seq<char>, Seq<char>)> {
    seq![
        ("displayName"@, "Display Name"@),
        ("userPrincipalName"@, "UPN"@),
        ("id"@, "Object ID"@),
        ("accountEnabled"@, "Enabled"@),
        ("jobTitle"@, "Job Title"@),
        ("department"@, "Department"@),
        ("mail"@, "Mail"@),
        ("mobilePhone"@, "Mobile"@),
    ]
}

pub open spec fn field_shows(f: UserField, key: Seq<char>, label: Seq<char>, v: JsonValue) -> bool {
    &&& f.key@ == key
    &&& f.label@ == label
    &&& match v.member(key) {
        Some(JsonValue::Bool(b)) => f.value == FieldValue::Flag(b),
        Some(JsonValue::Str(s)) => f.value matches FieldValue::Text(t) && t@ == s@,
        _ => f.value is Other,
    }
}

fn summary_field(v: &JsonValue, key: &'static str, label: &'static str) -> (r: Option<UserField>)
    ensures
        match r {
            Some(f) => v.member(key@) is Some && field_shows(f, key@, label@, *v),
            None => v.member(key@) is None,
        },
{
    match v.get(key) {
        Some(JsonValue::Bool(b)) => Some(UserField { key, label, value: FieldValue::Flag(*b) }),
        Some(JsonValue::Str(s)) => Some(UserField { key, label, value: FieldValue::Text(s.clone()) }),
        Some(_) => Some(UserField { key, label, value: FieldValue::Other }),
        None => None,
    }
}

/// The summary fields that the object has, in display order.
pub open spec fn present_summary_fields(v: JsonValue) -> Seq<(Seq<char>, Seq<char>)> {
    keep_where(summary_fields(), |p: (Seq<char>, Seq<char>)| v.member(p.0) is Some)
}

/// The summary of a user object: each summary field the object has, once,
/// in display order.
pub fn user_summary(v: &JsonValue) -> (r: Vec<UserField>)
    ensures
        r@.len() == present_summary_fields(*v).len(),
        forall|j: int| 0 <= j < r@.len() ==> field_shows(
            #[trigger] r@[j],
            present_summary_fields(*v)[j].0,
            present_summary_fields(*v)[j].1,
            *v,
        ),
{
    let keys: [&'static str; 8] = ["displayName", "userPrincipalName", "id", "accountEnabled", "jobTitle", "department", "mail", "mobilePhone"];
    let labels: [&'static str; 8] = ["Display Name", "UPN", "Object ID", "Enabled", "Job Title", "Department", "Mail", "Mobile"];
    let ghost sf = summary_fields();
    let ghost p = |q: (Seq<char>, Seq<char>)| v.member(q.0) is Some;
    proof {
        assert(keys@.map_values(|s: &str| s@) =~= sf.map_values(|q: (Seq<char>, Seq<char>)| q.0));
        assert(labels@.map_values(|s: &str| s@) =~= sf.map_values(|q: (Seq<char>, Seq<char>)| q.1));
    }
    let mut out: Vec<UserField> = Vec::new();
    let mut k: usize = 0;
    while k < 8
        invariant
            k <= 8,
            sf == summary_fields(),
            sf.len() == 8,
            p == (|q: (Seq<char>, Seq<char>)| v.member(q.0) is Some),
            keys@.map_values(|s: &str| s@) == sf.map_values(|q: (Seq<char>, Seq<char>)| q.0),
            labels@.map_values(|s: &str| s@) == sf.map_values(|q: (Seq<char>, Seq<char>)| q.1),
            out@.len() == keep_where(sf.take(k as int), p).len(),
            forall|j: int| 0 <= j < out@.len() ==> field_shows(
                #[trigger] out@[j],
                keep_where(sf.take(k as int), p)[j].0,
                keep_where(sf.take(k as int), p)[j].1,
                *v,
            ),
        decreases 8 - k,
    {
        let key = keys[k];
        let label = labels[k];
        proof {
            assert(key@ == keys@.map_values(|s: &str| s@)[k as int]);
            assert(label@ == labels@.map_values(|s: &str| s@)[k as int]);
            lemma_keep_step(sf, p, k as int);
        }
        let ghost before = out@;
        match summary_field(v, key, label) {
            Some(f) => {
                out.push(f);
                proof {
                    assert forall|j: int| 0 <= j < out@.len() implies field_shows(
                        #[trigger] out@[j],
                        keep_where(sf.take(k + 1), p)[j].0,
                        keep_where(sf.take(k + 1), p)[j].1,
                        *v,
                    ) by {
                        if j < before.len() {
                            assert(out@[j] == before[j]);
                        }
                    }
                }
            },
            None => {},
        }
        k = k + 1;
    }
    proof {
        lemma_take_all(sf);
    }
    out
}

} // verus!
