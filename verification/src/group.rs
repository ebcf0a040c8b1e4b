//! Group commands and the group health audit: each group's type, its owner
//! and member counts and the issues found, with the audit totals.
use vstd::prelude::*;
use vstd::utf8::encode_utf8;
use crate::cli::GroupCommands;
use crate::json::JsonValue;
use crate::plan::Plan;
use crate::report::{count_where, joined, lemma_count_step, lemma_take_all, Tone};
use crate::text::{
    byte_prefix, byte_prefix_of, byte_prefix_ok, eq_ignoring_ascii_case, owned, text_eq,
    text_eq_ignore_ascii_case, truncate, truncated,
};

verus! {

/// Graph path of all groups with the audited fields.
pub open spec fn groups_path() -> Seq<char> {
    "/groups?$select=id,displayName,mailNickname,mail,groupTypes,securityEnabled,mailEnabled,membershipRule,membershipRuleProcessingState,createdDateTime,isAssignableToRole,onPremisesSyncEnabled,visibility&$top=999"@
}

/// The work a group command asks for.
pub fn handle(action: GroupCommands) -> (r: Plan)
    ensures
        match action {
            GroupCommands::Diff { user1, user2 } => r matches Plan::GroupDiff { user1: a, user2: b } && a@ == user1@ && b@ == user2@,
            GroupCommands::Memberships { upn } => r matches Plan::GroupMemberships { upn: u } && u@ == upn@,
            GroupCommands::Add { upn, group } => r matches Plan::GroupAdd { upn: u, group: g } && u@ == upn@ && g@ == group@,
            GroupCommands::Audit => r matches Plan::GroupAudit { path } && path@ == groups_path(),
        },
{
    match action {
        GroupCommands::Diff { user1, user2 } => Plan::GroupDiff { user1, user2 },
        GroupCommands::Memberships { upn } => Plan::GroupMemberships { upn },
        GroupCommands::Add { upn, group } => Plan::GroupAdd { upn, group },
        GroupCommands::Audit => Plan::GroupAudit { path: audit_path() },
    }
}

/// Graph path of all groups with the audited fields.
pub fn audit_path() -> (r: String)
    ensures
        r@ == groups_path(),
{
    owned("/groups?$select=id,displayName,mailNickname,mail,groupTypes,securityEnabled,mailEnabled,membershipRule,membershipRuleProcessingState,createdDateTime,isAssignableToRole,onPremisesSyncEnabled,visibility&$top=999")
}

/// Graph path of a group's owners (first page of up to 100).
pub fn owner_count_path(group_id: &str) -> (r: String)
    ensures
        r@ == "/groups/"@ + group_id@ + "/owners?$select=id&$top=100"@,
{
    let mut p = owned("/groups/");
    p.append(group_id);
    p.append("/owners?$select=id&$top=100");
    p
}

/// Graph path of a group's exact member count.
pub fn member_count_path(group_id: &str) -> (r: String)
    ensures
        r@ == "/groups/"@ + group_id@ + "/members/$count"@,
{
    let mut p = owned("/groups/");
    p.append(group_id);
    p.append("/members/$count");
    p
}

/// Graph path of the first 100 members, used when the exact count is unavailable.
pub fn member_page_path(group_id: &str) -> (r: String)
    ensures
        r@ == "/groups/"@ + group_id@ + "/members?$select=id&$top=100"@,
{
    let mut p = owned("/groups/");
    p.append(group_id);
    p.append("/members?$select=id&$top=100");
    p
}

/// Number of items in a response's `value` array, 0 without one.
pub fn value_count(resp: &JsonValue) -> (r: usize)
    ensures
        r == resp.items_of("value"@).len(),
{
    resp.array_len_at("value")
}

/// A group's member count. `page_full` marks a count read off a full first
/// page of 100 members (the fallback when Graph gives no exact count): the
/// group may have more, and its row says "100+".
#[derive(Clone, Copy, Debug, PartialEq, Eq)]
pub struct MemberCount {
    pub count: usize,
    pub page_full: bool,
}

/// Members on one page of the fallback member listing (`$top=100`).
pub open spec fn member_page_size() -> nat {
    100
}

/// The member count: the exact count when Graph gave one, otherwise the
/// number of members on the first page, marked when that page is full.
pub fn member_count(exact: Option<usize>, first_page: Option<&JsonValue>) -> (r: Option<MemberCount>)
    ensures
        match exact {
            Some(n) => r == Some(MemberCount { count: n, page_full: false }),
            None => match first_page {
                Some(p) => r == Some(MemberCount {
                    count: p.items_of("value"@).len() as usize,
                    page_full: p.items_of("value"@).len() >= member_page_size(),
                }),
                None => r is None,
            },
        },
{
    match exact {
        Some(n) => Some(MemberCount { count: n, page_full: false }),
        None => match first_page {
            Some(p) => {
                let c = value_count(p);
                Some(MemberCount { count: c, page_full: c >= 100 })
            },
            None => None,
        },
    }
}

/// The group has `t` among the texts of its `groupTypes`.
pub open spec fn has_group_type(g: JsonValue, t: Seq<char>) -> bool {
    exists|i: int| 0 <= i < g.items_of("groupTypes"@).len() && #[trigger] g.items_of("groupTypes"@)[i].str_value() == Some(t)
}

fn group_type_present(g: &JsonValue, t: &str) -> (r: bool)
    ensures
        r == has_group_type(*g, t@),
{
    match g.array_at("groupTypes") {
        Some(items) => {
            let n = items.len();
            let mut i: usize = 0;
            while i < n
                invariant
                    n == items@.len(),
                    items@ == g.items_of("groupTypes"@),
                    i <= n,
                    forall|k: int| 0 <= k < i ==> #[trigger] items@[k].str_value() != Some(t@),
                decreases n - i,
            {
                match items[i].as_str() {
                    Some(s) => {
                        if text_eq(s, t) {
                            return true;
                        }
                    },
                    None => {},
                }
                i = i + 1;
            }
            false
        },
        None => false,
    }
}

/// The group type label, from Microsoft 365 / dynamic / security / mail flags.
pub open spec fn group_type_label(m365: bool, dynamic: bool, security: bool, mail: bool) -> Seq<char> {
    if m365 && dynamic {
        "M365 Dynamic"@
    } else if m365 {
        "M365 Assigned"@
    } else if dynamic && security {
        "Security Dynamic"@
    } else if security && mail {
        "Mail-Enabled Sec"@
    } else if security {
        "Security Assigned"@
    } else if mail {
        "Distribution"@
    } else {
        "Other"@
    }
}

pub open spec fn is_dynamic(g: JsonValue) -> bool {
    has_group_type(g, "DynamicMembership"@)
}

pub open spec fn is_role_assignable(g: JsonValue) -> bool {
    g.bool_or("isAssignableToRole"@, false)
}

/// The issues found on a group, in report order; "100+" marks a member count
/// that stopped at a full fallback page.
pub open spec fn group_issues(g: JsonValue, owners: nat, members: nat, page_full: bool) -> Seq<Seq<char>> {
    let s0: Seq<Seq<char>> = if members == 0 {
        seq!["empty"@]
    } else if page_full {
        seq!["100+"@]
    } else {
        Seq::empty()
    };
    let s1 = if owners == 0 { s0.push("no-owner"@) } else { s0 };
    let s2 = if is_dynamic(g) && eq_ignoring_ascii_case(g.str_or("membershipRuleProcessingState"@, ""@), "Paused"@) {
        s1.push("dyn-paused"@)
    } else {
        s1
    };
    let s3 = if is_role_assignable(g) { s2.push("role-assign"@) } else { s2 };
    if g.bool_or("onPremisesSyncEnabled"@, false) { s3.push("on-prem-sync"@) } else { s3 }
}

/// Sync, visibility, creation date and mail nickname of a group.
pub struct GroupDetail {
    /// "onprem" for an on-premises synchronised group, "-" otherwise.
    pub sync: String,
    /// `visibility`, or "-".
    pub visibility: String,
    /// The first 10 bytes of `createdDateTime`.
    pub created: String,
    /// `mailNickname` cut to 30 characters.
    pub nickname: String,
}

/// One group of the audit.
pub struct GroupAuditRow {
    /// `displayName` cut to 44 characters.
    pub name: String,
    pub group_type: String,
    pub security: bool,
    pub mail: bool,
    pub dynamic: bool,
    pub owners: usize,
    pub members: usize,
    /// The issues joined with ",", or "-" when there are none.
    pub issues: String,
    /// Yellow when the group is empty or has no owner.
    pub issues_tone: Tone,
    /// The membership rule (cut to 100 characters) of a dynamic group that has one.
    pub rule: Option<String>,
    /// Shown when the group is synchronised or has a visibility, creation date or nickname.
    pub detail: Option<GroupDetail>,
}

impl GroupAuditRow {
    pub open spec fn shows(self, g: JsonValue, owners: nat, members: MemberCount) -> bool {
        let security = g.bool_or("securityEnabled"@, false);
        let mail = g.bool_or("mailEnabled"@, false);
        let dynamic = is_dynamic(g);
        let issues = group_issues(g, owners, members.count as nat, members.page_full);
        let rule = g.str_or("membershipRule"@, ""@);
        let sync = g.bool_or("onPremisesSyncEnabled"@, false);
        let vis = g.str_or("visibility"@, ""@);
        let created = g.str_or("createdDateTime"@, ""@);
        let nick = g.str_or("mailNickname"@, ""@);
        &&& self.name@ == truncated(g.str_or("displayName"@, ""@), 44)
        &&& self.group_type@ == group_type_label(has_group_type(g, "Unified"@), dynamic, security, mail)
        &&& self.security == security
        &&& self.mail == mail
        &&& self.dynamic == dynamic
        &&& self.owners == owners
        &&& self.members == members.count
        &&& self.issues@ == if issues.len() == 0 { "-"@ } else { joined(issues, ","@) }
        &&& self.issues_tone == if members.count == 0 || owners == 0 { Tone::Yellow } else { Tone::Plain }
        &&& (dynamic && rule.len() > 0 ==> (self.rule matches Some(r) && r@ == truncated(rule, 100)))
        &&& (!(dynamic && rule.len() > 0) ==> self.rule is None)
        &&& (sync || vis.len() > 0 || created.len() > 0 || nick.len() > 0 ==> (self.detail matches Some(d) && {
            &&& d.sync@ == if sync { "onprem"@ } else { "-"@ }
            &&& d.visibility@ == if vis.len() == 0 { "-"@ } else { vis }
            &&& encode_utf8(d.created@) == byte_prefix_of(created, 10)
            &&& d.nickname@ == truncated(nick, 30)
        }))
        &&& (!(sync || vis.len() > 0 || created.len() > 0 || nick.len() > 0) ==> self.detail is None)
    }
}

/// Law: a Microsoft 365 group (`groupTypes` holds "Unified") is labelled
/// "M365 Dynamic" when `groupTypes` also holds "DynamicMembership" and
/// "M365 Assigned" otherwise, whatever its security and mail flags.
pub proof fn lemma_m365_group_label(row: GroupAuditRow, g: JsonValue, owners: nat, members: MemberCount)
    requires
        row.shows(g, owners, members),
        has_group_type(g, "Unified"@),
    ensures
        row.group_type@ == if has_group_type(g, "DynamicMembership"@) { "M365 Dynamic"@ } else { "M365 Assigned"@ },
{
}

/// Law: a group that is neither Microsoft 365 nor dynamic is labelled by its
/// flags alone: security and mail "Mail-Enabled Sec", security only "Security
/// Assigned", mail only "Distribution", neither "Other".
pub proof fn lemma_assigned_group_label(row: GroupAuditRow, g: JsonValue, owners: nat, members: MemberCount)
    requires
        row.shows(g, owners, members),
        !has_group_type(g, "Unified"@),
        !has_group_type(g, "DynamicMembership"@),
    ensures
        row.group_type@ == if g.bool_or("securityEnabled"@, false) && g.bool_or("mailEnabled"@, false) {
            "Mail-Enabled Sec"@
        } else if g.bool_or("securityEnabled"@, false) {
            "Security Assigned"@
        } else if g.bool_or("mailEnabled"@, false) {
            "Distribution"@
        } else {
            "Other"@
        },
{
}

fn join_issues(issues: &Vec<&str>) -> (r: String)
    ensures
        r@ == if issues@.len() == 0 { "-"@ } else { joined(issues@.map_values(|s: &str| s@), ","@) },
{
    if issues.len() == 0 {
        return owned("-");
    }
    let ghost parts = issues@.map_values(|s: &str| s@);
    let n = issues.len();
    let mut out = String::new();
    let mut i: usize = 0;
    while i < n
        invariant
            n == issues@.len(),
            parts == issues@.map_values(|s: &str| s@),
            i <= n,
            out@ == joined(parts.take(i as int), ","@),
        decreases n - i,
    {
        proof {
            assert(parts.take(i + 1).drop_last() =~= parts.take(i as int));
            assert(parts.take(i + 1).last() == parts[i as int]);
        }
        if i > 0 {
            out.append(",");
        }
        out.append(issues[i]);
        proof {
            if i == 0 {
                assert(out@ =~= parts.take(1)[0]);
            }
        }
        i = i + 1;
    }
    assert(parts.take(n as int) =~= parts);
    out
}

/// The audit row of one group, given its owner and member counts.
pub fn group_audit_row(g: &JsonValue, owners: usize, members: MemberCount) -> (r: GroupAuditRow)
    requires
        byte_prefix_ok(g.str_or("createdDateTime"@, ""@), 10),
    ensures
        r.shows(*g, owners as nat, members),
{
    let display_name = g.str_or_default("displayName", "");
    let nick = g.str_or_default("mailNickname", "");
    let security = g.bool_or_default("securityEnabled", false);
    let mail = g.bool_or_default("mailEnabled", false);
    let role_assignable = g.bool_or_default("isAssignableToRole", false);
    let sync = g.bool_or_default("onPremisesSyncEnabled", false);
    let vis = g.str_or_default("visibility", "");
    let created = g.str_or_default("createdDateTime", "");
    let rule = g.str_or_default("membershipRule", "");
    let rule_state = g.str_or_default("membershipRuleProcessingState", "");
    let dynamic = group_type_present(g, "DynamicMembership");
    let m365 = group_type_present(g, "Unified");
    let label = if m365 && dynamic {
        "M365 Dynamic"
    } else if m365 {
        "M365 Assigned"
    } else if dynamic && security {
        "Security Dynamic"
    } else if security && mail {
        "Mail-Enabled Sec"
    } else if security {
        "Security Assigned"
    } else if mail {
        "Distribution"
    } else {
        "Other"
    };
    let mut issues: Vec<&str> = Vec::new();
    if members.count == 0 {
        issues.push("empty");
    } else if members.page_full {
        issues.push("100+");
    }
    if owners == 0 {
        issues.push("no-owner");
    }
    if dynamic && text_eq_ignore_ascii_case(rule_state.as_str(), "Paused") {
        issues.push("dyn-paused");
    }
    if role_assignable {
        issues.push("role-assign");
    }
    if sync {
        issues.push("on-prem-sync");
    }
    proof {
        assert(issues@.map_values(|s: &str| s@) =~= group_issues(*g, owners as nat, members.count as nat, members.page_full));
    }
    let issues_text = join_issues(&issues);
    let rule_line = if dynamic && rule.unicode_len() > 0 { Some(truncate(rule.as_str(), 100)) } else { None };
    let detail = if sync || vis.unicode_len() > 0 || created.unicode_len() > 0 || nick.unicode_len() > 0 {
        Some(GroupDetail {
            sync: if sync { owned("onprem") } else { owned("-") },
            visibility: if vis.unicode_len() == 0 { owned("-") } else { vis },
            created: byte_prefix(created.as_str(), 10),
            nickname: truncate(nick.as_str(), 30),
        })
    } else {
        None
    };
    GroupAuditRow {
        name: truncate(display_name.as_str(), 44),
        group_type: owned(label),
        security,
        mail,
        dynamic,
        owners,
        members: members.count,
        issues: issues_text,
        issues_tone: if members.count == 0 || owners == 0 { Tone::Yellow } else { Tone::Plain },
        rule: rule_line,
        detail,
    }
}

/// The group health audit.
pub struct GroupAudit {
    pub rows: Vec<GroupAuditRow>,
    pub total: usize,
    pub dynamic: usize,
    pub role_assignable: usize,
    pub ownerless: usize,
    pub empty: usize,
}

/// Audits the groups, given each group's owner and member counts (a count
/// Graph would not give is taken as 0).
pub fn group_audit(groups: &Vec<JsonValue>, owners: &Vec<usize>, members: &Vec<MemberCount>) -> (r: GroupAudit)
    requires
        owners@.len() == groups@.len(),
        members@.len() == groups@.len(),
        forall|i: int| 0 <= i < groups@.len() ==> byte_prefix_ok(#[trigger] groups@[i].str_or("createdDateTime"@, ""@), 10),
    ensures
        r.rows@.len() == groups@.len(),
        forall|i: int| 0 <= i < groups@.len() ==> (#[trigger] r.rows@[i]).shows(groups@[i], owners@[i] as nat, members@[i]),
        r.total == groups@.len(),
        r.dynamic == count_where(groups@, |g: JsonValue| is_dynamic(g)),
        r.role_assignable == count_where(groups@, |g: JsonValue| is_role_assignable(g)),
        r.ownerless == count_where(owners@, |c: usize| c == 0),
        r.empty == count_where(members@, |c: MemberCount| c.count == 0),
{
    let ghost pd = |g: JsonValue| is_dynamic(g);
    let ghost pr = |g: JsonValue| is_role_assignable(g);
    let ghost pz = |c: usize| c == 0;
    let ghost pe = |c: MemberCount| c.count == 0;
    let n = groups.len();
    let mut rows: Vec<GroupAuditRow> = Vec::new();
    let mut dynamic: usize = 0;
    let mut role_assignable: usize = 0;
    let mut ownerless: usize = 0;
    let mut empty: usize = 0;
    let mut i: usize = 0;
    while i < n
        invariant
            n == groups@.len(),
            owners@.len() == n,
            members@.len() == n,
            i <= n,
            forall|k: int| 0 <= k < groups@.len() ==> byte_prefix_ok(#[trigger] groups@[k].str_or("createdDateTime"@, ""@), 10),
            pd == (|g: JsonValue| is_dynamic(g)),
            pr == (|g: JsonValue| is_role_assignable(g)),
            pz == (|c: usize| c == 0),
            pe == (|c: MemberCount| c.count == 0),
            rows@.len() == i,
            forall|k: int| 0 <= k < i ==> (#[trigger] rows@[k]).shows(groups@[k], owners@[k] as nat, members@[k]),
            dynamic == count_where(groups@.take(i as int), pd),
            role_assignable == count_where(groups@.take(i as int), pr),
            ownerless == count_where(owners@.take(i as int), pz),
            empty == count_where(members@.take(i as int), pe),
        decreases n - i,
    {
        let row = group_audit_row(&groups[i], owners[i], members[i]);
        proof {
            lemma_count_step(groups@, pd, i as int);
            lemma_count_step(groups@, pr, i as int);
            lemma_count_step(owners@, pz, i as int);
            lemma_count_step(members@, pe, i as int);
        }
        if row.dynamic {
            dynamic = dynamic + 1;
        }
        if groups[i].bool_or_default("isAssignableToRole", false) {
            role_assignable = role_assignable + 1;
        }
        if owners[i] == 0 {
            ownerless = ownerless + 1;
        }
        if members[i].count == 0 {
            empty = empty + 1;
        }
        rows.push(row);
        i = i + 1;
    }
    proof {
        lemma_take_all(groups@);
        lemma_take_all(owners@);
        lemma_take_all(members@);
    }
    GroupAudit { rows, total: n, dynamic, role_assignable, ownerless, empty }
}

} // verus!
