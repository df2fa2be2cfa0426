//! The users page: overview statistics, filtering, the create/edit form and
//! its submission, the group and role pickers, and the card's derived labels.

use vstd::prelude::*;
use crate::api::{self, CreateUserRequest, ManageUserRequest};
use crate::text::{views, occurs_at, 
    char_to_uppercase, chars_of, contains_chars, has_prefix, i64_string, lowercase,
    parse_i64, parse_i64_spec, seq_contains, signed_decimal, starts_with_chars, str_eq,
    to_lowercase, trim_seq, trim_str, uppercase_char, u64_string, decimal, copy_str, push_char,
};

verus! {

/// A user as the admin list returns it.
#[derive(Debug)]
pub struct AdminUser {
    /// Stable user key.
    pub key: String,
    pub username: String,
    pub display_name: String,
    pub email: String,
    /// 1 user, 10 administrator, 100 root.
    pub role: u16,
    /// 1 enabled, 2 disabled.
    pub status: u8,
    pub quota: i64,
    pub used_quota: i64,
    pub request_count: i64,
    /// Backend timestamp, RFC 3339.
    pub created_at: String,
    /// Effective groups; the first one is billed.
    pub groups: Vec<String>,
}

/// Sum of the quotas of the users.
pub open spec fn sum_quota(users: Seq<AdminUser>) -> int
    decreases users.len(),
{
    if users.len() == 0 {
        0
    } else {
        sum_quota(users.drop_last()) + users.last().quota
    }
}

/// Sum of the used quotas of the users.
pub open spec fn sum_used(users: Seq<AdminUser>) -> int
    decreases users.len(),
{
    if users.len() == 0 {
        0
    } else {
        sum_used(users.drop_last()) + users.last().used_quota
    }
}

/// The overview numbers of the users page.
#[derive(Debug, Clone, Copy, PartialEq, Eq)]
pub struct UserStats {
    pub total: usize,
    pub enabled: usize,
    pub new_this_month: usize,
    pub granted: i64,
    pub consumed: i64,
}

/// The user is enabled.
pub open spec fn is_enabled(u: AdminUser) -> bool {
    u.status == 1
}

/// The user was created in the month whose `YYYY-MM` prefix is given.
pub open spec fn created_in(u: AdminUser, month: Seq<char>) -> bool {
    has_prefix(u.created_at@, month)
}

/// Totals: users, enabled users, users created this month (by the prefix of
/// their creation time), granted quota and used quota. The sums must fit the
/// quota type.
pub fn user_stats(users: &Vec<AdminUser>, month: &str) -> (s: UserStats)
    requires
        forall|n: int|
            0 <= n <= users@.len() ==> i64::MIN <= #[trigger] sum_quota(users@.take(n)) <= i64::MAX,
        forall|n: int|
            0 <= n <= users@.len() ==> i64::MIN <= #[trigger] sum_used(users@.take(n)) <= i64::MAX,
    ensures
        s.total == users@.len(),
        s.enabled == users@.filter(|u: AdminUser| is_enabled(u)).len(),
        s.new_this_month == users@.filter(|u: AdminUser| created_in(u, month@)).len(),
        s.granted == sum_quota(users@),
        s.consumed == sum_used(users@),
{
    let ghost us = users@;
    let ghost pe = |u: AdminUser| is_enabled(u);
    let ghost pm = |u: AdminUser| created_in(u, month@);
    let mc = chars_of(month);
    let mut enabled: usize = 0;
    let mut fresh: usize = 0;
    let mut granted: i64 = 0;
    let mut consumed: i64 = 0;
    let mut i: usize = 0;
    while i < users.len()
        invariant
            i <= us.len(),
            us == users@,
            mc@ == month@,
            pe == (|u: AdminUser| is_enabled(u)),
            pm == (|u: AdminUser| created_in(u, month@)),
            forall|n: int|
                0 <= n <= us.len() ==> i64::MIN <= #[trigger] sum_quota(us.take(n)) <= i64::MAX,
            forall|n: int|
                0 <= n <= us.len() ==> i64::MIN <= #[trigger] sum_used(us.take(n)) <= i64::MAX,
            enabled == us.take(i as int).filter(pe).len(),
            fresh == us.take(i as int).filter(pm).len(),
            granted == sum_quota(us.take(i as int)),
            consumed == sum_used(us.take(i as int)),
        decreases users.len() - i,
    {
        let u = &users[i];
        proof {
            reveal(Seq::filter);
            let t = us.take(i + 1);
            assert(t.drop_last() =~= us.take(i as int));
            assert(t.last() == us[i as int]);
            us.take(i as int).lemma_filter_len(pe);
            us.take(i as int).lemma_filter_len(pm);
        }
        proof {
            let t = us.take(i + 1);
            assert(sum_quota(t) == sum_quota(us.take(i as int)) + us[i as int].quota);
            assert(sum_used(t) == sum_used(us.take(i as int)) + us[i as int].used_quota);
            assert(i64::MIN <= sum_quota(us.take(i + 1)) <= i64::MAX);
            assert(i64::MIN <= sum_used(us.take(i + 1)) <= i64::MAX);
        }
        if u.status == 1 {
            enabled = enabled + 1;
        }
        let ca = chars_of(u.created_at.as_str());
        if starts_with_chars(&ca, &mc) {
            fresh = fresh + 1;
        }
        granted = granted + u.quota;
        consumed = consumed + u.used_quota;
        i = i + 1;
    }
    assert(us.take(us.len() as int) =~= us);
    UserStats { total: users.len(), enabled, new_this_month: fresh, granted, consumed }
}

/// How many users were created in month `m` of year `y`.
pub open spec fn created_count(users: Seq<AdminUser>, y: i32, m: u32) -> nat {
    users.filter(|u: AdminUser| created_in(u, api::year_month_text(y as int, m as nat))).len()
}

/// What an overview card shows: a count, or a quota amount that is shown
/// in yuan.
#[derive(Debug, Clone, Copy, PartialEq, Eq, Structural)]
pub enum StatValue {
    Count(usize),
    Quota(i64),
}

/// The five overview cards: value and label.
pub open spec fn stat_card_values(s: UserStats) -> Seq<(StatValue, Seq<char>)> {
    seq![
        (StatValue::Count(s.total), "总用户"@),
        (StatValue::Count(s.enabled), "启用中"@),
        (StatValue::Count(s.new_this_month), "本月新增"@),
        (StatValue::Quota(s.granted), "总发放额度"@),
        (StatValue::Quota(s.consumed), "总消耗"@),
    ]
}

/// The overview cards of the statistics.
pub fn stat_cards(s: &UserStats) -> (r: Vec<(StatValue, &'static str)>)
    ensures
        r@.len() == 5,
        forall|i: int|
            #![trigger r@[i]]
            0 <= i < 5 ==> r@[i].0 == stat_card_values(*s)[i].0 && r@[i].1@ == stat_card_values(
                *s,
            )[i].1,
{
    let mut r: Vec<(StatValue, &'static str)> = Vec::new();
    r.push((StatValue::Count(s.total), "总用户"));
    r.push((StatValue::Count(s.enabled), "启用中"));
    r.push((StatValue::Count(s.new_this_month), "本月新增"));
    r.push((StatValue::Quota(s.granted), "总发放额度"));
    r.push((StatValue::Quota(s.consumed), "总消耗"));
    r
}

/// The user passes the page filters: the lower-cased trimmed search text
/// occurs in the lower-cased user name or email (an empty search passes
/// everyone), the wanted group is among the user's groups (empty: any), the
/// status and role equal the wanted ones (0: any).
pub open spec fn user_matches(
    u: AdminUser,
    search: Seq<char>,
    group: Seq<char>,
    status: u8,
    role: u16,
) -> bool {
    let q = lowercase(trim_seq(search));
    &&& (q.len() == 0 || seq_contains(lowercase(u.username@), q) || seq_contains(
        lowercase(u.email@),
        q,
    ))
    &&& (group.len() == 0 || exists|j: int|
        0 <= j < u.groups@.len() && #[trigger] u.groups@[j]@ == group)
    &&& (status == 0 || u.status == status)
    &&& (role == 0 || u.role == role)
}

/// Indices of the users that pass the filters, in list order.
pub open spec fn matching_indices(
    users: Seq<AdminUser>,
    search: Seq<char>,
    group: Seq<char>,
    status: u8,
    role: u16,
    n: int,
) -> Seq<usize>
    decreases n,
{
    if n <= 0 {
        seq![]
    } else if user_matches(users[n - 1], search, group, status, role) {
        matching_indices(users, search, group, status, role, n - 1).push((n - 1) as usize)
    } else {
        matching_indices(users, search, group, status, role, n - 1)
    }
}

fn has_group(groups: &Vec<String>, group: &str) -> (r: bool)
    ensures
        r == exists|j: int| 0 <= j < groups@.len() && #[trigger] groups@[j]@ == group@,
{
    let mut j: usize = 0;
    while j < groups.len()
        invariant
            j <= groups@.len(),
            forall|x: int| 0 <= x < j ==> groups@[x]@ != group@,
        decreases groups.len() - j,
    {
        if str_eq(groups[j].as_str(), group) {
            return true;
        }
        j = j + 1;
    }
    false
}

/// The list filters of the users page: positions of the matching users.
pub fn filter_users(
    users: &Vec<AdminUser>,
    search: &str,
    want_group: &str,
    want_status: u8,
    want_role: u16,
) -> (r: Vec<usize>)
    ensures
        r@ == matching_indices(
            users@,
            search@,
            want_group@,
            want_status,
            want_role,
            users@.len() as int,
        ),
{
    let t = trim_str(search);
    let q = to_lowercase(t.as_str());
    let qc = chars_of(q.as_str());
    let empty_q = qc.len() == 0;
    let empty_group = want_group.is_empty();
    let mut r: Vec<usize> = Vec::new();
    let mut i: usize = 0;
    while i < users.len()
        invariant
            i <= users@.len(),
            qc@ == lowercase(trim_seq(search@)),
            empty_q == (qc@.len() == 0),
            empty_group == (want_group@.len() == 0),
            r@ == matching_indices(users@, search@, want_group@, want_status, want_role, i as int),
        decreases users.len() - i,
    {
        let u = &users[i];
        let mut ok = true;
        if !empty_q {
            let name = to_lowercase(u.username.as_str());
            let mail = to_lowercase(u.email.as_str());
            let nc = chars_of(name.as_str());
            let mcs = chars_of(mail.as_str());
            if !contains_chars(&nc, &qc) && !contains_chars(&mcs, &qc) {
                ok = false;
            }
        }
        if ok && !empty_group && !has_group(&u.groups, want_group) {
            ok = false;
        }
        if ok && want_status != 0 && u.status != want_status {
            ok = false;
        }
        if ok && want_role != 0 && u.role != want_role {
            ok = false;
        }
        assert(ok == user_matches(users@[i as int], search@, want_group@, want_status, want_role));
        if ok {
            r.push(i);
        }
        i = i + 1;
    }
    r
}

/// The group filter options: `全部` (no filtering) followed by the backend's
/// groups.
pub fn filter_group_options(groups: &Vec<(String, String)>) -> (r: Vec<(String, String)>)
    ensures
        r@.len() == groups@.len() + 1,
        r@[0].0@ == "全部"@,
        r@[0].1@ == Seq::<char>::empty(),
        forall|i: int|
            #![trigger r@[i + 1]]
            0 <= i < groups@.len() ==> r@[i + 1].0@ == groups@[i].0@ && r@[i + 1].1@
                == groups@[i].1@,
{
    let mut r: Vec<(String, String)> = Vec::new();
    r.push(("全部".to_owned(), String::new()));
    let mut i: usize = 0;
    while i < groups.len()
        invariant
            i <= groups@.len(),
            r@.len() == i + 1,
            r@[0].0@ == "全部"@,
            r@[0].1@ == Seq::<char>::empty(),
            forall|j: int|
                #![trigger r@[j + 1]]
                0 <= j < i ==> r@[j + 1].0@ == groups@[j].0@ && r@[j + 1].1@ == groups@[j].1@,
        decreases groups.len() - i,
    {
        r.push((groups[i].0.clone(), groups[i].1.clone()));
        i = i + 1;
    }
    r
}

/// What the create/edit dialog is showing.
#[derive(Debug, Clone, PartialEq)]
pub enum FormState {
    Closed,
    New,
    /// Editing the user with this key.
    Edit(String),
}

/// The tabs of the user dialog.
#[derive(Clone, Copy, PartialEq, Eq, Debug, Structural)]
pub enum FormTab {
    /// Name, email, password, role, quota.
    Basic,
    /// Effective groups and remark.
    Group,
    /// Third-party bindings (read-only).
    Binding,
}

/// The tabs in order, with their labels.
pub fn tab_labels() -> (r: [(FormTab, &'static str); 3])
    ensures
        r[0].0 == FormTab::Basic && r[0].1@ == "基本信息"@,
        r[1].0 == FormTab::Group && r[1].1@ == "分组与备注"@,
        r[2].0 == FormTab::Binding && r[2].1@ == "绑定"@,
{
    [(FormTab::Basic, "基本信息"), (FormTab::Group, "分组与备注"), (FormTab::Binding, "绑定")]
}

/// The fields of the user dialog.
#[derive(Debug)]
pub struct FormFields {
    pub username: String,
    pub email: String,
    pub password: String,
    /// Quota as typed.
    pub quota: String,
    pub groups: Vec<String>,
    pub remark: String,
    pub role: u16,
}

/// The fields of a new user: empty, quota 5 000 000, group `default`, role 1.
pub fn new_form() -> (f: FormFields)
    ensures
        f.username@.len() == 0,
        f.email@.len() == 0,
        f.password@.len() == 0,
        f.quota@ == "5000000"@,
        f.groups@.len() == 1,
        f.groups@[0]@ == "default"@,
        f.remark@.len() == 0,
        f.role == 1,
{
    let mut groups: Vec<String> = Vec::new();
    groups.push("default".to_owned());
    FormFields {
        username: String::new(),
        email: String::new(),
        password: String::new(),
        quota: "5000000".to_owned(),
        groups,
        remark: String::new(),
        role: 1,
    }
}

fn copy_strings(v: &Vec<String>) -> (r: Vec<String>)
    ensures
        r@.len() == v@.len(),
        forall|i: int| 0 <= i < v@.len() ==> #[trigger] r@[i]@ == v@[i]@,
{
    let mut r: Vec<String> = Vec::new();
    let mut i: usize = 0;
    while i < v.len()
        invariant
            i <= v@.len(),
            r@.len() == i,
            forall|j: int| 0 <= j < i ==> #[trigger] r@[j]@ == v@[j]@,
        decreases v.len() - i,
    {
        r.push(v[i].clone());
        i = i + 1;
    }
    r
}

/// Index of the first user with the key.
pub open spec fn first_user_with_key(users: Seq<AdminUser>, key: Seq<char>, i: int) -> bool {
    0 <= i < users.len() && users[i].key@ == key && forall|j: int|
        0 <= j < i ==> #[trigger] users[j].key@ != key
}

fn find_user(users: &Vec<AdminUser>, key: &str) -> (r: Option<usize>)
    ensures
        match r {
            Some(i) => first_user_with_key(users@, key@, i as int),
            None => forall|j: int| 0 <= j < users@.len() ==> #[trigger] users@[j].key@ != key@,
        },
{
    let mut i: usize = 0;
    while i < users.len()
        invariant
            i <= users@.len(),
            forall|j: int| 0 <= j < i ==> #[trigger] users@[j].key@ != key@,
        decreases users.len() - i,
    {
        if str_eq(users[i].key.as_str(), key) {
            return Some(i);
        }
        i = i + 1;
    }
    None
}

/// The dialog fields prefilled from the first user with the key: name, email,
/// quota as text, groups and role; password and remark empty. `None` when no
/// user has the key.
pub fn edit_form(users: &Vec<AdminUser>, key: &str) -> (r: Option<FormFields>)
    ensures
        match r {
            None => forall|j: int| 0 <= j < users@.len() ==> #[trigger] users@[j].key@ != key@,
            Some(f) => exists|i: int|
                first_user_with_key(users@, key@, i) && {
                    let u = users@[i];
                    &&& f.username@ == u.username@
                    &&& f.email@ == u.email@
                    &&& f.password@.len() == 0
                    &&& f.quota@ == signed_decimal(u.quota as int)
                    &&& f.groups@.len() == u.groups@.len()
                    &&& forall|g: int|
                        0 <= g < u.groups@.len() ==> #[trigger] f.groups@[g]@ == u.groups@[g]@
                    &&& f.remark@.len() == 0
                    &&& f.role == u.role
                },
        },
{
    match find_user(users, key) {
        None => None,
        Some(i) => {
            let u = &users[i];
            Some(
                FormFields {
                    username: u.username.clone(),
                    email: u.email.clone(),
                    password: String::new(),
                    quota: i64_string(u.quota),
                    groups: copy_strings(&u.groups),
                    remark: String::new(),
                    role: u.role,
                },
            )
        },
    }
}

/// What saving the dialog does.
#[derive(Debug)]
pub enum FormSubmit {
    /// Nothing (the read-only binding tab).
    Nothing,
    /// A manage action on the edited user: action name and value.
    Manage(String, Option<String>),
    /// Create a user.
    Create(CreateUserRequest),
}

/// The groups joined with commas.
pub open spec fn join_commas(gs: Seq<Seq<char>>) -> Seq<char>
    decreases gs.len(),
{
    if gs.len() == 0 {
        seq![]
    } else if gs.len() == 1 {
        gs[0]
    } else {
        join_commas(gs.drop_last()) + seq![','] + gs.last()
    }
}

fn join_groups(gs: &Vec<String>) -> (r: String)
    ensures
        r@ == join_commas(views(gs@)),
{
    let mut r = String::new();
    let mut i: usize = 0;
    while i < gs.len()
        invariant
            i <= gs@.len(),
            r@ == join_commas(views(gs@.take(i as int))),
        decreases gs.len() - i,
    {
        if i > 0 {
            crate::text::push_char(&mut r, ',');
        }
        r.append(gs[i].as_str());
        proof {
            let t = views(gs@.take(i + 1));
            assert(t.drop_last() =~= views(gs@.take(i as int)));
            assert(t.last() == gs@[i as int]@);
        }
        i = i + 1;
    }
    assert(gs@.take(gs@.len() as int) =~= gs@);
    r
}

/// The quota a new user gets from the typed text: its trimmed value when it
/// parses as an integer, 0 otherwise.
pub open spec fn typed_quota(text: Seq<char>) -> int {
    match parse_i64_spec(trim_seq(text)) {
        Some(v) => v,
        None => 0,
    }
}

/// Saving the dialog. Editing writes back the field of the open tab (the role
/// on the basic tab, the comma-joined groups on the group tab, nothing on the
/// binding tab); creating sends the fields, with no email when it is blank
/// and the typed quota.
pub fn submit_form(editing: bool, tab: FormTab, f: &FormFields) -> (r: FormSubmit)
    ensures
        editing && tab == FormTab::Basic ==> (r matches FormSubmit::Manage(a, Some(v)) && a@
            == "set_role"@ && v@ == decimal(f.role as nat)),
        editing && tab == FormTab::Group ==> (r matches FormSubmit::Manage(a, Some(v)) && a@
            == "set_groups"@ && v@ == join_commas(views(f.groups@))),
        editing && tab == FormTab::Binding ==> r is Nothing,
        !editing ==> (r matches FormSubmit::Create(req) && {
            &&& req.username@ == f.username@
            &&& req.password@ == f.password@
            &&& (if trim_seq(f.email@).len() == 0 {
                req.email is None
            } else {
                req.email matches Some(e) && e@ == f.email@
            })
            &&& req.role == f.role
            &&& req.quota == typed_quota(f.quota@)
            &&& req.groups@.len() == f.groups@.len()
            &&& forall|g: int| 0 <= g < f.groups@.len() ==> #[trigger] req.groups@[g]@ == f.groups@[g]@
        }),
{
    if editing {
        match tab {
            FormTab::Basic => FormSubmit::Manage(
                "set_role".to_owned(),
                Some(u64_string(f.role as u64)),
            ),
            FormTab::Group => FormSubmit::Manage("set_groups".to_owned(), Some(join_groups(&f.groups))),
            FormTab::Binding => FormSubmit::Nothing,
        }
    } else {
        let te = trim_str(f.email.as_str());
        let email = if te.as_str().is_empty() {
            None
        } else {
            Some(f.email.clone())
        };
        let tq = trim_str(f.quota.as_str());
        let qc = chars_of(tq.as_str());
        let quota = match parse_i64(&qc) {
            Some(v) => v,
            None => 0,
        };
        FormSubmit::Create(
            CreateUserRequest {
                username: f.username.clone(),
                password: f.password.clone(),
                email,
                role: f.role,
                quota,
                groups: copy_strings(&f.groups),
            },
        )
    }
}

/// The quota the hint under the quota input shows in yuan: the trimmed text
/// read as an integer, or `None` (shown as `—`) when it is not one.
pub fn quota_hint(text: &str) -> (r: Option<i64>)
    ensures
        match parse_i64_spec(trim_seq(text@)) {
            Some(v) => r == Some(v as i64),
            None => r is None,
        },
{
    let t = trim_str(text);
    let c = chars_of(t.as_str());
    parse_i64(&c)
}

/// The email shown on the binding tab: `-` when there is none.
pub fn bound_email(email: &str) -> (r: String)
    ensures
        email@.len() == 0 ==> r@ == "-"@,
        email@.len() > 0 ==> r@ == email@,
{
    if email.is_empty() {
        "-".to_owned()
    } else {
        email.to_owned()
    }
}

/// Every group but `v`.
pub open spec fn other_than(v: Seq<char>) -> spec_fn(Seq<char>) -> bool {
    |g: Seq<char>| g != v
}

/// Clicking a group chip: every copy of the group leaves the selection; a
/// group that was not selected is appended instead.
pub open spec fn toggled_groups(sel: Seq<Seq<char>>, v: Seq<char>) -> Seq<Seq<char>> {
    let kept = sel.filter(other_than(v));
    if kept.len() == sel.len() {
        kept.push(v)
    } else {
        kept
    }
}

/// The selected groups after clicking the chip of `v`.
pub fn toggle_group(selected: &Vec<String>, v: &str) -> (r: Vec<String>)
    ensures
        views(r@) == toggled_groups(views(selected@), v@),
{
    let ghost pred = other_than(v@);
    let ghost sv = views(selected@);
    let mut next: Vec<String> = Vec::new();
    let mut i: usize = 0;
    while i < selected.len()
        invariant
            i <= selected@.len(),
            sv == views(selected@),
            pred == other_than(v@),
            views(next@) == sv.take(i as int).filter(pred),
        decreases selected.len() - i,
    {
        let ghost before = views(next@);
        proof {
            reveal(Seq::filter);
            assert(sv.take(i + 1).drop_last() =~= sv.take(i as int));
            assert(sv.take(i + 1).last() == selected@[i as int]@);
        }
        if !str_eq(selected[i].as_str(), v) {
            next.push(selected[i].clone());
            assert(views(next@) =~= before.push(selected@[i as int]@));
        }
        i = i + 1;
    }
    assert(sv.take(sv.len() as int) =~= sv);
    if next.len() == selected.len() {
        let ghost before = views(next@);
        next.push(v.to_owned());
        assert(views(next@) =~= before.push(v@));
    }
    next
}

/// Clicking a chip flips whether its group is selected; clicking an
/// unselected chip twice restores the selection.
pub proof fn law_group_toggle(sel: Seq<Seq<char>>, v: Seq<char>)
    ensures
        toggled_groups(sel, v).contains(v) <==> !sel.contains(v),
        !sel.contains(v) ==> toggled_groups(toggled_groups(sel, v), v) == sel,
{
    let pred = other_than(v);
    let kept = sel.filter(pred);
    if sel.contains(v) {
        let i = choose|i: int| 0 <= i < sel.len() && sel[i] == v;
        assert(kept.len() < sel.len()) by {
            lemma_filter_drops(sel, v, i);
        }
        assert(!kept.contains(v)) by {
            if kept.contains(v) {
                sel.lemma_filter_contains_rev(pred, v);
            }
        }
    } else {
        lemma_filter_keeps_all(sel, v);
        assert(kept == sel);
        assert(sel.push(v).contains(v)) by {
            assert(sel.push(v)[sel.len() as int] == v);
        }
        let s2 = sel.push(v);
        let k2 = s2.filter(pred);
        assert(k2 == sel) by {
            reveal(Seq::filter);
            assert(s2.drop_last() =~= sel);
        }
        assert(k2.len() != s2.len());
    }
}

proof fn lemma_filter_keeps_all(s: Seq<Seq<char>>, v: Seq<char>)
    requires
        !s.contains(v),
    ensures
        s.filter(other_than(v)) == s,
    decreases s.len(),
{
    reveal(Seq::filter);
    if s.len() > 0 {
        let d = s.drop_last();
        assert(!d.contains(v)) by {
            if d.contains(v) {
                let i = choose|i: int| 0 <= i < d.len() && d[i] == v;
                assert(s[i] == v);
            }
        }
        lemma_filter_keeps_all(d, v);
        assert(s.last() != v) by {
            assert(s[s.len() - 1] == s.last());
        }
        assert(d.push(s.last()) =~= s);
    }
}

proof fn lemma_filter_drops(s: Seq<Seq<char>>, v: Seq<char>, i: int)
    requires
        0 <= i < s.len(),
        s[i] == v,
    ensures
        s.filter(other_than(v)).len() < s.len(),
    decreases s.len(),
{
    reveal(Seq::filter);
    let d = s.drop_last();
    if i == s.len() - 1 {
        d.lemma_filter_len(other_than(v));
    } else {
        lemma_filter_drops(d, v, i);
    }
}

/// The role choices of the dialog: the role options without `全部`.
pub fn role_chip_items() -> (r: Vec<(&'static str, u16)>)
    ensures
        r@.len() == 3,
        r@[0].0@ == api::role_options()[1].0 && r@[0].1 == api::role_options()[1].1,
        r@[1].0@ == api::role_options()[2].0 && r@[1].1 == api::role_options()[2].1,
        r@[2].0@ == api::role_options()[3].0 && r@[2].1 == api::role_options()[3].1,
{
    let roles = api::fetch_roles();
    let mut r: Vec<(&'static str, u16)> = Vec::new();
    let mut i: usize = 0;
    while i < roles.len()
        invariant
            i <= roles@.len(),
            roles@.len() == 4,
            forall|j: int|
                #![trigger roles@[j]]
                0 <= j < 4 ==> roles@[j].0@ == api::role_options()[j].0 && roles@[j].1
                    == api::role_options()[j].1,
            i >= 1 ==> r@.len() == i - 1,
            i == 0 ==> r@.len() == 0,
            forall|j: int|
                #![trigger r@[j]]
                0 <= j < r@.len() ==> r@[j].0@ == api::role_options()[j + 1].0 && r@[j].1
                    == api::role_options()[j + 1].1,
        decreases roles.len() - i,
    {
        assert(roles@[0].1 == 0 && roles@[1].1 == 1 && roles@[2].1 == 10 && roles@[3].1 == 100);
        if roles[i].1 != 0 {
            r.push(roles[i]);
        }
        i = i + 1;
    }
    r
}

/// The manage action of the enable/disable button: `disable` for an enabled
/// user, `enable` otherwise.
pub fn toggle_action(status: u8) -> (r: &'static str)
    ensures
        status == 1 ==> r@ == "disable"@,
        status != 1 ==> r@ == "enable"@,
{
    if status == 1 {
        "disable"
    } else {
        "enable"
    }
}

/// The label of the enable/disable button: `禁用` for an enabled user, `启用`
/// otherwise.
pub fn toggle_label(status: u8) -> (r: &'static str)
    ensures
        status == 1 ==> r@ == "禁用"@,
        status != 1 ==> r@ == "启用"@,
{
    if status == 1 {
        "禁用"
    } else {
        "启用"
    }
}

/// The colour of the usage bar: red from 90 %, amber from 70 %, green below.
pub fn bar_tone(pct: u32) -> (r: &'static str)
    ensures
        pct >= 90 ==> r@ == "bg-red-500"@,
        70 <= pct < 90 ==> r@ == "bg-amber-500"@,
        pct < 70 ==> r@ == "bg-emerald-500"@,
{
    if pct >= 90 {
        "bg-red-500"
    } else if pct >= 70 {
        "bg-amber-500"
    } else {
        "bg-emerald-500"
    }
}

/// The first character of the display name, else of the user name, else `?`.
pub open spec fn initial_char(display_name: Seq<char>, username: Seq<char>) -> char {
    if display_name.len() > 0 {
        display_name[0]
    } else if username.len() > 0 {
        username[0]
    } else {
        '?'
    }
}

/// The avatar letter: the upper-cased initial.
pub fn avatar_initial(display_name: &str, username: &str) -> (r: String)
    ensures
        r@ == uppercase_char(initial_char(display_name@, username@)),
{
    let d = chars_of(display_name);
    let u = chars_of(username);
    let c = if d.len() > 0 {
        d[0]
    } else if u.len() > 0 {
        u[0]
    } else {
        '?'
    };
    char_to_uppercase(c)
}

/// The quota of the user a top-up is for: that of the first user with the
/// key, 0 when there is none.
pub fn topup_quota(users: &Vec<AdminUser>, key: &str) -> (q: i64)
    ensures
        match find_first(users@, key@) {
            Some(i) => q == users@[i].quota,
            None => q == 0,
        },
{
    match find_user(users, key) {
        Some(i) => users[i].quota,
        None => 0,
    }
}

/// Position of the first user with the key.
pub open spec fn find_first(users: Seq<AdminUser>, key: Seq<char>) -> Option<int> {
    if exists|i: int| first_user_with_key(users, key, i) {
        Some(choose|i: int| first_user_with_key(users, key, i))
    } else {
        None
    }
}

/// The notice after a write call: the success text, or the failure prefix,
/// a colon and the error's text.
pub open spec fn write_notice(ok_text: Seq<char>, err_prefix: Seq<char>, result: Result<(), Seq<char>>) -> Seq<char> {
    match result {
        Ok(_) => ok_text,
        Err(e) => err_prefix + ":"@ + e,
    }
}

/// The error text of a call's result, by its view.
pub open spec fn result_view(result: Result<(), String>) -> Result<(), Seq<char>> {
    match result {
        Ok(u) => Ok(u),
        Err(e) => Err(e@),
    }
}

fn notice_for(ok_text: &str, err_prefix: &str, result: &Result<(), String>) -> (r: String)
    ensures
        r@ == write_notice(ok_text@, err_prefix@, result_view(*result)),
{
    proof {
        reveal_strlit(":");
    }
    match result {
        Ok(_) => {
            let s = copy_str(ok_text);
            assert(result_view(*result) is Ok);
            s
        },
        Err(e) => {
            let mut s = copy_str(err_prefix);
            push_char(&mut s, ':');
            s.append(e.as_str());
            assert(s@ =~= err_prefix@ + ":"@ + e@);
            s
        },
    }
}

/// After creating a user: the notice, and whether the list is reloaded
/// (only on success).
pub fn create_outcome(result: &Result<(), String>) -> (r: (String, bool))
    ensures
        r.0@ == write_notice("用户已创建"@, "创建失败"@, result_view(*result)),
        r.1 == result.is_ok(),
{
    (notice_for("用户已创建", "创建失败", result), result.is_ok())
}

/// After a management call (enable, disable, edit, top-up): the notice, and
/// whether the list is reloaded (only on success).
pub fn manage_outcome(result: &Result<(), String>) -> (r: (String, bool))
    ensures
        r.0@ == write_notice("操作成功"@, "操作失败"@, result_view(*result)),
        r.1 == result.is_ok(),
{
    (notice_for("操作成功", "操作失败", result), result.is_ok())
}

/// The accessibility role of the notice bar: `alert` for a failed
/// management call, `status` otherwise.
pub fn notice_role(msg: &str) -> (r: &'static str)
    ensures
        has_prefix(msg@, "操作失败"@) ==> r@ == "alert"@,
        !has_prefix(msg@, "操作失败"@) ==> r@ == "status"@,
{
    let m = chars_of(msg);
    let p = chars_of("操作失败");
    if starts_with_chars(&m, &p) {
        "alert"
    } else {
        "status"
    }
}

/// The management request of a top-up: `adjust_quota` by the amount.
pub fn topup_request(key: &str, amount: i64) -> (r: ManageUserRequest)
    ensures
        r.key@ == key@,
        r.action@ == "adjust_quota"@,
        r.value matches Some(v) && v@ == signed_decimal(amount as int),
{
    ManageUserRequest { key: copy_str(key), action: copy_str("adjust_quota"), value: Some(i64_string(amount)) }
}

/// The management request of the card's enable/disable button.
pub fn toggle_request(key: &str, status: u8) -> (r: ManageUserRequest)
    ensures
        r.key@ == key@,
        status == 1 ==> r.action@ == "disable"@,
        status != 1 ==> r.action@ == "enable"@,
        r.value is None,
{
    ManageUserRequest { key: copy_str(key), action: copy_str(toggle_action(status)), value: None }
}

/// Every user counts in the granted and consumed totals, whatever their
/// status: adding a user adds exactly their quota and used quota, and the
/// totals of two lists joined are the sums of their totals.
pub proof fn law_totals_count_every_user(us: Seq<AdminUser>, more: Seq<AdminUser>, u: AdminUser)
    ensures
        sum_quota(Seq::<AdminUser>::empty()) == 0,
        sum_used(Seq::<AdminUser>::empty()) == 0,
        sum_quota(us.push(u)) == sum_quota(us) + u.quota,
        sum_used(us.push(u)) == sum_used(us) + u.used_quota,
        sum_quota(us + more) == sum_quota(us) + sum_quota(more),
        sum_used(us + more) == sum_used(us) + sum_used(more),
    decreases more.len(),
{
    assert(us.push(u).drop_last() =~= us);
    if more.len() > 0 {
        law_totals_count_every_user(us, more.drop_last(), u);
        assert((us + more).drop_last() =~= us + more.drop_last());
        assert((us + more).last() == more.last());
    } else {
        assert(us + more =~= us);
    }
}

proof fn lemma_matching_lists(
    users: Seq<AdminUser>,
    search: Seq<char>,
    group: Seq<char>,
    status: u8,
    role: u16,
    n: int,
    i: int,
)
    requires
        0 <= i < n,
        user_matches(users[i], search, group, status, role),
    ensures
        matching_indices(users, search, group, status, role, n).contains(i as usize),
    decreases n,
{
    let m = matching_indices(users, search, group, status, role, n);
    if i == n - 1 {
        assert(m.last() == i as usize);
    } else {
        lemma_matching_lists(users, search, group, status, role, n - 1, i);
        let prev = matching_indices(users, search, group, status, role, n - 1);
        let x = choose|x: int| 0 <= x < prev.len() && prev[x] == i as usize;
        if user_matches(users[n - 1], search, group, status, role) {
            assert(m[x] == i as usize);
        }
    }
}

/// The search finds a user whose lower-cased user name or email holds the
/// lower-cased trimmed search text anywhere, not only at its start: such a
/// user, when the group, status and role filters pass too, is listed.
pub proof fn law_search_finds_substrings(
    users: Seq<AdminUser>,
    search: Seq<char>,
    group: Seq<char>,
    status: u8,
    role: u16,
    i: int,
    at: int,
)
    requires
        0 <= i < users.len(),
        ({
            let q = lowercase(trim_seq(search));
            let name = lowercase(users[i].username@);
            let mail = lowercase(users[i].email@);
            ||| (0 <= at && at + q.len() <= name.len() && name.subrange(at, at + q.len()) == q)
            ||| (0 <= at && at + q.len() <= mail.len() && mail.subrange(at, at + q.len()) == q)
        }),
        group.len() == 0 || exists|j: int|
            0 <= j < users[i].groups@.len() && #[trigger] users[i].groups@[j]@ == group,
        status == 0 || users[i].status == status,
        role == 0 || users[i].role == role,
    ensures
        matching_indices(users, search, group, status, role, users.len() as int).contains(
            i as usize,
        ),
{
    let q = lowercase(trim_seq(search));
    let name = lowercase(users[i].username@);
    let mail = lowercase(users[i].email@);
    assert(occurs_at(name, q, at) || occurs_at(mail, q, at));
    assert(seq_contains(name, q) || seq_contains(mail, q));
    lemma_matching_lists(users, search, group, status, role, users.len() as int, i);
}

} // verus!
