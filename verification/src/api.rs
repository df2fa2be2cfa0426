//! Data sources of the users page: the fixed filter options, the request body
//! for creating a user, the query path of the user list, the group options and
//! the `YYYY-MM` prefix of a month.

use vstd::prelude::*;
use crate::text::{
    decimal, i64_string, pad4, push_char, push_chars, signed_decimal, string_of, trim_seq,
    trim_str, two_digits, chars_of, digit_of,
};

verus! {

/// The group filter options, label and value, as a fixed list: only `全部`
/// (value empty, no filtering); the real groups come from the backend.
pub open spec fn group_options() -> Seq<(Seq<char>, Seq<char>)> {
    seq![("全部"@, ""@)]
}

/// The status filter options: label and status value; 0 means no filtering.
pub open spec fn status_options() -> Seq<(Seq<char>, u8)> {
    seq![("全部"@, 0u8), ("启用"@, 1u8), ("禁用"@, 2u8)]
}

/// The role filter options: label and role value; 0 means no filtering.
pub open spec fn role_options() -> Seq<(Seq<char>, u16)> {
    seq![("全部"@, 0u16), ("普通用户"@, 1u16), ("管理员"@, 10u16), ("Root"@, 100u16)]
}

/// Group filter options.
pub fn fetch_groups() -> (r: &'static [(&'static str, &'static str)])
    ensures
        r@.len() == group_options().len(),
        forall|i: int|
            #![trigger r@[i]]
            0 <= i < r@.len() ==> r@[i].0@ == group_options()[i].0 && r@[i].1@
                == group_options()[i].1,
{
    &[("全部", "")]
}

/// Status filter options.
pub fn fetch_statuses() -> (r: &'static [(&'static str, u8)])
    ensures
        r@.len() == status_options().len(),
        forall|i: int|
            #![trigger r@[i]]
            0 <= i < r@.len() ==> r@[i].0@ == status_options()[i].0 && r@[i].1
                == status_options()[i].1,
{
    &[("全部", 0u8), ("启用", 1u8), ("禁用", 2u8)]
}

/// Role filter options.
pub fn fetch_roles() -> (r: &'static [(&'static str, u16)])
    ensures
        r@.len() == role_options().len(),
        forall|i: int|
            #![trigger r@[i]]
            0 <= i < r@.len() ==> r@[i].0@ == role_options()[i].0 && r@[i].1
                == role_options()[i].1,
{
    &[("全部", 0u16), ("普通用户", 1u16), ("管理员", 10u16), ("Root", 100u16)]
}

/// Body of `POST /api/user/users`: an administrator creates a user with a role
/// (1, 10 or 100), a quota in internal units and the effective groups.
#[derive(Debug, Clone, Default)]
pub struct CreateUserRequest {
    pub username: String,
    pub password: String,
    pub email: Option<String>,
    pub role: u16,
    pub quota: i64,
    pub groups: Vec<String>,
}

/// Body of the user management call: the user's key, the action
/// (`enable`, `disable`, `set_role`, `set_groups`, `adjust_quota`) and its
/// value where the action takes one.
#[derive(Debug, Clone)]
pub struct ManageUserRequest {
    pub key: String,
    pub action: String,
    pub value: Option<String>,
}

/// `%Y` of a calendar year: four zero-padded digits for years 0 to 9999,
/// otherwise a sign and at least four digits.
pub open spec fn year_text(y: int) -> Seq<char> {
    if 0 <= y <= 9999 {
        pad4(y as nat)
    } else if y < 0 {
        seq!['-'] + pad4((-y) as nat)
    } else {
        seq!['+'] + pad4(y as nat)
    }
}

/// `YYYY-MM` of a year and a month.
pub open spec fn year_month_text(y: int, m: nat) -> Seq<char> {
    year_text(y) + seq!['-'] + two_digits(m)
}

fn push_pad4(v: &mut Vec<char>, n: u64)
    ensures
        final(v)@ == old(v)@ + pad4(n as nat),
{
    if n < 10 {
        v.push('0');
        v.push('0');
        v.push('0');
    } else if n < 100 {
        v.push('0');
        v.push('0');
    } else if n < 1000 {
        v.push('0');
    }
    crate::text::push_decimal(v, n);
    assert(v@ =~= old(v)@ + pad4(n as nat));
}

/// `YYYY-MM` text of a year and a month (`1 <= month <= 12`).
pub fn month_prefix(year: i32, month: u32) -> (r: String)
    requires
        1 <= month <= 12,
    ensures
        r@ == year_month_text(year as int, month as nat),
{
    let mut v: Vec<char> = Vec::new();
    if 0 <= year && year <= 9999 {
        push_pad4(&mut v, year as u64);
    } else if year < 0 {
        v.push('-');
        let a: u64 = (-(year as i64)) as u64;
        push_pad4(&mut v, a);
    } else {
        v.push('+');
        push_pad4(&mut v, year as u64);
    }
    v.push('-');
    v.push(digit_of((month / 10) as u64));
    v.push(digit_of((month % 10) as u64));
    assert(v@ =~= year_month_text(year as int, month as nat));
    string_of(&v)
}


/// One group of the picker: `(label, name)`, the label being the trimmed-empty
/// test of the remark: the remark when it has a non-blank character, the name
/// otherwise.
pub open spec fn group_option_label(name: Seq<char>, remark: Seq<char>) -> Seq<char> {
    if trim_seq(remark).len() == 0 {
        name
    } else {
        remark
    }
}

/// The `(label, name)` pair shown for a backend group.
pub fn group_option(name: &str, remark: &str) -> (r: (String, String))
    ensures
        r.0@ == group_option_label(name@, remark@),
        r.1@ == name@,
{
    let t = trim_str(remark);
    let label = if t.as_str().is_empty() {
        name.to_owned()
    } else {
        remark.to_owned()
    };
    (label, name.to_owned())
}

/// The `key=value` parts of the user-list query, in order: `search` when it
/// is given and not empty, then `page`, then `size`, each when given.
pub open spec fn users_query_parts(search: Option<Seq<char>>, page: Option<i64>, size: Option<i64>)
    -> Seq<Seq<char>> {
    let a: Seq<Seq<char>> = match search {
        Some(s) => if s.len() > 0 {
            seq!["search="@ + s]
        } else {
            seq![]
        },
        None => seq![],
    };
    let b: Seq<Seq<char>> = match page {
        Some(p) => seq!["page="@ + signed_decimal(p as int)],
        None => seq![],
    };
    let c: Seq<Seq<char>> = match size {
        Some(z) => seq!["size="@ + signed_decimal(z as int)],
        None => seq![],
    };
    a + b + c
}

/// The parts joined with `&`.
pub open spec fn join_amp(parts: Seq<Seq<char>>) -> Seq<char>
    decreases parts.len(),
{
    if parts.len() == 0 {
        seq![]
    } else if parts.len() == 1 {
        parts[0]
    } else {
        join_amp(parts.drop_last()) + seq!['&'] + parts.last()
    }
}

/// Path of `GET /api/user/users`, with the query when it has parts.
pub open spec fn users_path(search: Option<Seq<char>>, page: Option<i64>, size: Option<i64>)
    -> Seq<char> {
    let parts = users_query_parts(search, page, size);
    if parts.len() == 0 {
        "/api/user/users"@
    } else {
        "/api/user/users?"@ + join_amp(parts)
    }
}

/// The view of an optional string slice.
pub open spec fn opt_view(s: Option<&str>) -> Option<Seq<char>> {
    match s {
        Some(t) => Some(t@),
        None => None,
    }
}

/// Builds the path of the paged, searchable user list.
pub fn users_query_path(search: Option<&str>, page: Option<i64>, size: Option<i64>) -> (r: String)
    ensures
        r@ == users_path(opt_view(search), page, size),
{
    let mut parts: Vec<String> = Vec::new();
    if let Some(s) = search {
        if !s.is_empty() {
            let mut p = "search=".to_owned();
            p.append(s);
            parts.push(p);
        }
    }
    if let Some(p) = page {
        let mut q = "page=".to_owned();
        let n = i64_string(p);
        q.append(n.as_str());
        parts.push(q);
    }
    if let Some(z) = size {
        let mut q = "size=".to_owned();
        let n = i64_string(z);
        q.append(n.as_str());
        parts.push(q);
    }
    let ghost want = users_query_parts(opt_view(search), page, size);
    proof {
        reveal_strlit("search=");
        reveal_strlit("page=");
        reveal_strlit("size=");
    }
    assert(parts@.len() == want.len());
    assert(forall|i: int| 0 <= i < parts@.len() ==> #[trigger] parts@[i]@ == want[i]);
    if parts.len() == 0 {
        return "/api/user/users".to_owned();
    }
    let mut r = "/api/user/users?".to_owned();
    let mut i: usize = 0;
    let ghost base = r@;
    while i < parts.len()
        invariant
            i <= parts@.len(),
            parts@.len() == want.len(),
            parts@.len() > 0,
            forall|j: int| 0 <= j < parts@.len() ==> #[trigger] parts@[j]@ == want[j],
            base == "/api/user/users?"@,
            i == 0 ==> r@ == base,
            i > 0 ==> r@ == base + join_amp(want.take(i as int)),
        decreases parts.len() - i,
    {
        if i > 0 {
            push_char(&mut r, '&');
        }
        r.append(parts[i].as_str());
        proof {
            let t = want.take(i + 1);
            assert(t.drop_last() =~= want.take(i as int));
            assert(t.last() == want[i as int]);
            if i == 0 {
                assert(join_amp(t) == want[0]);
            }
        }
        i = i + 1;
        assert(r@ =~= base + join_amp(want.take(i as int)));
    }
    assert(want.take(want.len() as int) =~= want);
    r
}

} // verus!
