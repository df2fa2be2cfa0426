//! Display formatting for the users page: thousands separators, group and
//! role labels, dates and keys.

use vstd::prelude::*;
use crate::api;
use vstd::string::StringSliceAdditionalSpecFns;
use crate::text::{
    chars_of, decimal, decimal_chars, digit_char, digit_of, push_char, push_chars, string_of,
    take_chars, trim_seq, trim_str, two_digits,
};

verus! {

/// Three-digit zero-padded rendering of `n < 1000`.
pub open spec fn three_digits(n: nat) -> Seq<char> {
    seq![digit_char(n / 100), digit_char((n / 10) % 10), digit_char(n % 10)]
}

/// Decimal rendering of `n` with a comma between each group of three digits,
/// counted from the right.
pub open spec fn grouped(n: nat) -> Seq<char>
    decreases n,
{
    if n < 1000 {
        decimal(n)
    } else {
        grouped(n / 1000) + seq![','] + three_digits(n % 1000)
    }
}

fn push_grouped(out: &mut Vec<char>, n: u32)
    ensures
        final(out)@ == old(out)@ + grouped(n as nat),
    decreases n,
{
    if n < 1000 {
        let d = decimal_chars(n as u64);
        let ghost before = out@;
        let mut i: usize = 0;
        while i < d.len()
            invariant
                i <= d@.len(),
                out@ == before + d@.take(i as int),
            decreases d.len() - i,
        {
            out.push(d[i]);
            i = i + 1;
            assert(out@ =~= before + d@.take(i as int));
        }
        assert(d@.take(d@.len() as int) =~= d@);
    } else {
        push_grouped(out, n / 1000);
        let r = (n % 1000) as u64;
        out.push(',');
        out.push(digit_of(r / 100));
        out.push(digit_of((r / 10) % 10));
        out.push(digit_of(r % 10));
        assert(out@ =~= old(out)@ + grouped(n as nat));
    }
}

/// Thousands separators: `1234567` is `1,234,567`.
pub fn fmt_num(n: u32) -> (r: String)
    ensures
        r@ == grouped(n as nat),
{
    let mut v: Vec<char> = Vec::new();
    push_grouped(&mut v, n);
    assert(v@ =~= grouped(n as nat));
    string_of(&v)
}

/// A group's display label is its name.
pub fn group_label(group: &str) -> (r: String)
    ensures
        r@ == group@,
{
    group.to_owned()
}

/// Label of a role value: the first role option with that value, or
/// `普通用户` when none has it.
pub open spec fn role_label_of(role: u16) -> Seq<char> {
    if role == 0 {
        api::role_options()[0].0
    } else if role == 1 {
        api::role_options()[1].0
    } else if role == 10 {
        api::role_options()[2].0
    } else if role == 100 {
        api::role_options()[3].0
    } else {
        "普通用户"@
    }
}

/// The label of a role value (`普通用户` for unknown values).
pub fn role_label(role: u16) -> (r: &'static str)
    ensures
        r@ == role_label_of(role),
{
    let roles = api::fetch_roles();
    let mut i: usize = 0;
    while i < roles.len()
        invariant
            i <= roles@.len(),
            roles@.len() == api::role_options().len(),
            forall|j: int|
                #![trigger roles@[j]]
                0 <= j < roles@.len() ==> roles@[j].0@ == api::role_options()[j].0 && roles@[j].1
                    == api::role_options()[j].1,
            forall|j: int| 0 <= j < i ==> roles@[j].1 != role,
        decreases roles.len() - i,
    {
        if roles[i].1 == role {
            return roles[i].0;
        }
        i = i + 1;
    }
    assert(api::role_options()[0].1 == 0u16 && api::role_options()[1].1 == 1u16
        && api::role_options()[2].1 == 10u16 && api::role_options()[3].1 == 100u16);
    assert(roles@[0].1 != role && roles@[1].1 != role && roles@[2].1 != role && roles@[3].1
        != role);
    assert(role != 0 && role != 1 && role != 10 && role != 100);
    assert(role_label_of(role) == "普通用户"@);
    "普通用户"
}

/// UTF-8 bytes that start with a `YYYY-MM-DD`-shaped date: at least ten bytes,
/// with `-` at byte 4 and byte 7.
pub open spec fn date_like(b: Seq<u8>) -> bool {
    b.len() >= 10 && b[4] == 45u8 && b[7] == 45u8
}

/// What `fmt_created_date` shows for `s`: the first ten bytes of the trimmed
/// text when it is date-like and those ten bytes end on a character, else
/// the trimmed text itself.
pub open spec fn created_date_text(s: Seq<char>) -> Seq<char> {
    let t = trim_seq(s);
    let b = vstd::utf8::encode_utf8(t);
    if date_like(b) && vstd::utf8::is_char_boundary(b, 10) {
        vstd::utf8::decode_utf8(b.take(10))
    } else {
        t
    }
}

/// Date part of a backend timestamp (`2026-09-11T09:48:45Z` is `2026-09-11`);
/// other text, which does not parse as a date, comes back trimmed.
pub fn fmt_created_date(created_at: &str) -> (r: String)
    ensures
        r@ == created_date_text(created_at@),
{
    broadcast use vstd::utf8::encode_utf8_decode_utf8;

    let owned = trim_str(created_at);
    let t: &str = owned.as_str();
    let bytes = t.as_bytes();
    let is_date_like = bytes.len() >= 10 && bytes[4] == 45u8 && bytes[7] == 45u8;
    if is_date_like && t.is_char_boundary(10) {
        let (head, _rest) = t.split_at(10);
        let r = head.to_owned();
        assert(t@ == trim_seq(created_at@));
        assert(head.spec_bytes() =~= vstd::utf8::encode_utf8(trim_seq(created_at@)).take(10));
        assert(vstd::utf8::decode_utf8(vstd::utf8::encode_utf8(head@)) == head@);
        assert(date_like(vstd::utf8::encode_utf8(trim_seq(created_at@))));
        assert(r@ == head@);
        r
    } else {
        assert(t@ == trim_seq(created_at@));
        t.to_owned()
    }
}

/// What `short_key` shows: the trimmed key when it has fewer than 13
/// characters, else its first 8 characters, `…`, and its last 4.
pub open spec fn short_key_text(key: Seq<char>) -> Seq<char> {
    let k = trim_seq(key);
    if k.len() < 13 {
        k
    } else {
        k.take(8) + seq!['…'] + k.skip(k.len() - 4)
    }
}

/// Shortened display of a UUID-like key: `00000000…0001`.
pub fn short_key(key: &str) -> (r: String)
    ensures
        r@ == short_key_text(key@),
{
    let k = trim_str(key);
    let chars = chars_of(k.as_str());
    let n = chars.len();
    if n < 13 {
        return k;
    }
    let head = take_chars(&chars, 8);
    let mut r = string_of(&head);
    push_char(&mut r, '…');
    let mut tail: Vec<char> = Vec::new();
    let mut i: usize = n - 4;
    while i < n
        invariant
            n - 4 <= i <= n,
            n >= 13,
            n == chars@.len(),
            tail@ == chars@.subrange(n - 4, i as int),
        decreases n - i,
    {
        tail.push(chars[i]);
        i = i + 1;
        assert(tail@ =~= chars@.subrange(n - 4, i as int));
    }
    push_chars(&mut r, &tail);
    assert(r@ =~= short_key_text(key@));
    r
}

} // verus!
