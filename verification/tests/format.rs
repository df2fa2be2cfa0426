use ferrite_web::format::{fmt_created_date, fmt_num, group_label, role_label, short_key};

#[test]
fn quota_and_pct_math() {
    assert_eq!(fmt_num(1_234_567), "1,234,567");
    assert_eq!(fmt_num(42), "42");
}

#[test]
fn created_date_takes_date_part_only() {
    assert_eq!(
        fmt_created_date("2026-09-11T09:48:45.676011Z"),
        "2026-09-11"
    );
    assert_eq!(fmt_created_date("2026-09-11 09:48:45"), "2026-09-11");
    assert_eq!(fmt_created_date("2026-09-11"), "2026-09-11");
    assert_eq!(fmt_created_date(""), "");
    assert_eq!(fmt_created_date("nonsense"), "nonsense");
    assert_eq!(fmt_created_date("  2026-09-11T00:00:00Z  "), "2026-09-11");
    assert_eq!(fmt_created_date(" 2026-09-１１ "), "2026-09-１１");
}

#[test]
fn short_key_truncates_uuid() {
    assert_eq!(
        short_key("00000000-0000-0000-0000-000000000001"),
        "00000000…0001"
    );
    assert_eq!(
        short_key("4129f446-4606-4693-90fc-d88abe2d0d07"),
        "4129f446…0d07"
    );
    assert_eq!(short_key("short"), "short");
    assert_eq!(short_key(""), "");
}

#[test]
fn short_key_keeps_shorter_than_thirteen_and_trims() {
    assert_eq!(short_key("123456789012"), "123456789012");
    assert_eq!(short_key("0123456789abc"), "01234567…9abc");
    assert_eq!(short_key("12345678901234"), "12345678…1234");
    assert_eq!(short_key("  abc  "), "abc");
}

#[test]
fn num_groups_by_three() {
    assert_eq!(fmt_num(0), "0");
    assert_eq!(fmt_num(999), "999");
    assert_eq!(fmt_num(1000), "1,000");
    assert_eq!(fmt_num(1_000_005), "1,000,005");
    assert_eq!(fmt_num(u32::MAX), "4,294,967,295");
}

#[test]
fn labels_of_groups_and_roles() {
    assert_eq!(group_label("vip"), "vip");
    assert_eq!(role_label(1), "普通用户");
    assert_eq!(role_label(10), "管理员");
    assert_eq!(role_label(100), "Root");
    assert_eq!(role_label(0), "全部");
    assert_eq!(role_label(7), "普通用户");
}

#[test]
fn created_date_requires_dashes_at_four_and_seven() {
    assert_eq!(fmt_created_date("2026/09/11 10:00"), "2026/09/11 10:00");
    assert_eq!(fmt_created_date("2026-09-1"), "2026-09-1");
}
