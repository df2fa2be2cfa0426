use ferrite_web::users::{
    avatar_initial, bar_tone, bound_email, edit_form, filter_group_options, filter_users,
    new_form, quota_hint, role_chip_items, stat_cards, submit_form, tab_labels, toggle_action,
    toggle_group, toggle_label, topup_quota, user_stats, AdminUser, FormSubmit, FormTab,
    create_outcome, manage_outcome, StatValue, notice_role, topup_request, toggle_request,
};

fn user(key: &str, name: &str, email: &str, role: u16, status: u8, quota: i64, used: i64, created: &str, groups: &[&str]) -> AdminUser {
    AdminUser {
        key: key.to_string(),
        username: name.to_string(),
        display_name: String::new(),
        email: email.to_string(),
        role,
        status,
        quota,
        used_quota: used,
        request_count: 0,
        created_at: created.to_string(),
        groups: groups.iter().map(|g| g.to_string()).collect(),
    }
}

fn sample() -> Vec<AdminUser> {
    vec![
        user("k1", "Alice", "alice@example.com", 10, 1, 500_000, 100_000, "2026-09-01T00:00:00Z", &["default", "vip"]),
        user("k2", "bob", "BOB@corp.io", 1, 2, 1_000_000, 0, "2026-08-30T10:00:00Z", &["default"]),
        user("k3", "carol", "", 100, 1, 0, 0, "2026-09-11 09:00:00", &[]),
    ]
}

#[test]
fn stats_count_and_sum() {
    let s = user_stats(&sample(), "2026-09");
    assert_eq!(s.total, 3);
    assert_eq!(s.enabled, 2);
    assert_eq!(s.new_this_month, 2);
    assert_eq!(s.granted, 1_500_000);
    assert_eq!(s.consumed, 100_000);
    let cards = stat_cards(&s);
    assert_eq!(cards[0], (StatValue::Count(3), "总用户"));
    assert_eq!(cards[2], (StatValue::Count(2), "本月新增"));
    assert_eq!(cards[3], (StatValue::Quota(1_500_000), "总发放额度"));
    assert_eq!(cards[4], (StatValue::Quota(100_000), "总消耗"));
}

#[test]
fn filters_combine() {
    let us = sample();
    assert_eq!(filter_users(&us, "", "", 0, 0), vec![0, 1, 2]);
    assert_eq!(filter_users(&us, "  ALI ", "", 0, 0), vec![0]);
    assert_eq!(filter_users(&us, "bob@", "", 0, 0), vec![1]);
    assert_eq!(filter_users(&us, "", "vip", 0, 0), vec![0]);
    assert_eq!(filter_users(&us, "", "default", 2, 0), vec![1]);
    assert_eq!(filter_users(&us, "", "", 1, 100), vec![2]);
    assert_eq!(filter_users(&us, "zzz", "", 0, 0), Vec::<usize>::new());
}

#[test]
fn group_options_start_with_all() {
    let opts = filter_group_options(&vec![("贵宾".to_string(), "vip".to_string())]);
    assert_eq!(opts[0], ("全部".to_string(), String::new()));
    assert_eq!(opts[1], ("贵宾".to_string(), "vip".to_string()));
}

#[test]
fn forms_prefill_and_submit() {
    let f = new_form();
    assert_eq!(f.quota, "5000000");
    assert_eq!(f.groups, vec!["default".to_string()]);
    assert_eq!(f.role, 1);
    let us = sample();
    let e = edit_form(&us, "k1").unwrap();
    assert_eq!(e.username, "Alice");
    assert_eq!(e.quota, "500000");
    assert_eq!(e.groups, vec!["default".to_string(), "vip".to_string()]);
    assert_eq!(e.role, 10);
    assert!(edit_form(&us, "nope").is_none());
    match submit_form(true, FormTab::Basic, &e) {
        FormSubmit::Manage(a, v) => {
            assert_eq!(a, "set_role");
            assert_eq!(v, Some("10".to_string()));
        }
        _ => panic!("expected manage"),
    }
    match submit_form(true, FormTab::Group, &e) {
        FormSubmit::Manage(a, v) => {
            assert_eq!(a, "set_groups");
            assert_eq!(v, Some("default,vip".to_string()));
        }
        _ => panic!("expected manage"),
    }
    assert!(matches!(submit_form(true, FormTab::Binding, &e), FormSubmit::Nothing));
    let mut n = new_form();
    n.username = "zhangna".to_string();
    n.password = "hunter2pass".to_string();
    n.email = "   ".to_string();
    n.quota = " 42 ".to_string();
    match submit_form(false, FormTab::Group, &n) {
        FormSubmit::Create(req) => {
            assert_eq!(req.username, "zhangna");
            assert_eq!(req.email, None);
            assert_eq!(req.quota, 42);
            assert_eq!(req.role, 1);
            assert_eq!(req.groups, vec!["default".to_string()]);
        }
        _ => panic!("expected create"),
    }
    n.quota = "lots".to_string();
    n.email = "z@example.com".to_string();
    match submit_form(false, FormTab::Basic, &n) {
        FormSubmit::Create(req) => {
            assert_eq!(req.quota, 0);
            assert_eq!(req.email, Some("z@example.com".to_string()));
        }
        _ => panic!("expected create"),
    }
}

#[test]
fn hints_and_labels() {
    assert_eq!(quota_hint(" 500000 "), Some(500_000));
    assert_eq!(quota_hint("-20"), Some(-20));
    assert_eq!(quota_hint("x"), None);
    assert_eq!(bound_email(""), "-");
    assert_eq!(bound_email("a@b"), "a@b");
    assert_eq!(toggle_action(1), "disable");
    assert_eq!(toggle_action(2), "enable");
    assert_eq!(toggle_label(1), "禁用");
    assert_eq!(toggle_label(2), "启用");
    assert_eq!(bar_tone(95), "bg-red-500");
    assert_eq!(bar_tone(70), "bg-amber-500");
    assert_eq!(bar_tone(10), "bg-emerald-500");
    assert_eq!(avatar_initial("", "alice"), "A");
    assert_eq!(avatar_initial("émile", "x"), "É");
    assert_eq!(avatar_initial("", ""), "?");
    assert_eq!(role_chip_items(), vec![("普通用户", 1), ("管理员", 10), ("Root", 100)]);
    let tabs = tab_labels();
    assert_eq!(tabs[1].1, "分组与备注");
    assert_eq!(topup_quota(&sample(), "k2"), 1_000_000);
    assert_eq!(topup_quota(&sample(), "none"), 0);
}

#[test]
fn group_chip_toggles() {
    let sel = vec!["default".to_string()];
    let added = toggle_group(&sel, "vip");
    assert_eq!(added, vec!["default".to_string(), "vip".to_string()]);
    assert_eq!(toggle_group(&added, "vip"), sel);
    let dup = vec!["a".to_string(), "b".to_string(), "a".to_string()];
    assert_eq!(toggle_group(&dup, "a"), vec!["b".to_string()]);
}

#[test]
fn write_outcomes_and_notice_roles() {
    assert_eq!(create_outcome(&Ok(())), ("用户已创建".to_string(), true));
    let (msg, reload) = create_outcome(&Err("HTTP 409".to_string()));
    assert_eq!(msg, "创建失败:HTTP 409");
    assert!(!reload);
    assert_eq!(manage_outcome(&Ok(())), ("操作成功".to_string(), true));
    let (msg, reload) = manage_outcome(&Err("timeout".to_string()));
    assert_eq!(msg, "操作失败:timeout");
    assert!(!reload);
    assert_eq!(notice_role(&msg), "alert");
    assert_eq!(notice_role("操作成功"), "status");
    assert_eq!(notice_role("创建失败:HTTP 409"), "status");
}

#[test]
fn management_requests() {
    let r = topup_request("u-1", 2500000);
    assert_eq!(r.key, "u-1");
    assert_eq!(r.action, "adjust_quota");
    assert_eq!(r.value.as_deref(), Some("2500000"));
    let r = topup_request("u-2", -300);
    assert_eq!(r.value.as_deref(), Some("-300"));
    let r = toggle_request("u-3", 1);
    assert_eq!(r.action, "disable");
    assert!(r.value.is_none());
    assert_eq!(toggle_request("u-3", 2).action, "enable");
}
