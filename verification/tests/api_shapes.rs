use ferrite_web::api;

#[test]
fn filter_labels_have_all_first() {
    assert_eq!(api::fetch_statuses()[0].0, "全部", "statuses 首项 = 全部");
    assert_eq!(api::fetch_roles()[0].0, "全部", "roles 首项 = 全部");
    assert_eq!(api::fetch_statuses()[0].1, 0, "statuses 全部项 value = 0");
    assert_eq!(api::fetch_roles()[0].1, 0, "roles 全部项 value = 0");
    assert_eq!(api::fetch_groups()[0].0, "全部", "groups 首项 = 全部");
    assert_eq!(api::fetch_groups()[0].1, "", "groups 全部项 value 为空");
    assert_eq!(api::fetch_groups().len(), 1, "groups 静态兜底仅 1 项");
}

#[test]
fn filter_options_list_every_value() {
    let statuses: Vec<u8> = api::fetch_statuses().iter().map(|(_, v)| *v).collect();
    assert_eq!(statuses, vec![0, 1, 2]);
    let roles: Vec<(&str, u16)> = api::fetch_roles().to_vec();
    assert_eq!(roles, vec![("全部", 0), ("普通用户", 1), ("管理员", 10), ("Root", 100)]);
}

#[test]
fn month_prefix_pads_year_and_month() {
    assert_eq!(api::month_prefix(2026, 9), "2026-09");
    assert_eq!(api::month_prefix(2026, 12), "2026-12");
    assert_eq!(api::month_prefix(987, 1), "0987-01");
    assert_eq!(api::month_prefix(12345, 3), "+12345-03");
    assert_eq!(api::month_prefix(-5, 7), "-0005-07");
}


#[test]
fn group_option_prefers_non_blank_remark() {
    assert_eq!(
        api::group_option("vip", "贵宾"),
        ("贵宾".to_string(), "vip".to_string())
    );
    assert_eq!(
        api::group_option("default", "   "),
        ("default".to_string(), "default".to_string())
    );
    assert_eq!(api::group_option("x", ""), ("x".to_string(), "x".to_string()));
}

#[test]
fn users_query_path_joins_given_parts() {
    assert_eq!(api::users_query_path(None, None, None), "/api/user/users");
    assert_eq!(api::users_query_path(Some(""), None, None), "/api/user/users");
    assert_eq!(
        api::users_query_path(Some("alice"), Some(2), Some(20)),
        "/api/user/users?search=alice&page=2&size=20"
    );
    assert_eq!(
        api::users_query_path(None, Some(-1), None),
        "/api/user/users?page=-1"
    );
    assert_eq!(
        api::users_query_path(Some("bob"), None, Some(5)),
        "/api/user/users?search=bob&size=5"
    );
}
