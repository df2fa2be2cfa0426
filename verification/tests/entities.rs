use ferrite_web::entities::{
    add_channel, clear_candidates, commit_row, delete_channel, join_dispatch, new_channel,
    pick_row, pull_models, remove_dispatch, remove_row, toggle_candidate, EntityRow,
};

fn names(c: &ferrite_web::entities::ChannelRow) -> Vec<(String, bool)> {
    c.candidates.clone()
}

#[test]
fn rows_commit_pick_and_remove() {
    let mut rows: Vec<EntityRow> = Vec::new();
    assert!(!commit_row(&mut rows, None, "   ", "x"));
    assert!(rows.is_empty());
    assert!(commit_row(&mut rows, None, " vip ", " 贵宾 "));
    assert_eq!(rows[0].name, "vip");
    assert_eq!(rows[0].display, "贵宾");
    assert!(commit_row(&mut rows, None, "default", ""));
    let (n, d, e) = pick_row(&rows, 0);
    assert_eq!((n.as_str(), d.as_str(), e), ("vip", "贵宾", Some(0)));
    assert!(commit_row(&mut rows, Some(0), "svip", "超级"));
    assert_eq!(rows[0].name, "svip");
    assert_eq!(rows.len(), 2);
    assert_eq!(remove_row(&mut rows, 0, Some(0)), None);
    assert_eq!(remove_row(&mut rows, 0, Some(3)), Some(3));
    assert!(rows.is_empty());
}

#[test]
fn channels_add_and_delete() {
    let mut cs = vec![new_channel()];
    assert_eq!(cs[0].name, "新渠道");
    assert_eq!(add_channel(&mut cs), 1);
    assert_eq!(cs.len(), 2);
    assert_eq!(delete_channel(&mut cs, 1, 1), 0);
    assert_eq!(cs.len(), 1);
    assert_eq!(delete_channel(&mut cs, 0, 0), 0);
    assert_eq!(cs.len(), 1);
}

#[test]
fn candidate_pool_flow() {
    let mut c = new_channel();
    c.dispatch.push("gpt-5".to_string());
    pull_models(&mut c);
    assert_eq!(
        names(&c),
        vec![
            ("gpt-4o".to_string(), false),
            ("gpt-4o-mini".to_string(), false),
            ("o3".to_string(), false),
            ("o3-mini".to_string(), false),
        ]
    );
    pull_models(&mut c);
    assert_eq!(c.candidates.len(), 4);
    toggle_candidate(&mut c, 0);
    toggle_candidate(&mut c, 2);
    join_dispatch(&mut c);
    assert_eq!(c.dispatch, vec!["gpt-5".to_string(), "gpt-4o".to_string(), "o3".to_string()]);
    assert_eq!(names(&c), vec![("gpt-4o-mini".to_string(), false), ("o3-mini".to_string(), false)]);
    remove_dispatch(&mut c, 0);
    assert_eq!(c.dispatch, vec!["gpt-4o".to_string(), "o3".to_string()]);
    assert_eq!(c.candidates.last().unwrap(), &("gpt-5".to_string(), false));
    clear_candidates(&mut c);
    assert!(c.candidates.is_empty());
}
