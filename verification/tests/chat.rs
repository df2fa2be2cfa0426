use ferrite_web::chat::{
    active_prompt_index, character_info, delete_message, detail_body, detail_title,
    draft_to_send, hover_preview, model_label, model_options, monogram, msg_display,
    session_is_active, user_prompts, ChatMessage,
};

fn msg(name: &str, user: bool, mes: &str, swipes: &[&str], swipe_id: Option<usize>) -> ChatMessage {
    ChatMessage {
        name: name.to_string(),
        is_user: user,
        send_date: String::new(),
        mes: mes.to_string(),
        swipes: swipes.iter().map(|s| s.to_string()).collect(),
        swipe_id,
    }
}

#[test]
fn display_picks_selected_swipe() {
    let m = msg("bot", false, "base", &["a", "b"], Some(1));
    assert_eq!(msg_display(&m), ("b".to_string(), false, 1, vec!["a".to_string(), "b".to_string()]));
    let m = msg("bot", false, "base", &[], None);
    assert_eq!(msg_display(&m).0, "base");
    let m = msg("bot", false, "base", &["a"], Some(3));
    assert_eq!(msg_display(&m).0, "base");
    let m = msg("me", true, "hi", &["x"], None);
    assert_eq!(msg_display(&m), ("x".to_string(), true, 0, vec!["x".to_string()]));
}

#[test]
fn prompts_navigate_user_messages() {
    let ms = vec![
        msg("me", true, "q1", &[], None),
        msg("bot", false, "a1", &[], None),
        msg("me", true, "q2", &[], None),
        msg("bot", false, "a2", &[], None),
    ];
    let ps = user_prompts(&ms);
    assert_eq!(ps, vec![(0, "me".to_string(), "q1".to_string()), (2, "me".to_string(), "q2".to_string())]);
    let pos: Vec<usize> = ps.iter().map(|p| p.0).collect();
    assert_eq!(active_prompt_index(&pos, 3), 1);
    assert_eq!(active_prompt_index(&pos, 1), 0);
    assert_eq!(active_prompt_index(&vec![5], 1), 0);
    assert_eq!(hover_preview(&ps, Some(1)), "me: q2");
    assert_eq!(hover_preview(&ps, Some(9)), "");
    assert_eq!(hover_preview(&ps, None), "");
}

#[test]
fn panel_texts() {
    let long = "一二三四五六七八九十一二三四五六七八九十一二三四五六七八九十多余";
    let info = character_info(Some(("小明", long)));
    assert_eq!(info, format!("小明 - {}", long.chars().take(30).collect::<String>()));
    assert_eq!(character_info(Some(("A", "short"))), "A - short");
    assert_eq!(character_info(None), "未选择角色");
    assert_eq!(monogram(Some("Zed")), "Z");
    assert_eq!(monogram(Some("")), "?");
    assert_eq!(monogram(None), "?");
    assert_eq!(detail_title(Some("X")), "剧本详情: X");
    assert_eq!(detail_title(None), "剧本详情");
    assert_eq!(detail_body(Some(("", ""))), "(无简介)");
    assert_eq!(detail_body(Some(("d", "s"))), "d\n\n场景: s");
    assert_eq!(detail_body(None), "未选择角色");
    assert_eq!(model_options(Some("m1")), vec!["agnes-2.5-flash".to_string(), "m1".to_string()]);
    assert_eq!(model_options(Some("agnes-2.5-flash")), vec!["agnes-2.5-flash".to_string()]);
    assert_eq!(model_options(None).len(), 1);
    assert_eq!(model_label(None), "未设置");
    assert_eq!(model_label(Some("m")), "m");
}

#[test]
fn send_and_delete() {
    assert_eq!(draft_to_send("  hi  "), Some("hi".to_string()));
    assert_eq!(draft_to_send("   "), None);
    let mut ms = vec![msg("a", true, "1", &[], None), msg("b", false, "2", &[], None)];
    delete_message(&mut ms, 5);
    assert_eq!(ms.len(), 2);
    delete_message(&mut ms, 0);
    assert_eq!(ms.len(), 1);
    assert_eq!(ms[0].mes, "2");
    assert!(session_is_active(Some("c1"), "c1"));
    assert!(!session_is_active(Some("c1"), "c2"));
    assert!(!session_is_active(None, "c1"));
}
