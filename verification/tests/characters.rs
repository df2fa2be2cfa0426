use ferrite_web::characters::{
    can_publish, cover_emblem, creator_form, creator_title, delete_work, hall_list,
    next_work_id, parse_tags, rank_tabs, save_work, seed_all_characters, step_back,
    step_bar_width, step_forward, studio_works, upsert_work, Character,
};

#[test]
fn seed_characters_non_empty_and_valid() {
    let characters = seed_all_characters();
    assert!(!characters.is_empty(), "种子角色数据必须非空");
    for c in &characters {
        assert!(!c.name.is_empty(), "角色名不可为空");
        assert!(!c.sub_title.is_empty(), "副标题不可为空");
        assert!(!c.tags.is_empty(), "标签列表不可为空");
        let rating = c.rating_tenths as f32 / 10.0;
        assert!(rating >= 0.0 && rating <= 10.0, "评分在0-10之间");
        assert!(!c.default_model.is_empty(), "默认推荐模型必须配置");
    }
}

#[test]
fn character_empty_factory_defaults() {
    let empty_char = Character::empty(999);
    assert_eq!(empty_char.id, 999, "id 必须由入参确定");
    assert!(empty_char.name.is_empty(), "空角色名为空字符串");
    assert!(empty_char.is_user_created, "工厂方法产出为用户自建角色");
    assert!(!empty_char.is_published, "新建角色默认为草稿模式");
}

fn ids(cs: &[Character], idx: &[usize]) -> Vec<usize> {
    idx.iter().map(|&i| cs[i].id).collect()
}

#[test]
fn hall_shows_library_by_rank_tab() {
    let cs = seed_all_characters();
    assert_eq!(cs.len(), 12);
    let weekly = hall_list(&cs, "周榜", "全部", "");
    assert_eq!(ids(&cs, &weekly), vec![1, 2, 3, 4, 5, 6, 7, 8, 9, 10]);
    let daily = hall_list(&cs, "日榜", "全部", "");
    assert_eq!(ids(&cs, &daily), vec![10, 9, 8, 7, 6, 5, 4, 3, 2, 1]);
    let rising = hall_list(&cs, "飙升榜", "全部", "");
    assert_eq!(ids(&cs, &rising), vec![1, 2, 3, 4, 5, 6, 7, 8, 9, 10]);
    let fresh = hall_list(&cs, "新人榜", "全部", "");
    for &i in &fresh {
        let t = &cs[i].tags;
        assert!(t.iter().any(|x| x == "纯爱" || x == "年上御姐" || x == "玄幻"));
    }
}

#[test]
fn hall_filters_by_tag_and_search() {
    let cs = seed_all_characters();
    let sci = hall_list(&cs, "周榜", "科幻", "");
    assert!(sci.iter().all(|&i| cs[i].tags.iter().any(|t| t == "科幻")));
    assert!(!sci.is_empty());
    let q = hall_list(&cs, "周榜", "全部", "xiemeng");
    assert_eq!(ids(&cs, &q), vec![3]);
    let upper = hall_list(&cs, "周榜", "全部", "XieMeng");
    assert_eq!(ids(&cs, &upper), vec![3]);
    let none = hall_list(&cs, "周榜", "全部", "no-such-script");
    assert!(none.is_empty());
}

#[test]
fn studio_lists_saves_and_deletes_works() {
    let cs = seed_all_characters();
    let mut works = studio_works(&cs);
    assert_eq!(works.iter().map(|c| c.id).collect::<Vec<_>>(), vec![101, 102]);
    assert_eq!(next_work_id(works.len()), 103);
    let new = Character::empty(103);
    upsert_work(&mut works, new);
    assert_eq!(works[0].id, 103);
    let mut edited = Character::empty(102);
    edited.name = "改".to_string();
    upsert_work(&mut works, edited);
    assert_eq!(works.len(), 3);
    assert_eq!(works[2].name, "改");
    delete_work(&mut works, 101);
    assert_eq!(works.iter().map(|c| c.id).collect::<Vec<_>>(), vec![103, 102]);
}

#[test]
fn creator_dialog_steps_and_saves() {
    assert_eq!(step_forward(1), 2);
    assert_eq!(step_forward(4), 4);
    assert_eq!(step_back(3), 2);
    assert_eq!(step_back(1), 1);
    assert_eq!(step_bar_width(2), "width: 33%;");
    assert_eq!(step_bar_width(4), "width: calc(100% - 6rem);");
    assert!(!can_publish("   "));
    assert!(can_publish(" a "));
    assert_eq!(creator_title(""), "新建剧本作品");
    assert_eq!(creator_title("x"), "编辑剧本设定");
    assert_eq!(parse_tags(" 现代, ,剧情 ,"), vec!["现代".to_string(), "剧情".to_string()]);
    assert_eq!(parse_tags(""), Vec::<String>::new());
    let init = Character::empty(7);
    let mut f = creator_form(&init);
    assert_eq!(f.tags_text, "现代, 剧情");
    f.name = "新作".to_string();
    f.tags_text = "a,b".to_string();
    let saved = save_work(&init, &f);
    assert_eq!(saved.id, 7);
    assert_eq!(saved.name, "新作");
    assert_eq!(saved.sub_title, "MY WORK // CREATOR STUDIO");
    assert_eq!(saved.tags, vec!["a".to_string(), "b".to_string()]);
    assert!(saved.is_published && saved.is_user_created);
    assert_eq!(saved.updated_at, "刚刚");
    assert_eq!(cover_emblem(2), "🌌");
    assert_eq!(cover_emblem(9), "🎙️");
    assert_eq!(rank_tabs()[2].1, "⚡ 飙升榜");
}
