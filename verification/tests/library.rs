use ferrite_web::lorebook::{
    book_blurb, book_footer, book_ids, can_save_book, initial_sample, new_lorebook,
    save_lorebook, seed_lorebooks, typed_budget, upsert_book,
};
use ferrite_web::personas::{
    can_save_persona, delete_persona, new_persona, next_id, persona_editor_title, persona_ids,
    save_persona, seed_personas, upsert_persona,
};

#[test]
fn lorebooks_seed_create_and_save() {
    let mut books = seed_lorebooks();
    assert_eq!(books.len(), 3);
    assert_eq!(books[0].entries.len(), 2);
    assert_eq!(books[2].token_budget, 800);
    let id = next_id(&book_ids(&books));
    assert_eq!(id, 4);
    let blank = new_lorebook(id);
    assert_eq!(blank.token_budget, 1000);
    assert_eq!(initial_sample(&blank), "");
    assert_eq!(initial_sample(&books[1]), books[1].entries[0].content);
    assert!(!can_save_book("  "));
    assert_eq!(typed_budget(1000, "2048"), 2048);
    assert_eq!(typed_budget(1000, "+7"), 7);
    assert_eq!(typed_budget(1000, "-1"), 1000);
    assert_eq!(typed_budget(1000, "abc"), 1000);
    let saved = save_lorebook(&blank, "新书", "", 500, "正文");
    assert_eq!(saved.entries.len(), 1);
    assert_eq!(saved.entries[0].id, 1);
    assert_eq!(saved.entries[0].title, "核心词条");
    assert_eq!(saved.entries[0].keys, vec!["自动匹配".to_string()]);
    assert_eq!(saved.entries_count, 1);
    upsert_book(&mut books, saved);
    assert_eq!(books[0].id, 4);
    let again = save_lorebook(&books[1], "改名", "d", 10, "");
    assert_eq!(again.entries.len(), 2);
    upsert_book(&mut books, again);
    assert_eq!(books.len(), 4);
    assert_eq!(books[1].name, "改名");
    assert_eq!(book_blurb(""), "暂无设定概述…");
    assert_eq!(book_footer(8, 1200), "8 条目 · 约 1200 tok");
}

#[test]
fn personas_seed_create_save_delete() {
    let mut ps = seed_personas();
    assert_eq!(ps.len(), 3);
    assert!(ps[0].is_default);
    assert_eq!(next_id(&persona_ids(&ps)), 4);
    assert_eq!(next_id(&vec![]), 1);
    let p = new_persona(4);
    assert_eq!(persona_editor_title(&p.name), "新建人格");
    assert!(!can_save_persona(" "));
    let saved = save_persona(&p, "新", "t", "d");
    upsert_persona(&mut ps, saved);
    assert_eq!(ps[3].name, "新");
    let edited = save_persona(&ps[0], "夜阑2", "x", "y");
    upsert_persona(&mut ps, edited);
    assert_eq!(ps.len(), 4);
    assert_eq!(ps[0].name, "夜阑2");
    assert!(ps[0].is_default);
    delete_persona(&mut ps, 2);
    assert_eq!(ps.iter().map(|p| p.id).collect::<Vec<_>>(), vec![1, 3, 4]);
    assert_eq!(persona_editor_title("x"), "编辑人格");
}
