//! Lorebooks (world info): seed data, the card texts, and the editor that
//! creates and saves a book.

use vstd::prelude::*;
use crate::text::{views, chars_of, decimal, parse_usize, parse_usize_spec, trim_seq, trim_str, u64_string};

verus! {

/// An entry of a lorebook.
#[derive(Debug)]
pub struct LoreEntry {
    pub id: usize,
    pub title: String,
    /// Trigger keywords.
    pub keys: Vec<String>,
    pub content: String,
    /// Always injected, not only on a keyword.
    pub is_constant: bool,
    pub depth: i32,
}

/// A lorebook.
#[derive(Debug)]
pub struct Lorebook {
    pub id: usize,
    pub name: String,
    pub description: String,
    pub entries_count: usize,
    pub token_budget: usize,
    pub entries: Vec<LoreEntry>,
    pub updated_at: String,
}

/// An entry as plain values: id, title, keys, content, constant, depth.
pub open spec fn entry_view(e: LoreEntry) -> (usize, Seq<char>, Seq<Seq<char>>, Seq<char>, bool, i32) {
    (e.id, e.title@, views(e.keys@), e.content@, e.is_constant, e.depth)
}

/// The entries of a book as plain values.
pub open spec fn entries_view(es: Seq<LoreEntry>) -> Seq<
    (usize, Seq<char>, Seq<Seq<char>>, Seq<char>, bool, i32),
> {
    es.map_values(|e: LoreEntry| entry_view(e))
}

fn entry(id: usize, title: &str, keys: Vec<String>, content: &str, is_constant: bool, depth: i32) -> (e:
    LoreEntry)
    ensures
        entry_view(e) == (id, title@, views(keys@), content@, is_constant, depth),
{
    LoreEntry { id, title: title.to_owned(), keys, content: content.to_owned(), is_constant, depth }
}

fn keys1(a: &str) -> (r: Vec<String>)
    ensures
        views(r@) == seq![a@],
{
    let mut r: Vec<String> = Vec::new();
    r.push(a.to_owned());
    assert(views(r@) =~= seq![a@]);
    r
}

fn keys2(a: &str, b: &str) -> (r: Vec<String>)
    ensures
        views(r@) == seq![a@, b@],
{
    let mut r: Vec<String> = Vec::new();
    r.push(a.to_owned());
    r.push(b.to_owned());
    assert(views(r@) =~= seq![a@, b@]);
    r
}

fn keys3(a: &str, b: &str, c: &str) -> (r: Vec<String>)
    ensures
        views(r@) == seq![a@, b@, c@],
{
    let mut r: Vec<String> = Vec::new();
    r.push(a.to_owned());
    r.push(b.to_owned());
    r.push(c.to_owned());
    assert(views(r@) =~= seq![a@, b@, c@]);
    r
}

/// The seed books: id, name, description, entry count, token budget, update
/// time.
pub open spec fn book_table() -> Seq<(usize, Seq<char>, Seq<char>, usize, usize, Seq<char>)> {
    seq![
        (1usize, "娱乐圈资本生态规则"@, "当代全球影视投资生态、S级项目主控权协议、艺人合规与保密条款。"@, 8usize, 1200usize, "刚刚"@),
        (2usize, "全知读者世界线词典"@, "星座名录、神圣星流直播系统法则、绝对化身契约与东湖大桥场景全览。"@, 14usize, 2000usize, "昨天"@),
        (3usize, "2069 械梦神经中枢规则"@, "地底都市仿生人觉醒判定、水晶球记忆回廊、人类庇护协议。"@, 6usize, 800usize, "3天前"@),
    ]
}

/// The entries of the seed books.
pub open spec fn book_entries() -> Seq<Seq<(usize, Seq<char>, Seq<Seq<char>>, Seq<char>, bool, i32)>> {
    seq![
        seq![
            (1usize, "独立制片人豁免协议"@, seq!["豁免协议"@, "独立制片"@, "对赌筹码"@], "【条款】豁免协议签署后，资方放弃对项目最终剪辑权的干涉，由制作人承担无限连带对赌。"@, false, 4i32),
            (2usize, "正午阳光资方背景"@, seq!["正午阳光"@, "董事会"@], "【机构档案】头部内容制作方，对剧本严谨度与主创团队口碑有近乎苛刻的准入门槛。"@, true, 2i32),
        ],
        seq![
            (1usize, "灭活法世界观"@, seq!["灭活法"@, "连载"@, "最终读者"@], "《在灭亡的世界中存活的三种方法》，仅有金独子一人读完全文的长篇小说。"@, true, 1i32),
        ],
        seq![],
    ]
}

/// The book matches seed row `i`.
pub open spec fn book_is_seed(b: Lorebook, i: int) -> bool {
    let row = book_table()[i];
    &&& b.id == row.0
    &&& b.name@ == row.1
    &&& b.description@ == row.2
    &&& b.entries_count == row.3
    &&& b.token_budget == row.4
    &&& b.updated_at@ == row.5
    &&& entries_view(b.entries@) == book_entries()[i]
}

/// The seed lorebooks.
pub fn seed_lorebooks() -> (r: Vec<Lorebook>)
    ensures
        r@.len() == 3,
        forall|i: int| 0 <= i < 3 ==> #[trigger] book_is_seed(r@[i], i),
{
    let mut e1: Vec<LoreEntry> = Vec::new();
    e1.push(entry(1, "独立制片人豁免协议", keys3("豁免协议", "独立制片", "对赌筹码"), "【条款】豁免协议签署后，资方放弃对项目最终剪辑权的干涉，由制作人承担无限连带对赌。", false, 4));
    e1.push(entry(2, "正午阳光资方背景", keys2("正午阳光", "董事会"), "【机构档案】头部内容制作方，对剧本严谨度与主创团队口碑有近乎苛刻的准入门槛。", true, 2));
    let mut e2: Vec<LoreEntry> = Vec::new();
    e2.push(entry(1, "灭活法世界观", keys3("灭活法", "连载", "最终读者"), "《在灭亡的世界中存活的三种方法》，仅有金独子一人读完全文的长篇小说。", true, 1));
    let e3: Vec<LoreEntry> = Vec::new();
    assert(entries_view(e1@) =~= book_entries()[0]);
    assert(entries_view(e2@) =~= book_entries()[1]);
    assert(entries_view(e3@) =~= book_entries()[2]);
    let mut r: Vec<Lorebook> = Vec::new();
    r.push(Lorebook {
        id: 1,
        name: "娱乐圈资本生态规则".to_owned(),
        description: "当代全球影视投资生态、S级项目主控权协议、艺人合规与保密条款。".to_owned(),
        entries_count: 8,
        token_budget: 1200,
        entries: e1,
        updated_at: "刚刚".to_owned(),
    });
    r.push(Lorebook {
        id: 2,
        name: "全知读者世界线词典".to_owned(),
        description: "星座名录、神圣星流直播系统法则、绝对化身契约与东湖大桥场景全览。".to_owned(),
        entries_count: 14,
        token_budget: 2000,
        entries: e2,
        updated_at: "昨天".to_owned(),
    });
    r.push(Lorebook {
        id: 3,
        name: "2069 械梦神经中枢规则".to_owned(),
        description: "地底都市仿生人觉醒判定、水晶球记忆回廊、人类庇护协议。".to_owned(),
        entries_count: 6,
        token_budget: 800,
        entries: e3,
        updated_at: "3天前".to_owned(),
    });
    assert(book_is_seed(r@[0], 0));
    assert(book_is_seed(r@[1], 1));
    assert(book_is_seed(r@[2], 2));
    r
}

/// The ids of the books.
pub fn book_ids(books: &Vec<Lorebook>) -> (r: Vec<usize>)
    ensures
        r@ == books@.map_values(|b: Lorebook| b.id),
{
    let mut r: Vec<usize> = Vec::new();
    let mut i: usize = 0;
    while i < books.len()
        invariant
            i <= books@.len(),
            r@ == books@.take(i as int).map_values(|b: Lorebook| b.id),
        decreases books.len() - i,
    {
        r.push(books[i].id);
        i = i + 1;
        assert(r@ =~= books@.take(i as int).map_values(|b: Lorebook| b.id));
    }
    assert(books@.take(books@.len() as int) =~= books@);
    r
}

/// A blank book with the given id: no entries, a budget of 1000 tokens,
/// updated just now.
pub fn new_lorebook(id: usize) -> (b: Lorebook)
    ensures
        b.id == id,
        b.name@.len() == 0,
        b.description@.len() == 0,
        b.entries_count == 0,
        b.token_budget == 1000,
        b.entries@.len() == 0,
        b.updated_at@ == "刚刚"@,
{
    Lorebook {
        id,
        name: String::new(),
        description: String::new(),
        entries_count: 0,
        token_budget: 1000,
        entries: Vec::new(),
        updated_at: "刚刚".to_owned(),
    }
}

/// The editor's sample entry: the content of the book's first entry, empty
/// when it has none.
pub fn initial_sample(b: &Lorebook) -> (r: String)
    ensures
        b.entries@.len() > 0 ==> r@ == b.entries@[0].content@,
        b.entries@.len() == 0 ==> r@.len() == 0,
{
    if b.entries.len() > 0 {
        b.entries[0].content.clone()
    } else {
        String::new()
    }
}

/// A book may be saved once its name has a non-blank character.
pub fn can_save_book(name: &str) -> (r: bool)
    ensures
        r == (trim_seq(name@).len() > 0),
{
    let t = trim_str(name);
    !t.as_str().is_empty()
}

/// The token budget after typing `text`: its value when it parses as an
/// unsigned integer, the current budget otherwise.
pub fn typed_budget(current: usize, text: &str) -> (r: usize)
    ensures
        match parse_usize_spec(text@) {
            Some(v) => r == v,
            None => r == current,
        },
{
    let c = chars_of(text);
    match parse_usize(&c) {
        Some(v) => v,
        None => current,
    }
}

fn copy_entry(e: &LoreEntry) -> (r: LoreEntry)
    ensures
        entry_view(r) == entry_view(*e),
{
    let mut keys: Vec<String> = Vec::new();
    let mut i: usize = 0;
    while i < e.keys.len()
        invariant
            i <= e.keys@.len(),
            views(keys@) == views(e.keys@.take(i as int)),
        decreases e.keys.len() - i,
    {
        let ghost before = views(keys@);
        keys.push(e.keys[i].clone());
        assert(views(keys@) =~= before.push(e.keys@[i as int]@));
        i = i + 1;
        assert(views(e.keys@.take(i as int)) =~= before.push(e.keys@[i - 1]@));
    }
    assert(e.keys@.take(e.keys@.len() as int) =~= e.keys@);
    LoreEntry {
        id: e.id,
        title: e.title.clone(),
        keys,
        content: e.content.clone(),
        is_constant: e.is_constant,
        depth: e.depth,
    }
}

/// Saving the editor: the book keeps its id and entries, takes the edited
/// name, description and budget, and gains a `核心词条` entry holding the
/// sample text when that is not empty; the count follows the entries and the
/// book is updated just now.
pub fn save_lorebook(
    initial: &Lorebook,
    name: &str,
    description: &str,
    token_budget: usize,
    sample: &str,
) -> (b: Lorebook)
    requires
        initial.entries@.len() < usize::MAX,
    ensures
        b.id == initial.id,
        b.name@ == name@,
        b.description@ == description@,
        b.token_budget == token_budget,
        b.updated_at@ == "刚刚"@,
        b.entries_count == b.entries@.len(),
        sample@.len() == 0 ==> entries_view(b.entries@) == entries_view(initial.entries@),
        sample@.len() > 0 ==> entries_view(b.entries@) == entries_view(initial.entries@).push(
            (
                (initial.entries@.len() + 1) as usize,
                "核心词条"@,
                seq!["自动匹配"@],
                sample@,
                false,
                3i32,
            ),
        ),
{
    let mut entries: Vec<LoreEntry> = Vec::new();
    let mut i: usize = 0;
    while i < initial.entries.len()
        invariant
            i <= initial.entries@.len(),
            entries_view(entries@) == entries_view(initial.entries@.take(i as int)),
        decreases initial.entries.len() - i,
    {
        let ghost before = entries_view(entries@);
        entries.push(copy_entry(&initial.entries[i]));
        assert(entries_view(entries@) =~= before.push(entry_view(initial.entries@[i as int])));
        i = i + 1;
        assert(entries_view(initial.entries@.take(i as int)) =~= before.push(
            entry_view(initial.entries@[i - 1]),
        ));
    }
    assert(initial.entries@.take(initial.entries@.len() as int) =~= initial.entries@);
    if !sample.is_empty() {
        let ghost before = entries_view(entries@);
        let id = entries.len() + 1;
        let e = entry(id, "核心词条", keys1("自动匹配"), sample, false, 3);
        entries.push(e);
        assert(entries_view(entries@) =~= before.push(
            (id, "核心词条"@, seq!["自动匹配"@], sample@, false, 3i32),
        ));
    }
    let count = entries.len();
    Lorebook {
        id: initial.id,
        name: name.to_owned(),
        description: description.to_owned(),
        entries_count: count,
        token_budget,
        entries,
        updated_at: "刚刚".to_owned(),
    }
}

/// Position of the first book with the id.
pub open spec fn first_book(bs: Seq<Lorebook>, id: usize) -> Option<int> {
    if exists|p: int|
        0 <= p < bs.len() && #[trigger] bs[p].id == id && forall|q: int| 0 <= q < p ==> bs[q].id != id {
        Some(
            choose|p: int|
                0 <= p < bs.len() && #[trigger] bs[p].id == id && forall|q: int|
                    0 <= q < p ==> bs[q].id != id,
        )
    } else {
        None
    }
}

/// Saving a book: it replaces the first book with its id, or goes first in
/// the list when it is new.
pub fn upsert_book(books: &mut Vec<Lorebook>, saved: Lorebook)
    ensures
        match first_book(old(books)@, saved.id) {
            Some(p) => final(books)@ == old(books)@.update(p, saved),
            None => final(books)@ == seq![saved] + old(books)@,
        },
{
    let mut p: usize = 0;
    while p < books.len()
        invariant
            p <= books@.len(),
            books@ == old(books)@,
            forall|q: int| 0 <= q < p ==> books@[q].id != saved.id,
        decreases books.len() - p,
    {
        if books[p].id == saved.id {
            proof {
                let w = choose|w: int|
                    0 <= w < books@.len() && #[trigger] books@[w].id == saved.id && forall|q: int|
                        0 <= q < w ==> books@[q].id != saved.id;
                if w > p {
                    assert(books@[p as int].id == saved.id);
                }
            }
            books.set(p, saved);
            return;
        }
        p = p + 1;
    }
    books.insert(0, saved);
    assert(books@ =~= seq![saved] + old(books)@);
}

/// The card's description line: `暂无设定概述…` when empty.
pub fn book_blurb(description: &str) -> (r: String)
    ensures
        description@.len() == 0 ==> r@ == "暂无设定概述…"@,
        description@.len() > 0 ==> r@ == description@,
{
    if description.is_empty() {
        "暂无设定概述…".to_owned()
    } else {
        description.to_owned()
    }
}

/// The card's footer: `N 条目 · 约 B tok`.
pub fn book_footer(entries_count: usize, token_budget: usize) -> (r: String)
    ensures
        r@ == decimal(entries_count as nat) + " 条目 · 约 "@ + decimal(token_budget as nat) + " tok"@,
{
    let mut s = u64_string(entries_count as u64);
    s.append(" 条目 · 约 ");
    let b = u64_string(token_budget as u64);
    s.append(b.as_str());
    s.append(" tok");
    s
}

} // verus!
