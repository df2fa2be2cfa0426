//! The user's personas: seed data, creating, editing and deleting; and the
//! fresh-id rule shared with the lorebooks.

use vstd::prelude::*;

verus! {

/// The largest of the ids, 0 for none.
pub open spec fn max_id(ids: Seq<usize>) -> int
    decreases ids.len(),
{
    if ids.len() == 0 {
        0
    } else {
        let m = max_id(ids.drop_last());
        if ids.last() > m {
            ids.last() as int
        } else {
            m
        }
    }
}

proof fn lemma_max_id_bounds(ids: Seq<usize>)
    ensures
        forall|i: int| 0 <= i < ids.len() ==> ids[i] <= max_id(ids),
        max_id(ids) >= 0,
        max_id(ids) <= usize::MAX,
    decreases ids.len(),
{
    if ids.len() > 0 {
        lemma_max_id_bounds(ids.drop_last());
        assert forall|i: int| 0 <= i < ids.len() implies ids[i] <= max_id(ids) by {
            if i < ids.len() - 1 {
                assert(ids[i] == ids.drop_last()[i]);
            }
        }
    }
}

/// The id for a new entry: one more than the largest id in use (1 for an
/// empty list).
pub fn next_id(ids: &Vec<usize>) -> (r: usize)
    requires
        max_id(ids@) < usize::MAX,
    ensures
        r == max_id(ids@) + 1,
{
    let mut m: usize = 0;
    let mut i: usize = 0;
    while i < ids.len()
        invariant
            i <= ids@.len(),
            m as int == max_id(ids@.take(i as int)),
        decreases ids.len() - i,
    {
        proof {
            assert(ids@.take(i + 1).drop_last() =~= ids@.take(i as int));
            assert(ids@.take(i + 1).last() == ids@[i as int]);
        }
        if ids[i] > m {
            m = ids[i];
        }
        i = i + 1;
    }
    assert(ids@.take(ids@.len() as int) =~= ids@);
    m + 1
}

/// A new id is used by no existing entry.
pub proof fn law_next_id_is_fresh(ids: Seq<usize>)
    ensures
        forall|i: int| 0 <= i < ids.len() ==> ids[i] != max_id(ids) + 1,
{
    lemma_max_id_bounds(ids);
}

/// A persona the user plays.
#[derive(Debug)]
pub struct Persona {
    pub id: usize,
    pub name: String,
    pub title: String,
    pub description: String,
    pub avatar_src: Option<String>,
    /// Number of scripts bound to it.
    pub bound_scripts: usize,
    pub is_default: bool,
}

/// The seed personas: id, name, title, description, bound scripts, default.
pub open spec fn persona_table() -> Seq<(usize, Seq<char>, Seq<char>, Seq<char>, usize, bool)> {
    seq![
        (1usize, "夜阑"@, "独立制片人"@, "三十五岁，雷厉风行。信奉资本效率至上，谈判桌上从不先亮底牌。"@, 3usize, true),
        (2usize, "阿澈"@, "见习练习生"@, "十九岁，刚进公司的新人。怀揣舞台梦想，对娱乐圈规则一无所知。"@, 1usize, false),
        (3usize, "老 K"@, "资深娱记"@, "混迹名利场二十年的老油子，手里攥着半个圈子的黑料。"@, 0usize, false),
    ]
}

/// The persona matches the table row and has no avatar.
pub open spec fn persona_is(
    p: Persona,
    row: (usize, Seq<char>, Seq<char>, Seq<char>, usize, bool),
) -> bool {
    &&& p.id == row.0
    &&& p.name@ == row.1
    &&& p.title@ == row.2
    &&& p.description@ == row.3
    &&& p.bound_scripts == row.4
    &&& p.is_default == row.5
    &&& p.avatar_src is None
}

fn persona(id: usize, name: &str, title: &str, description: &str, bound: usize, is_default: bool) -> (p:
    Persona)
    ensures
        persona_is(p, (id, name@, title@, description@, bound, is_default)),
{
    Persona {
        id,
        name: name.to_owned(),
        title: title.to_owned(),
        description: description.to_owned(),
        avatar_src: None,
        bound_scripts: bound,
        is_default,
    }
}

/// The seed personas.
pub fn seed_personas() -> (r: Vec<Persona>)
    ensures
        r@.len() == 3,
        forall|i: int| 0 <= i < 3 ==> #[trigger] persona_is(r@[i], persona_table()[i]),
{
    let mut r: Vec<Persona> = Vec::new();
    r.push(persona(1, "夜阑", "独立制片人", "三十五岁，雷厉风行。信奉资本效率至上，谈判桌上从不先亮底牌。", 3, true));
    r.push(persona(2, "阿澈", "见习练习生", "十九岁，刚进公司的新人。怀揣舞台梦想，对娱乐圈规则一无所知。", 1, false));
    r.push(persona(3, "老 K", "资深娱记", "混迹名利场二十年的老油子，手里攥着半个圈子的黑料。", 0, false));
    assert(persona_is(r@[0], persona_table()[0]));
    assert(persona_is(r@[1], persona_table()[1]));
    assert(persona_is(r@[2], persona_table()[2]));
    r
}

/// The ids of the personas.
pub fn persona_ids(ps: &Vec<Persona>) -> (r: Vec<usize>)
    ensures
        r@ == ps@.map_values(|p: Persona| p.id),
{
    let mut r: Vec<usize> = Vec::new();
    let mut i: usize = 0;
    while i < ps.len()
        invariant
            i <= ps@.len(),
            r@ == ps@.take(i as int).map_values(|p: Persona| p.id),
        decreases ps.len() - i,
    {
        r.push(ps[i].id);
        i = i + 1;
        assert(r@ =~= ps@.take(i as int).map_values(|p: Persona| p.id));
    }
    assert(ps@.take(ps@.len() as int) =~= ps@);
    r
}

/// A blank persona with the given id.
pub fn new_persona(id: usize) -> (p: Persona)
    ensures
        p.id == id,
        p.name@.len() == 0,
        p.title@.len() == 0,
        p.description@.len() == 0,
        p.avatar_src is None,
        p.bound_scripts == 0,
        !p.is_default,
{
    Persona {
        id,
        name: String::new(),
        title: String::new(),
        description: String::new(),
        avatar_src: None,
        bound_scripts: 0,
        is_default: false,
    }
}

/// A persona may be saved once its name has a non-blank character.
pub fn can_save_persona(name: &str) -> (r: bool)
    ensures
        r == (crate::text::trim_seq(name@).len() > 0),
{
    let t = crate::text::trim_str(name);
    !t.as_str().is_empty()
}

/// The editor's title.
pub fn persona_editor_title(initial_name: &str) -> (r: &'static str)
    ensures
        initial_name@.len() == 0 ==> r@ == "新建人格"@,
        initial_name@.len() > 0 ==> r@ == "编辑人格"@,
{
    if initial_name.is_empty() {
        "新建人格"
    } else {
        "编辑人格"
    }
}

/// The saved persona: the edited name, title and description; id, avatar,
/// bound scripts and default flag kept.
pub fn save_persona(initial: &Persona, name: &str, title: &str, description: &str) -> (p: Persona)
    ensures
        p.id == initial.id,
        p.name@ == name@,
        p.title@ == title@,
        p.description@ == description@,
        p.avatar_src is None <==> initial.avatar_src is None,
        p.avatar_src matches Some(x) ==> initial.avatar_src matches Some(y) && x@ == y@,
        p.bound_scripts == initial.bound_scripts,
        p.is_default == initial.is_default,
{
    Persona {
        id: initial.id,
        name: name.to_owned(),
        title: title.to_owned(),
        description: description.to_owned(),
        avatar_src: match &initial.avatar_src {
            Some(a) => Some(a.clone()),
            None => None,
        },
        bound_scripts: initial.bound_scripts,
        is_default: initial.is_default,
    }
}

/// Position of the first persona with the id.
pub open spec fn first_persona(ps: Seq<Persona>, id: usize) -> Option<int> {
    if exists|p: int|
        0 <= p < ps.len() && #[trigger] ps[p].id == id && forall|q: int| 0 <= q < p ==> ps[q].id != id {
        Some(
            choose|p: int|
                0 <= p < ps.len() && #[trigger] ps[p].id == id && forall|q: int|
                    0 <= q < p ==> ps[q].id != id,
        )
    } else {
        None
    }
}

/// Saving: replaces the first persona with the id, or is appended when new.
pub fn upsert_persona(ps: &mut Vec<Persona>, saved: Persona)
    ensures
        match first_persona(old(ps)@, saved.id) {
            Some(p) => final(ps)@ == old(ps)@.update(p, saved),
            None => final(ps)@ == old(ps)@.push(saved),
        },
{
    let mut p: usize = 0;
    while p < ps.len()
        invariant
            p <= ps@.len(),
            ps@ == old(ps)@,
            forall|q: int| 0 <= q < p ==> ps@[q].id != saved.id,
        decreases ps.len() - p,
    {
        if ps[p].id == saved.id {
            proof {
                let w = choose|w: int|
                    0 <= w < ps@.len() && #[trigger] ps@[w].id == saved.id && forall|q: int|
                        0 <= q < w ==> ps@[q].id != saved.id;
                if w > p {
                    assert(ps@[p as int].id == saved.id);
                }
            }
            ps.set(p, saved);
            return;
        }
        p = p + 1;
    }
    ps.push(saved);
}

/// Deleting removes every persona with the id.
pub fn delete_persona(ps: &mut Vec<Persona>, id: usize)
    ensures
        final(ps)@ == old(ps)@.filter(|p: Persona| p.id != id),
{
    let ghost pred = |p: Persona| p.id != id;
    let ghost before = ps@;
    let ghost mut j: int = 0;
    let mut i: usize = 0;
    assert(ps@.take(0) =~= before.take(0).filter(pred)) by {
        reveal(Seq::filter);
        assert(before.take(0) =~= Seq::<Persona>::empty());
    }
    assert(ps@.skip(0) =~= before.skip(0));
    while i < ps.len()
        invariant
            0 <= j <= before.len(),
            i <= ps@.len(),
            pred == (|p: Persona| p.id != id),
            ps@.take(i as int) == before.take(j).filter(pred),
            ps@.skip(i as int) == before.skip(j),
        decreases ps@.len() - i,
    {
        let ghost w0 = ps@;
        proof {
            reveal(Seq::filter);
            assert(w0.skip(i as int).len() == w0.len() - i);
            assert(before.skip(j).len() == before.len() - j);
            assert(w0.skip(i as int)[0] == before.skip(j)[0]);
            assert(w0[i as int] == before[j]);
            assert(before.take(j + 1).drop_last() =~= before.take(j));
            assert(before.take(j + 1).last() == before[j]);
        }
        if ps[i].id == id {
            ps.remove(i);
            proof {
                assert(ps@.take(i as int) =~= w0.take(i as int));
                assert(ps@.skip(i as int) =~= w0.skip(i as int).skip(1));
                assert(before.skip(j + 1) =~= before.skip(j).skip(1));
            }
        } else {
            i = i + 1;
            proof {
                assert(ps@.take(i as int) =~= w0.take(i - 1).push(before[j]));
                assert(ps@.skip(i as int) =~= w0.skip(i - 1).skip(1));
                assert(before.skip(j + 1) =~= before.skip(j).skip(1));
            }
        }
        proof {
            j = j + 1;
        }
    }
    proof {
        assert(ps@.skip(i as int).len() == 0);
        assert(before.take(j) =~= before);
        assert(ps@ =~= ps@.take(i as int));
    }
}

} // verus!
