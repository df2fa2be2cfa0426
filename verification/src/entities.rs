//! The entity settings page: groups and model aliases (a name and an optional
//! display name each), and channels with their candidate pool of upstream
//! models and the dispatch models already in the routing graph.

use vstd::prelude::*;
use crate::text::{views, str_eq, trim_seq, trim_str};

verus! {

/// A group or a model alias: its name and display name.
#[derive(Debug)]
pub struct EntityRow {
    pub name: String,
    pub display: String,
}

/// Name and display name of each row.
pub open spec fn rows_view(rows: Seq<EntityRow>) -> Seq<(Seq<char>, Seq<char>)> {
    rows.map_values(|r: EntityRow| (r.name@, r.display@))
}

/// Committing the input line: nothing when the trimmed name is blank;
/// otherwise the trimmed name and display name replace the edited row, or
/// are appended when no row is being edited. Returns whether a row changed.
pub fn commit_row(rows: &mut Vec<EntityRow>, editing: Option<usize>, name: &str, display: &str) -> (r:
    bool)
    requires
        editing matches Some(i) ==> i < old(rows)@.len(),
    ensures
        r == (trim_seq(name@).len() > 0),
        !r ==> rows_view(final(rows)@) == rows_view(old(rows)@),
        r ==> rows_view(final(rows)@) == (match editing {
            Some(i) => rows_view(old(rows)@).update(i as int, (trim_seq(name@), trim_seq(display@))),
            None => rows_view(old(rows)@).push((trim_seq(name@), trim_seq(display@))),
        }),
{
    let n = trim_str(name);
    if n.as_str().is_empty() {
        return false;
    }
    let d = trim_str(display);
    let ghost before = rows_view(rows@);
    match editing {
        Some(i) => {
            rows.set(i, EntityRow { name: n, display: d });
            assert(rows_view(rows@) =~= before.update(i as int, (trim_seq(name@), trim_seq(display@))));
        },
        None => {
            rows.push(EntityRow { name: n, display: d });
            assert(rows_view(rows@) =~= before.push((trim_seq(name@), trim_seq(display@))));
        },
    }
    true
}

/// Removing row `i`; the edit selection is dropped when it was that row.
pub fn remove_row(rows: &mut Vec<EntityRow>, i: usize, editing: Option<usize>) -> (e: Option<usize>)
    requires
        i < old(rows)@.len(),
    ensures
        rows_view(final(rows)@) == rows_view(old(rows)@).remove(i as int),
        e == (if editing == Some(i) {
            None
        } else {
            editing
        }),
{
    let ghost before = rows_view(rows@);
    rows.remove(i);
    assert(rows_view(rows@) =~= before.remove(i as int));
    if editing == Some(i) {
        None
    } else {
        editing
    }
}

/// Picking row `i` for editing: its name and display name go to the input
/// line.
pub fn pick_row(rows: &Vec<EntityRow>, i: usize) -> (r: (String, String, Option<usize>))
    requires
        i < rows@.len(),
    ensures
        r.0@ == rows@[i as int].name@,
        r.1@ == rows@[i as int].display@,
        r.2 == Some(i),
{
    (rows[i].name.clone(), rows[i].display.clone(), Some(i))
}

/// A channel: credentials, the candidate pool (model name and whether it is
/// checked) and the dispatch models.
#[derive(Debug)]
pub struct ChannelRow {
    pub name: String,
    pub url: String,
    pub keys: String,
    pub candidates: Vec<(String, bool)>,
    pub dispatch: Vec<String>,
}

/// The candidate pool as names and check marks.
pub open spec fn pool(c: ChannelRow) -> Seq<(Seq<char>, bool)> {
    c.candidates@.map_values(|p: (String, bool)| (p.0@, p.1))
}

/// The names in the pool.
pub open spec fn pool_names(c: ChannelRow) -> Seq<Seq<char>> {
    c.candidates@.map_values(|p: (String, bool)| p.0@)
}

/// Names of a pool.
pub open spec fn names(p: Seq<(Seq<char>, bool)>) -> Seq<Seq<char>> {
    p.map_values(|x: (Seq<char>, bool)| x.0)
}

/// Each model name appears once across a pool and a dispatch list.
pub open spec fn models_distinct(p: Seq<(Seq<char>, bool)>, d: Seq<Seq<char>>) -> bool {
    &&& names(p).no_duplicates()
    &&& d.no_duplicates()
    &&& forall|x: Seq<char>| names(p).contains(x) ==> !d.contains(x)
}

/// Each model name of the channel appears once across its pool and its
/// dispatch models.
pub open spec fn channel_wf(c: ChannelRow) -> bool {
    models_distinct(pool(c), views(c.dispatch@))
}

/// Two channels have the same name, URL and keys.
pub open spec fn same_creds(a: ChannelRow, b: ChannelRow) -> bool {
    a.name@ == b.name@ && a.url@ == b.url@ && a.keys@ == b.keys@
}

/// A new channel: `新渠道`, no credentials, no models.
pub fn new_channel() -> (c: ChannelRow)
    ensures
        c.name@ == "新渠道"@,
        c.url@.len() == 0,
        c.keys@.len() == 0,
        c.candidates@.len() == 0,
        c.dispatch@.len() == 0,
        channel_wf(c),
{
    let c = ChannelRow {
        name: "新渠道".to_owned(),
        url: String::new(),
        keys: String::new(),
        candidates: Vec::new(),
        dispatch: Vec::new(),
    };
    assert(names(pool(c)) =~= Seq::<Seq<char>>::empty());
    assert(views(c.dispatch@) =~= Seq::<Seq<char>>::empty());
    c
}

/// Adds a new channel and selects it.
pub fn add_channel(channels: &mut Vec<ChannelRow>) -> (current: usize)
    ensures
        final(channels)@.len() == old(channels)@.len() + 1,
        final(channels)@.take(old(channels)@.len() as int) == old(channels)@,
        final(channels)@.last().name@ == "新渠道"@,
        final(channels)@.last().url@.len() == 0,
        final(channels)@.last().keys@.len() == 0,
        final(channels)@.last().candidates@.len() == 0,
        final(channels)@.last().dispatch@.len() == 0,
        current == old(channels)@.len(),
{
    channels.push(new_channel());
    assert(channels@.take(old(channels)@.len() as int) =~= old(channels)@);
    channels.len() - 1
}

/// Deletes the selected channel when more than one is left, selecting the
/// first one; a last channel stays.
pub fn delete_channel(channels: &mut Vec<ChannelRow>, idx: usize, current: usize) -> (next: usize)
    requires
        old(channels)@.len() > 1 ==> idx < old(channels)@.len(),
    ensures
        old(channels)@.len() > 1 ==> final(channels)@ == old(channels)@.remove(idx as int) && next
            == 0,
        old(channels)@.len() <= 1 ==> final(channels)@ == old(channels)@ && next == current,
{
    if channels.len() > 1 {
        channels.remove(idx);
        0
    } else {
        current
    }
}

/// The models the mock upstream offers.
pub open spec fn upstream_models() -> Seq<Seq<char>> {
    seq!["gpt-4o"@, "gpt-4o-mini"@, "gpt-5"@, "o3"@, "o3-mini"@]
}

/// The upstream models the channel does not know yet, in upstream order.
pub open spec fn unknown_models(c: ChannelRow) -> Seq<Seq<char>> {
    upstream_models().filter(|m: Seq<char>| !pool_names(c).contains(m) && !views(c.dispatch@).contains(m))
}

fn names_contain(c: &ChannelRow, m: &str) -> (r: bool)
    ensures
        r == (pool_names(*c).contains(m@) || views(c.dispatch@).contains(m@)),
{
    let mut i: usize = 0;
    while i < c.candidates.len()
        invariant
            i <= c.candidates@.len(),
            forall|j: int| 0 <= j < i ==> #[trigger] c.candidates@[j].0@ != m@,
        decreases c.candidates.len() - i,
    {
        if str_eq(c.candidates[i].0.as_str(), m) {
            assert(pool_names(*c)[i as int] == m@);
            return true;
        }
        i = i + 1;
    }
    let mut k: usize = 0;
    while k < c.dispatch.len()
        invariant
            k <= c.dispatch@.len(),
            forall|j: int| 0 <= j < c.candidates@.len() ==> #[trigger] c.candidates@[j].0@ != m@,
            forall|j: int| 0 <= j < k ==> #[trigger] c.dispatch@[j]@ != m@,
        decreases c.dispatch.len() - k,
    {
        if str_eq(c.dispatch[k].as_str(), m) {
            assert(views(c.dispatch@)[k as int] == m@);
            return true;
        }
        k = k + 1;
    }
    assert(!pool_names(*c).contains(m@)) by {
        if pool_names(*c).contains(m@) {
            let j = choose|j: int| 0 <= j < pool_names(*c).len() && pool_names(*c)[j] == m@;
            assert(c.candidates@[j].0@ == m@);
        }
    }
    assert(!views(c.dispatch@).contains(m@)) by {
        if views(c.dispatch@).contains(m@) {
            let j = choose|j: int| 0 <= j < views(c.dispatch@).len() && views(c.dispatch@)[j] == m@;
            assert(c.dispatch@[j]@ == m@);
        }
    }
    false
}

/// Pulling models: every upstream model the channel does not know yet joins
/// the pool unchecked.
pub fn pull_models(c: &mut ChannelRow)
    ensures
        pool(*final(c)) == pool(*old(c)) + unknown_models(*old(c)).map_values(
            |m: Seq<char>| (m, false),
        ),
        final(c).dispatch@ == old(c).dispatch@,
        same_creds(*final(c), *old(c)),
{
    let ups: [&str; 5] = ["gpt-4o", "gpt-4o-mini", "gpt-5", "o3", "o3-mini"];
    let ghost u = ups@.map_values(|s: &str| s@);
    assert(u =~= upstream_models());
    let ghost c0 = *c;
    let ghost pred = |m: Seq<char>| !pool_names(c0).contains(m) && !views(c0.dispatch@).contains(m);
    let mut added: Vec<String> = Vec::new();
    let mut i: usize = 0;
    while i < 5
        invariant
            i <= 5,
            *c == c0,
            u == ups@.map_values(|s: &str| s@),
            pred == (|m: Seq<char>| !pool_names(c0).contains(m) && !views(c0.dispatch@).contains(m)),
            views(added@) == u.take(i as int).filter(pred),
        decreases 5 - i,
    {
        proof {
            reveal(Seq::filter);
            assert(u.take(i + 1).drop_last() =~= u.take(i as int));
            assert(u.take(i + 1).last() == ups@[i as int]@);
        }
        if !names_contain(c, ups[i]) {
            let ghost before = views(added@);
            added.push(ups[i].to_owned());
            assert(views(added@) =~= before.push(ups@[i as int]@));
        }
        i = i + 1;
    }
    assert(u.take(5) =~= u);
    let ghost p0 = pool(*c);
    let mut k: usize = 0;
    while k < added.len()
        invariant
            k <= added@.len(),
            c.dispatch@ == c0.dispatch@,
            c.name@ == c0.name@,
            c.url@ == c0.url@,
            c.keys@ == c0.keys@,
            pool(*c) == p0 + views(added@).take(k as int).map_values(|m: Seq<char>| (m, false)),
        decreases added.len() - k,
    {
        let ghost before = pool(*c);
        c.candidates.push((added[k].clone(), false));
        proof {
            assert(pool(*c) =~= before.push((added@[k as int]@, false)));
            assert(views(added@).take(k + 1).map_values(|m: Seq<char>| (m, false)) =~= views(
                added@,
            ).take(k as int).map_values(|m: Seq<char>| (m, false)).push((added@[k as int]@, false)));
        }
        k = k + 1;
    }
    assert(views(added@).take(added@.len() as int) =~= views(added@));
}

/// Checking or unchecking candidate `j`.
pub fn toggle_candidate(c: &mut ChannelRow, j: usize)
    requires
        j < old(c).candidates@.len(),
    ensures
        pool(*final(c)) == pool(*old(c)).update(
            j as int,
            (pool(*old(c))[j as int].0, !pool(*old(c))[j as int].1),
        ),
        final(c).dispatch@ == old(c).dispatch@,
        same_creds(*final(c), *old(c)),
{
    let ghost before = pool(*c);
    let v = c.candidates[j].1;
    let name = c.candidates[j].0.clone();
    c.candidates.set(j, (name, !v));
    assert(pool(*c) =~= before.update(j as int, (before[j as int].0, !before[j as int].1)));
}

/// Emptying the pool.
pub fn clear_candidates(c: &mut ChannelRow)
    ensures
        pool(*final(c)).len() == 0,
        final(c).dispatch@ == old(c).dispatch@,
        same_creds(*final(c), *old(c)),
{
    c.candidates.clear();
}

/// Taking dispatch model `j` out of the graph: it returns to the pool,
/// unchecked.
pub fn remove_dispatch(c: &mut ChannelRow, j: usize)
    requires
        j < old(c).dispatch@.len(),
    ensures
        views(final(c).dispatch@) == views(old(c).dispatch@).remove(j as int),
        pool(*final(c)) == pool(*old(c)).push((old(c).dispatch@[j as int]@, false)),
        same_creds(*final(c), *old(c)),
{
    let ghost d0 = views(c.dispatch@);
    let ghost p0 = pool(*c);
    let m = c.dispatch.remove(j);
    assert(views(c.dispatch@) =~= d0.remove(j as int));
    c.candidates.push((m, false));
    assert(pool(*c) =~= p0.push((old(c).dispatch@[j as int]@, false)));
}

/// The names of the checked candidates, in pool order.
pub open spec fn checked_names(c: ChannelRow) -> Seq<Seq<char>> {
    pool(c).filter(|p: (Seq<char>, bool)| p.1).map_values(|p: (Seq<char>, bool)| p.0)
}

/// `d` extended by the names of `ps` it lacks, in order, each once.
pub open spec fn append_new(d: Seq<Seq<char>>, ps: Seq<Seq<char>>) -> Seq<Seq<char>>
    decreases ps.len(),
{
    if ps.len() == 0 {
        d
    } else {
        let d2 = append_new(d, ps.drop_last());
        if d2.contains(ps.last()) {
            d2
        } else {
            d2.push(ps.last())
        }
    }
}

/// Joining the checked candidates to the graph: their names are appended to
/// the dispatch models (each once), and every checked candidate whose name
/// was picked leaves the pool.
pub fn join_dispatch(c: &mut ChannelRow)
    ensures
        views(final(c).dispatch@) == append_new(views(old(c).dispatch@), checked_names(*old(c))),
        pool(*final(c)) == pool(*old(c)).filter(
            |p: (Seq<char>, bool)| !(p.1 && checked_names(*old(c)).contains(p.0)),
        ),
        same_creds(*final(c), *old(c)),
{
    let ghost c0 = *c;
    let ghost pf = |p: (Seq<char>, bool)| p.1;
    let mut picked: Vec<String> = Vec::new();
    let mut i: usize = 0;
    while i < c.candidates.len()
        invariant
            i <= c.candidates@.len(),
            *c == c0,
            pf == (|p: (Seq<char>, bool)| p.1),
            views(picked@) == pool(c0).take(i as int).filter(pf).map_values(
                |p: (Seq<char>, bool)| p.0,
            ),
        decreases c.candidates.len() - i,
    {
        proof {
            reveal(Seq::filter);
            assert(pool(c0).take(i + 1).drop_last() =~= pool(c0).take(i as int));
            assert(pool(c0).take(i + 1).last() == pool(c0)[i as int]);
        }
        if c.candidates[i].1 {
            let ghost before = views(picked@);
            picked.push(c.candidates[i].0.clone());
            proof {
                assert(views(picked@) =~= before.push(pool(c0)[i as int].0));
                let f1 = pool(c0).take(i as int).filter(pf);
                assert(pool(c0).take(i + 1).filter(pf) == f1.push(pool(c0)[i as int]));
                assert(f1.push(pool(c0)[i as int]).map_values(|p: (Seq<char>, bool)| p.0) =~= f1.map_values(
                    |p: (Seq<char>, bool)| p.0,
                ).push(pool(c0)[i as int].0));
            }
        }
        i = i + 1;
    }
    assert(pool(c0).take(pool(c0).len() as int) =~= pool(c0));
    let ghost pk = views(picked@);
    assert(pk == checked_names(c0));
    let mut k: usize = 0;
    while k < picked.len()
        invariant
            k <= picked@.len(),
            pk == views(picked@),
            pool(*c) == pool(c0),
            same_creds(*c, c0),
            views(c.dispatch@) == append_new(views(c0.dispatch@), pk.take(k as int)),
        decreases picked.len() - k,
    {
        let mut found = false;
        let mut t: usize = 0;
        while t < c.dispatch.len()
            invariant
                t <= c.dispatch@.len(),
                !found ==> forall|x: int| 0 <= x < t ==> #[trigger] c.dispatch@[x]@ != picked@[k as int]@,
                found ==> views(c.dispatch@).contains(picked@[k as int]@),
                k < picked@.len(),
            decreases c.dispatch.len() - t,
        {
            if str_eq(c.dispatch[t].as_str(), picked[k].as_str()) {
                found = true;
                assert(views(c.dispatch@)[t as int] == picked@[k as int]@);
            }
            t = t + 1;
        }
        proof {
            assert(pk.take(k + 1).drop_last() =~= pk.take(k as int));
            assert(pk.take(k + 1).last() == picked@[k as int]@);
            if !found {
                assert(!views(c.dispatch@).contains(picked@[k as int]@)) by {
                    if views(c.dispatch@).contains(picked@[k as int]@) {
                        let x = choose|x: int|
                            0 <= x < views(c.dispatch@).len() && views(c.dispatch@)[x] == picked@[k as int]@;
                        assert(c.dispatch@[x]@ == picked@[k as int]@);
                    }
                }
            }
        }
        if !found {
            let ghost before = views(c.dispatch@);
            c.dispatch.push(picked[k].clone());
            assert(views(c.dispatch@) =~= before.push(picked@[k as int]@));
        }
        k = k + 1;
    }
    assert(pk.take(pk.len() as int) =~= pk);
    let ghost keep = |p: (Seq<char>, bool)| !(p.1 && pk.contains(p.0));
    let mut kept: Vec<(String, bool)> = Vec::new();
    let mut j: usize = 0;
    while j < c.candidates.len()
        invariant
            j <= c.candidates@.len(),
            pool(*c) == pool(c0),
            same_creds(*c, c0),
            pk == views(picked@),
            keep == (|p: (Seq<char>, bool)| !(p.1 && pk.contains(p.0))),
            kept@.map_values(|p: (String, bool)| (p.0@, p.1)) == pool(c0).take(j as int).filter(keep),
        decreases c.candidates.len() - j,
    {
        proof {
            reveal(Seq::filter);
            assert(pool(c0).take(j + 1).drop_last() =~= pool(c0).take(j as int));
            assert(pool(c0).take(j + 1).last() == pool(c0)[j as int]);
        }
        let on = c.candidates[j].1;
        let mut in_picked = false;
        if on {
            let mut t: usize = 0;
            while t < picked.len()
                invariant
                    t <= picked@.len(),
                    j < c.candidates@.len(),
                    pk == views(picked@),
                    !in_picked ==> forall|x: int| 0 <= x < t ==> #[trigger] picked@[x]@ != c.candidates@[j as int].0@,
                    in_picked ==> pk.contains(c.candidates@[j as int].0@),
                decreases picked.len() - t,
            {
                if str_eq(picked[t].as_str(), c.candidates[j].0.as_str()) {
                    in_picked = true;
                    assert(pk[t as int] == c.candidates@[j as int].0@);
                }
                t = t + 1;
            }
            proof {
                if !in_picked {
                    assert(!pk.contains(c.candidates@[j as int].0@)) by {
                        if pk.contains(c.candidates@[j as int].0@) {
                            let x = choose|x: int| 0 <= x < pk.len() && pk[x] == c.candidates@[j as int].0@;
                            assert(picked@[x]@ == c.candidates@[j as int].0@);
                        }
                    }
                }
            }
        }
        if !(on && in_picked) {
            let ghost before = kept@.map_values(|p: (String, bool)| (p.0@, p.1));
            kept.push((c.candidates[j].0.clone(), on));
            assert(kept@.map_values(|p: (String, bool)| (p.0@, p.1)) =~= before.push(pool(c0)[j as int]));
        }
        j = j + 1;
    }
    assert(pool(c0).take(pool(c0).len() as int) =~= pool(c0));
    c.candidates = kept;
    assert(pool(*c) =~= kept@.map_values(|p: (String, bool)| (p.0@, p.1)));
}

proof fn lemma_names_filter(p: Seq<(Seq<char>, bool)>, f: spec_fn((Seq<char>, bool)) -> bool)
    ensures
        names(p).no_duplicates() ==> names(p.filter(f)).no_duplicates(),
        forall|x: Seq<char>|
            #[trigger] names(p.filter(f)).contains(x) ==> exists|i: int|
                0 <= i < p.len() && p[i].0 == x && f(p[i]),
    decreases p.len(),
{
    reveal(Seq::filter);
    if p.len() > 0 {
        let d = p.drop_last();
        lemma_names_filter(d, f);
        let fd = d.filter(f);
        assert(names(d) =~= names(p).drop_last());
        if f(p.last()) {
            assert(p.filter(f) == fd.push(p.last()));
            assert(names(p.filter(f)) =~= names(fd).push(p.last().0));
        } else {
            assert(p.filter(f) == fd);
        }
        assert forall|x: Seq<char>| #[trigger] names(p.filter(f)).contains(x) implies exists|i: int|
            0 <= i < p.len() && p[i].0 == x && f(p[i]) by {
            if names(fd).contains(x) {
                let i = choose|i: int| 0 <= i < d.len() && d[i].0 == x && f(d[i]);
                assert(p[i] == d[i]);
            } else {
                let k = choose|k: int| 0 <= k < names(p.filter(f)).len() && names(p.filter(f))[k] == x;
                assert(f(p.last()));
                assert(k == names(fd).len());
                assert(p[p.len() - 1] == p.last());
            }
        }
        if names(p).no_duplicates() && f(p.last()) {
            assert(!names(fd).contains(p.last().0)) by {
                if names(fd).contains(p.last().0) {
                    let i = choose|i: int| 0 <= i < d.len() && d[i].0 == p.last().0 && f(d[i]);
                    assert(names(p)[i] == names(p)[p.len() - 1]);
                }
            }
            assert forall|a: int, b: int|
                0 <= a < names(p.filter(f)).len() && 0 <= b < names(p.filter(f)).len() && a != b
                implies names(p.filter(f))[a] != names(p.filter(f))[b] by {
                if a == names(fd).len() {
                    assert(names(fd).contains(names(fd)[b]));
                } else if b == names(fd).len() {
                    assert(names(fd).contains(names(fd)[a]));
                }
            }
        }
    }
}

proof fn lemma_append_new_disjoint(d: Seq<Seq<char>>, ps: Seq<Seq<char>>)
    requires
        ps.no_duplicates(),
        forall|x: Seq<char>| ps.contains(x) ==> !d.contains(x),
    ensures
        append_new(d, ps) == d + ps,
    decreases ps.len(),
{
    if ps.len() > 0 {
        let q = ps.drop_last();
        assert forall|x: Seq<char>| q.contains(x) implies !d.contains(x) by {
            let i = choose|i: int| 0 <= i < q.len() && q[i] == x;
            assert(ps[i] == x);
        }
        lemma_append_new_disjoint(d, q);
        assert(!(d + q).contains(ps.last())) by {
            if (d + q).contains(ps.last()) {
                let i = choose|i: int| 0 <= i < (d + q).len() && (d + q)[i] == ps.last();
                if i < d.len() {
                    assert(ps[ps.len() - 1] == ps.last());
                    assert(d.contains(ps.last()));
                } else {
                    assert(ps[i - d.len()] == ps[ps.len() - 1]);
                }
            }
        }
        assert(d + ps =~= (d + q).push(ps.last()));
    }
}

/// Joining the checked candidates to the graph keeps every model name once
/// across the pool and the dispatch models: the checked ones move over, the
/// others stay.
pub proof fn law_join_keeps_models_distinct(p: Seq<(Seq<char>, bool)>, d: Seq<Seq<char>>)
    requires
        models_distinct(p, d),
    ensures
        ({
            let checked = names(p.filter(|x: (Seq<char>, bool)| x.1));
            models_distinct(
                p.filter(|x: (Seq<char>, bool)| !(x.1 && checked.contains(x.0))),
                append_new(d, checked),
            )
        }),
{
    let pf = |x: (Seq<char>, bool)| x.1;
    let checked = names(p.filter(pf));
    let keep = |x: (Seq<char>, bool)| !(x.1 && checked.contains(x.0));
    lemma_names_filter(p, pf);
    lemma_names_filter(p, keep);
    let kept = p.filter(keep);
    assert forall|x: Seq<char>| checked.contains(x) implies !d.contains(x) by {
        let i = choose|i: int| 0 <= i < p.len() && p[i].0 == x && pf(p[i]);
        assert(names(p)[i] == x);
        assert(names(p).contains(x));
    }
    lemma_append_new_disjoint(d, checked);
    let d2 = d + checked;
    assert forall|i: int, j: int| 0 <= i < d.len() && 0 <= j < checked.len() implies d[i]
        != checked[j] by {
        assert(checked.contains(checked[j]));
        assert(d.contains(d[i]));
    }
    vstd::seq_lib::lemma_no_dup_in_concat(d, checked);
    assert forall|x: Seq<char>| names(kept).contains(x) implies !d2.contains(x) by {
        let i = choose|i: int| 0 <= i < p.len() && p[i].0 == x && keep(p[i]);
        assert(names(p)[i] == x);
        assert(!d.contains(x));
        if checked.contains(x) {
            let k = choose|k: int| 0 <= k < p.len() && p[k].0 == x && pf(p[k]);
            assert(names(p)[k] == x);
            assert(k == i);
        }
        if d2.contains(x) {
            let t = choose|t: int| 0 <= t < d2.len() && d2[t] == x;
            if t < d.len() {
                assert(d[t] == x);
            } else {
                assert(checked[t - d.len()] == x);
            }
        }
    }
}

/// Taking a dispatch model back to the pool keeps every model name once.
pub proof fn law_remove_dispatch_keeps_models_distinct(
    p: Seq<(Seq<char>, bool)>,
    d: Seq<Seq<char>>,
    j: int,
)
    requires
        models_distinct(p, d),
        0 <= j < d.len(),
    ensures
        models_distinct(p.push((d[j], false)), d.remove(j)),
{
    let p2 = p.push((d[j], false));
    assert(names(p2) =~= names(p).push(d[j]));
    assert(!names(p).contains(d[j])) by {
        if names(p).contains(d[j]) {
            assert(d.contains(d[j]));
        }
    }
    assert forall|x: Seq<char>| names(p2).contains(x) implies !d.remove(j).contains(x) by {
        if d.remove(j).contains(x) {
            let t = choose|t: int| 0 <= t < d.remove(j).len() && d.remove(j)[t] == x;
            let t2 = if t < j {
                t
            } else {
                t + 1
            };
            assert(d[t2] == x);
            assert(d.contains(x));
            let k = choose|k: int| 0 <= k < names(p2).len() && names(p2)[k] == x;
            if k < names(p).len() {
                assert(names(p).contains(x));
            } else {
                assert(x == d[j]);
                assert(t2 != j);
            }
        }
    }
    assert forall|a: int, b: int|
        0 <= a < d.remove(j).len() && 0 <= b < d.remove(j).len() && a != b implies d.remove(j)[a]
        != d.remove(j)[b] by {
        let a2 = if a < j {
            a
        } else {
            a + 1
        };
        let b2 = if b < j {
            b
        } else {
            b + 1
        };
        assert(d.remove(j)[a] == d[a2]);
        assert(d.remove(j)[b] == d[b2]);
    }
    assert forall|a: int, b: int|
        0 <= a < names(p2).len() && 0 <= b < names(p2).len() && a != b implies names(p2)[a]
        != names(p2)[b] by {
        if a == names(p).len() {
            assert(names(p).contains(names(p2)[b]));
        } else if b == names(p).len() {
            assert(names(p).contains(names(p2)[a]));
        }
    }
}

/// Pulling models keeps every model name once: only unknown upstream models
/// join the pool.
pub proof fn law_pull_keeps_models_distinct(p: Seq<(Seq<char>, bool)>, d: Seq<Seq<char>>)
    requires
        models_distinct(p, d),
    ensures
        ({
            let fresh = upstream_models().filter(|m: Seq<char>| !names(p).contains(m) && !d.contains(m));
            models_distinct(p + fresh.map_values(|m: Seq<char>| (m, false)), d)
        }),
{
    let f = |m: Seq<char>| !names(p).contains(m) && !d.contains(m);
    let fresh = upstream_models().filter(f);
    let p2 = p + fresh.map_values(|m: Seq<char>| (m, false));
    assert(names(p2) =~= names(p) + fresh);
    assert forall|x: Seq<char>| fresh.contains(x) implies f(x) by {
        upstream_models().lemma_filter_contains_rev(f, x);
        let i = choose|i: int| 0 <= i < fresh.len() && fresh[i] == x;
        upstream_models().lemma_filter_pred(f, i);
    }
    assert(upstream_models().no_duplicates()) by {
        reveal_strlit("gpt-4o");
        reveal_strlit("gpt-4o-mini");
        reveal_strlit("gpt-5");
        reveal_strlit("o3");
        reveal_strlit("o3-mini");
        let u = upstream_models();
        assert(u[0].len() == 6 && u[1].len() == 11 && u[2].len() == 5 && u[3].len() == 2
            && u[4].len() == 7);
        assert forall|i: int, j: int| 0 <= i < u.len() && 0 <= j < u.len() && i != j implies u[i]
            != u[j] by {
            assert(u[i].len() != u[j].len());
        }
    }
    lemma_filter_no_dup(upstream_models(), f);
    assert forall|i: int, j: int| 0 <= i < names(p).len() && 0 <= j < fresh.len() implies names(
        p,
    )[i] != fresh[j] by {
        assert(fresh.contains(fresh[j]));
        assert(names(p).contains(names(p)[i]));
    }
    vstd::seq_lib::lemma_no_dup_in_concat(names(p), fresh);
    assert forall|x: Seq<char>| names(p2).contains(x) implies !d.contains(x) by {
        let k = choose|k: int| 0 <= k < names(p2).len() && names(p2)[k] == x;
        if k < names(p).len() {
            assert(names(p).contains(x));
        } else {
            assert(fresh[k - names(p).len()] == x);
            assert(fresh.contains(x));
        }
    }
}

proof fn lemma_filter_no_dup(s: Seq<Seq<char>>, f: spec_fn(Seq<char>) -> bool)
    requires
        s.no_duplicates(),
    ensures
        s.filter(f).no_duplicates(),
    decreases s.len(),
{
    reveal(Seq::filter);
    if s.len() > 0 {
        let d = s.drop_last();
        lemma_filter_no_dup(d, f);
        if f(s.last()) {
            assert(!d.filter(f).contains(s.last())) by {
                if d.filter(f).contains(s.last()) {
                    d.lemma_filter_contains_rev(f, s.last());
                    let i = choose|i: int| 0 <= i < d.len() && d[i] == s.last();
                    assert(s[i] == s[s.len() - 1]);
                }
            }
            let fd = d.filter(f);
            assert forall|a: int, b: int|
                0 <= a < fd.push(s.last()).len() && 0 <= b < fd.push(s.last()).len() && a != b
                implies fd.push(s.last())[a] != fd.push(s.last())[b] by {
                if a == fd.len() {
                    assert(fd.contains(fd[b]));
                } else if b == fd.len() {
                    assert(fd.contains(fd[a]));
                }
            }
        }
    }
}

} // verus!
