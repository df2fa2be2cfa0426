//! The four-zone dock of the chat page: which panel sits in which zone, in
//! which order, and whether it is enabled; the queries the layout renders
//! from, and the decision a panel drop makes.

use vstd::prelude::*;
use crate::text::str_eq;

verus! {

/// A dock zone: the top or bottom half of the left or right column.
#[derive(Clone, Copy, PartialEq, Eq, Debug, Structural)]
pub enum Zone {
    LeftTop,
    LeftBottom,
    RightTop,
    RightBottom,
}

/// A side column.
#[derive(Clone, Copy, PartialEq, Eq, Debug, Structural)]
pub enum Side {
    Left,
    Right,
}

/// The side whose horizontal split line is being dragged.
#[derive(Clone, Copy, PartialEq, Eq, Debug, Structural)]
pub enum SplitSide {
    Left,
    Right,
}

/// The column a split line belongs to.
pub fn side_of_split(s: SplitSide) -> (r: Side)
    ensures
        (s == SplitSide::Left) == (r == Side::Left),
{
    match s {
        SplitSide::Left => Side::Left,
        SplitSide::Right => Side::Right,
    }
}

/// A docked panel.
#[derive(Debug)]
pub struct DockItem {
    /// Stable panel id.
    pub id: String,
    pub zone: Zone,
    /// Position among the panels of its zone (ascending).
    pub order: u32,
    /// A disabled panel is folded away; a zone with one is collapsed.
    pub enabled: bool,
    pub title: String,
}

impl DockItem {
    /// A field-by-field copy.
    pub fn copy(&self) -> (r: DockItem)
        ensures
            r.id@ == self.id@,
            r.zone == self.zone,
            r.order == self.order,
            r.enabled == self.enabled,
            r.title@ == self.title@,
    {
        DockItem {
            id: self.id.clone(),
            zone: self.zone,
            order: self.order,
            enabled: self.enabled,
            title: self.title.clone(),
        }
    }
}

/// The panels of the dock (the split ratios live with the view).
#[derive(Debug)]
pub struct DockLayout {
    pub items: Vec<DockItem>,
}

/// The default panels: id, zone, order, enabled, title.
pub open spec fn default_item_table() -> Seq<(Seq<char>, Zone, u32, bool, Seq<char>)> {
    seq![
        ("character"@, Zone::LeftTop, 0u32, true, "角色卡"@),
        ("sessions"@, Zone::LeftBottom, 0u32, true, "会话时间线"@),
        ("prompt"@, Zone::RightTop, 0u32, true, "prompt 导航"@),
        ("model"@, Zone::RightBottom, 0u32, true, "模型与轮次"@),
    ]
}

/// The item matches the table row.
pub open spec fn item_is(it: DockItem, row: (Seq<char>, Zone, u32, bool, Seq<char>)) -> bool {
    it.id@ == row.0 && it.zone == row.1 && it.order == row.2 && it.enabled == row.3 && it.title@
        == row.4
}

fn item(id: &str, zone: Zone, title: &str) -> (r: DockItem)
    ensures
        r.id@ == id@,
        r.zone == zone,
        r.order == 0,
        r.enabled,
        r.title@ == title@,
{
    DockItem { id: id.to_owned(), zone, order: 0, enabled: true, title: title.to_owned() }
}

/// The default layout: each of the four panels alone in its zone.
pub fn default_layout() -> (l: DockLayout)
    ensures
        l.items@.len() == default_item_table().len(),
        forall|i: int|
            0 <= i < l.items@.len() ==> #[trigger] item_is(l.items@[i], default_item_table()[i]),
{
    let mut items: Vec<DockItem> = Vec::new();
    items.push(item("character", Zone::LeftTop, "角色卡"));
    items.push(item("sessions", Zone::LeftBottom, "会话时间线"));
    items.push(item("prompt", Zone::RightTop, "prompt 导航"));
    items.push(item("model", Zone::RightBottom, "模型与轮次"));
    let l = DockLayout { items };
    assert(item_is(l.items@[0], default_item_table()[0]));
    assert(item_is(l.items@[1], default_item_table()[1]));
    assert(item_is(l.items@[2], default_item_table()[2]));
    assert(item_is(l.items@[3], default_item_table()[3]));
    l
}

/// A zone is collapsed when one of its panels is disabled.
pub open spec fn collapsed_in(items: Seq<DockItem>, zone: Zone) -> bool {
    exists|i: int| 0 <= i < items.len() && #[trigger] items[i].zone == zone && !items[i].enabled
}

/// Whether the zone is collapsed.
pub fn zone_collapsed(layout: &DockLayout, zone: Zone) -> (r: bool)
    ensures
        r == collapsed_in(layout.items@, zone),
{
    let mut i: usize = 0;
    while i < layout.items.len()
        invariant
            i <= layout.items@.len(),
            forall|j: int|
                0 <= j < i ==> !(#[trigger] layout.items@[j].zone == zone && !layout.items@[j].enabled),
        decreases layout.items.len() - i,
    {
        if layout.items[i].zone == zone && !layout.items[i].enabled {
            return true;
        }
        i = i + 1;
    }
    false
}

fn find_item(items: &Vec<DockItem>, id: &str) -> (r: Option<usize>)
    ensures
        match r {
            Some(i) => i < items@.len() && items@[i as int].id@ == id@ && forall|j: int|
                0 <= j < i ==> items@[j].id@ != id@,
            None => forall|j: int| 0 <= j < items@.len() ==> items@[j].id@ != id@,
        },
{
    let mut i: usize = 0;
    while i < items.len()
        invariant
            i <= items@.len(),
            forall|j: int| 0 <= j < i ==> items@[j].id@ != id@,
        decreases items.len() - i,
    {
        if str_eq(items[i].id.as_str(), id) {
            return Some(i);
        }
        i = i + 1;
    }
    None
}

/// The zone the panel sits in: that of the first panel with the id.
pub fn zone_of_item(layout: &DockLayout, item_id: &str) -> (r: Option<Zone>)
    ensures
        match r {
            Some(z) => exists|i: int|
                0 <= i < layout.items@.len() && layout.items@[i].id@ == item_id@ && layout.items@[i].zone
                    == z && forall|j: int| 0 <= j < i ==> #[trigger] layout.items@[j].id@ != item_id@,
            None => forall|j: int|
                0 <= j < layout.items@.len() ==> #[trigger] layout.items@[j].id@ != item_id@,
        },
{
    match find_item(&layout.items, item_id) {
        Some(i) => Some(layout.items[i].zone),
        None => None,
    }
}

/// The panel is an enabled member of the zone.
pub open spec fn member(items: Seq<DockItem>, zone: Zone, i: int) -> bool {
    items[i].zone == zone && items[i].enabled
}

/// Indices of the enabled panels of the zone among the first `n`, ascending.
pub open spec fn members(items: Seq<DockItem>, zone: Zone, n: int) -> Seq<int>
    decreases n,
{
    if n <= 0 {
        seq![]
    } else if member(items, zone, n - 1) {
        members(items, zone, n - 1).push(n - 1)
    } else {
        members(items, zone, n - 1)
    }
}

/// Where a panel of order `o` goes in `sorted`: after every panel whose order
/// is at most `o`.
pub open spec fn insert_pos(items: Seq<DockItem>, sorted: Seq<int>, o: u32) -> int
    decreases sorted.len(),
{
    if sorted.len() == 0 {
        0
    } else if items[sorted.last()].order <= o {
        sorted.len() as int
    } else {
        insert_pos(items, sorted.drop_last(), o)
    }
}

/// Stable sort of the panel indices `s` by order: equal orders keep the
/// order they have in `s`.
pub open spec fn sort_by_order(items: Seq<DockItem>, s: Seq<int>) -> Seq<int>
    decreases s.len(),
{
    if s.len() == 0 {
        seq![]
    } else {
        let sorted = sort_by_order(items, s.drop_last());
        let k = insert_pos(items, sorted, items[s.last()].order);
        sorted.take(k).push(s.last()) + sorted.skip(k)
    }
}

/// The enabled panels of the zone, by ascending order (stable).
pub open spec fn zone_order(items: Seq<DockItem>, zone: Zone) -> Seq<int> {
    sort_by_order(items, members(items, zone, items.len() as int))
}

proof fn lemma_insert_pos_bound(items: Seq<DockItem>, sorted: Seq<int>, o: u32)
    ensures
        0 <= insert_pos(items, sorted, o) <= sorted.len(),
    decreases sorted.len(),
{
    if sorted.len() > 0 && !(items[sorted.last()].order <= o) {
        lemma_insert_pos_bound(items, sorted.drop_last(), o);
    }
}

fn insert_index(items: &Vec<DockItem>, sorted: &Vec<usize>, o: u32) -> (k: usize)
    requires
        forall|j: int| 0 <= j < sorted@.len() ==> #[trigger] sorted@[j] < items@.len(),
    ensures
        k as int == insert_pos(items@, sorted@.map_values(|x: usize| x as int), o),
        k <= sorted@.len(),
{
    let ghost ss = sorted@.map_values(|x: usize| x as int);
    let mut k: usize = sorted.len();
    assert(ss.take(sorted@.len() as int) =~= ss);
    while k > 0 && items[sorted[k - 1]].order > o
        invariant
            k <= sorted@.len(),
            ss == sorted@.map_values(|x: usize| x as int),
            forall|j: int| 0 <= j < sorted@.len() ==> #[trigger] sorted@[j] < items@.len(),
            insert_pos(items@, ss, o) == insert_pos(items@, ss.take(k as int), o),
        decreases k,
    {
        proof {
            let t = ss.take(k as int);
            assert(t.drop_last() =~= ss.take(k - 1));
            assert(t.last() == sorted@[k - 1] as int);
        }
        k = k - 1;
    }
    proof {
        assert(ss.take(sorted@.len() as int) =~= ss);
        if k > 0 {
            assert(ss.take(k as int).last() == sorted@[k - 1] as int);
        }
    }
    k
}

/// Ids of the enabled panels of the zone, ascending by order; panels of equal
/// order keep their layout order.
pub fn zone_item_ids(layout: &DockLayout, zone: Zone) -> (r: Vec<String>)
    ensures
        r@.len() == zone_order(layout.items@, zone).len(),
        forall|j: int|
            0 <= j < r@.len() ==> #[trigger] r@[j]@ == layout.items@[zone_order(
                layout.items@,
                zone,
            )[j]].id@,
{
    let items = &layout.items;
    let ghost its = items@;
    let mut sorted: Vec<usize> = Vec::new();
    let mut i: usize = 0;
    while i < items.len()
        invariant
            i <= its.len(),
            its == items@,
            forall|j: int| 0 <= j < sorted@.len() ==> #[trigger] sorted@[j] < its.len(),
            sorted@.map_values(|x: usize| x as int) == sort_by_order(its, members(its, zone, i as int)),
        decreases items.len() - i,
    {
        if items[i].zone == zone && items[i].enabled {
            let ghost before = sorted@.map_values(|x: usize| x as int);
            let k = insert_index(items, &sorted, items[i].order);
            sorted.insert(k, i);
            proof {
                let m = members(its, zone, i + 1);
                assert(m == members(its, zone, i as int).push(i as int));
                assert(m.drop_last() =~= members(its, zone, i as int));
                assert(m.last() == i as int);
                assert(sorted@.map_values(|x: usize| x as int) =~= before.take(k as int).push(
                    i as int,
                ) + before.skip(k as int));
            }
        }
        i = i + 1;
    }
    let ghost order = zone_order(its, zone);
    assert(sorted@.map_values(|x: usize| x as int) == order);
    let mut r: Vec<String> = Vec::new();
    let mut j: usize = 0;
    while j < sorted.len()
        invariant
            j <= sorted@.len(),
            its == items@,
            forall|x: int| 0 <= x < sorted@.len() ==> #[trigger] sorted@[x] < its.len(),
            sorted@.map_values(|x: usize| x as int) == order,
            r@.len() == j,
            forall|x: int| 0 <= x < j ==> #[trigger] r@[x]@ == its[order[x]].id@,
        decreases sorted.len() - j,
    {
        let idx = sorted[j];
        assert(order[j as int] == idx as int);
        r.push(items[idx].id.clone());
        j = j + 1;
    }
    r
}

/// The disabled panels of the zone, in layout order.
pub open spec fn disabled_in(items: Seq<DockItem>, zone: Zone) -> Seq<DockItem> {
    items.filter(|it: DockItem| it.zone == zone && !it.enabled)
}

/// The two panels carry the same fields.
pub open spec fn same_item(a: DockItem, b: DockItem) -> bool {
    &&& a.id@ == b.id@
    &&& a.zone == b.zone
    &&& a.order == b.order
    &&& a.enabled == b.enabled
    &&& a.title@ == b.title@
}

/// The panels of the zone that are disabled, in layout order.
pub fn zone_disabled_items(layout: &DockLayout, zone: Zone) -> (r: Vec<DockItem>)
    ensures
        r@.len() == disabled_in(layout.items@, zone).len(),
        forall|j: int|
            0 <= j < r@.len() ==> same_item(#[trigger] r@[j], disabled_in(layout.items@, zone)[j]),
{
    let ghost pred = |it: DockItem| it.zone == zone && !it.enabled;
    let ghost its = layout.items@;
    let mut r: Vec<DockItem> = Vec::new();
    let mut i: usize = 0;
    while i < layout.items.len()
        invariant
            i <= its.len(),
            its == layout.items@,
            pred == (|it: DockItem| it.zone == zone && !it.enabled),
            r@.len() == its.take(i as int).filter(pred).len(),
            forall|j: int|
                0 <= j < r@.len() ==> same_item(#[trigger] r@[j], its.take(i as int).filter(pred)[j]),
        decreases layout.items.len() - i,
    {
        proof {
            reveal(Seq::filter);
            assert(its.take(i + 1).drop_last() =~= its.take(i as int));
            assert(its.take(i + 1).last() == its[i as int]);
        }
        let it = &layout.items[i];
        if it.zone == zone && !it.enabled {
            r.push(it.copy());
        }
        i = i + 1;
    }
    assert(its.take(its.len() as int) =~= its);
    r
}

/// The zones in the order panels are looked up.
pub open spec fn zone_scan() -> Seq<Zone> {
    seq![Zone::LeftTop, Zone::LeftBottom, Zone::RightTop, Zone::RightBottom]
}

/// Position of the first id equal to `id` in the zone's ordered ids.
pub open spec fn pos_in_zone(items: Seq<DockItem>, zone: Zone, id: Seq<char>) -> Option<int> {
    let o = zone_order(items, zone);
    if exists|x: int|
        0 <= x < o.len() && #[trigger] items[o[x]].id@ == id && forall|y: int|
            0 <= y < x ==> items[o[y]].id@ != id {
        Some(
            choose|x: int|
                0 <= x < o.len() && #[trigger] items[o[x]].id@ == id && forall|y: int|
                    0 <= y < x ==> items[o[y]].id@ != id,
        )
    } else {
        None
    }
}

fn position_of(ids: &Vec<String>, id: &str) -> (r: Option<usize>)
    ensures
        match r {
            Some(x) => x < ids@.len() && ids@[x as int]@ == id@ && forall|y: int|
                0 <= y < x ==> ids@[y]@ != id@,
            None => forall|y: int| 0 <= y < ids@.len() ==> ids@[y]@ != id@,
        },
{
    let mut x: usize = 0;
    while x < ids.len()
        invariant
            x <= ids@.len(),
            forall|y: int| 0 <= y < x ==> ids@[y]@ != id@,
        decreases ids.len() - x,
    {
        if str_eq(ids[x].as_str(), id) {
            return Some(x);
        }
        x = x + 1;
    }
    None
}

/// Where a panel is: the first zone, in scan order, among whose enabled
/// panels it appears, and its position there.
pub fn item_origin(layout: &DockLayout, item_id: &str) -> (r: Option<(Zone, usize)>)
    ensures
        match r {
            Some((z, x)) => exists|k: int|
                0 <= k < 4 && zone_scan()[k] == z && pos_in_zone(layout.items@, z, item_id@) == Some(
                    x as int,
                ) && forall|k2: int|
                    0 <= k2 < k ==> #[trigger] pos_in_zone(layout.items@, zone_scan()[k2], item_id@)
                        is None,
            None => forall|k: int|
                0 <= k < 4 ==> #[trigger] pos_in_zone(layout.items@, zone_scan()[k], item_id@) is None,
        },
{
    let zones: [Zone; 4] = [Zone::LeftTop, Zone::LeftBottom, Zone::RightTop, Zone::RightBottom];
    assert(zones@ == zone_scan());
    let mut k: usize = 0;
    while k < 4
        invariant
            k <= 4,
            zones@ == zone_scan(),
            forall|k2: int|
                0 <= k2 < k ==> #[trigger] pos_in_zone(layout.items@, zone_scan()[k2], item_id@) is None,
        decreases 4 - k,
    {
        let z = zones[k];
        let ids = zone_item_ids(layout, z);
        let ghost o = zone_order(layout.items@, z);
        match position_of(&ids, item_id) {
            Some(x) => {
                proof {
                    assert(layout.items@[o[x as int]].id@ == item_id@);
                    assert forall|y: int| 0 <= y < x implies layout.items@[o[y]].id@ != item_id@ by {
                        assert(ids@[y]@ == layout.items@[o[y]].id@);
                    }
                    let w = choose|w: int|
                        0 <= w < o.len() && #[trigger] layout.items@[o[w]].id@ == item_id@ && forall|
                            y: int,
                        | 0 <= y < w ==> layout.items@[o[y]].id@ != item_id@;
                    if w < x {
                        assert(ids@[w]@ == layout.items@[o[w]].id@);
                    } else if w > x {
                        assert(layout.items@[o[x as int]].id@ == item_id@);
                    }
                }
                return Some((z, x));
            },
            None => {
                proof {
                    assert forall|x: int| 0 <= x < o.len() implies !(#[trigger] layout.items@[o[x]].id@
                        == item_id@) by {
                        assert(ids@[x]@ == layout.items@[o[x]].id@);
                    }
                }
            },
        }
        k = k + 1;
    }
    None
}

/// The panel indices are in non-decreasing order.
pub open spec fn orders_sorted(items: Seq<DockItem>, s: Seq<int>) -> bool {
    forall|a: int, b: int| 0 <= a < b < s.len() ==> items[s[a]].order <= items[s[b]].order
}

proof fn lemma_insert_pos_splits(items: Seq<DockItem>, sorted: Seq<int>, o: u32)
    requires
        orders_sorted(items, sorted),
    ensures
        forall|i: int| 0 <= i < insert_pos(items, sorted, o) ==> items[sorted[i]].order <= o,
        forall|i: int|
            insert_pos(items, sorted, o) <= i < sorted.len() ==> items[sorted[i]].order > o,
    decreases sorted.len(),
{
    lemma_insert_pos_bound(items, sorted, o);
    if sorted.len() > 0 {
        if items[sorted.last()].order <= o {
            assert forall|i: int| 0 <= i < sorted.len() implies items[sorted[i]].order <= o by {
                if i < sorted.len() - 1 {
                    assert(items[sorted[i]].order <= items[sorted[sorted.len() - 1]].order);
                }
            }
        } else {
            let d = sorted.drop_last();
            lemma_insert_pos_splits(items, d, o);
            assert forall|i: int| 0 <= i < insert_pos(items, sorted, o) implies items[sorted[i]].order
                <= o by {
                assert(sorted[i] == d[i]);
            }
            assert forall|i: int|
                insert_pos(items, sorted, o) <= i < sorted.len() implies items[sorted[i]].order
                > o by {
                if i < sorted.len() - 1 {
                    assert(sorted[i] == d[i]);
                }
            }
        }
    }
}

/// The stable sort yields its panels in non-decreasing order.
pub proof fn law_sort_by_order_sorted(items: Seq<DockItem>, s: Seq<int>)
    ensures
        orders_sorted(items, sort_by_order(items, s)),
        sort_by_order(items, s).len() == s.len(),
    decreases s.len(),
{
    if s.len() > 0 {
        let sorted = sort_by_order(items, s.drop_last());
        law_sort_by_order_sorted(items, s.drop_last());
        let o = items[s.last()].order;
        let k = insert_pos(items, sorted, o);
        lemma_insert_pos_splits(items, sorted, o);
        lemma_insert_pos_bound(items, sorted, o);
        let r = sorted.take(k).push(s.last()) + sorted.skip(k);
        assert forall|a: int, b: int| 0 <= a < b < r.len() implies items[r[a]].order
            <= items[r[b]].order by {
            if b < k {
                assert(r[a] == sorted[a] && r[b] == sorted[b]);
            } else if b == k {
                assert(r[a] == sorted[a]);
            } else if a < k {
                assert(r[a] == sorted[a] && r[b] == sorted[b - 1]);
            } else if a == k {
                assert(r[b] == sorted[b - 1]);
            } else {
                assert(r[a] == sorted[a - 1] && r[b] == sorted[b - 1]);
            }
        }
    }
}

/// A panel found at `(zone, x)` is the `x`-th enabled panel of that zone.
pub proof fn law_origin_names_panel(items: Seq<DockItem>, zone: Zone, id: Seq<char>, x: int)
    requires
        pos_in_zone(items, zone, id) == Some(x),
    ensures
        0 <= x < zone_order(items, zone).len(),
        items[zone_order(items, zone)[x]].id@ == id,
{
}

/// The zone a panel docks in when the layout lacks it.
pub open spec fn default_zone_of(id: Seq<char>) -> Zone {
    if id == "character"@ {
        Zone::LeftTop
    } else if id == "sessions"@ {
        Zone::LeftBottom
    } else if id == "model"@ {
        Zone::RightBottom
    } else {
        Zone::RightTop
    }
}

/// Default zone of a panel.
pub fn default_zone(item_id: &str) -> (z: Zone)
    ensures
        z == default_zone_of(item_id@),
{
    if str_eq(item_id, "character") {
        Zone::LeftTop
    } else if str_eq(item_id, "sessions") {
        Zone::LeftBottom
    } else if str_eq(item_id, "model") {
        Zone::RightBottom
    } else {
        Zone::RightTop
    }
}

/// The zone a panel renders in: where the layout puts it, else its default.
pub fn panel_zone(layout: &DockLayout, item_id: &str) -> (z: Zone)
    ensures
        (exists|i: int|
            0 <= i < layout.items@.len() && #[trigger] layout.items@[i].id@ == item_id@)
            ==> exists|i: int|
            0 <= i < layout.items@.len() && layout.items@[i].id@ == item_id@ && layout.items@[i].zone
                == z && forall|j: int| 0 <= j < i ==> #[trigger] layout.items@[j].id@ != item_id@,
        (forall|i: int|
            0 <= i < layout.items@.len() ==> #[trigger] layout.items@[i].id@ != item_id@) ==> z
            == default_zone_of(item_id@),
{
    match zone_of_item(layout, item_id) {
        Some(z) => z,
        None => default_zone(item_id),
    }
}

/// The zone's name in test ids.
pub fn zone_label(zone: Zone) -> (r: &'static str)
    ensures
        r@ == (match zone {
            Zone::LeftTop => "left-top"@,
            Zone::LeftBottom => "left-bottom"@,
            Zone::RightTop => "right-top"@,
            Zone::RightBottom => "right-bottom"@,
        }),
{
    match zone {
        Zone::LeftTop => "left-top",
        Zone::LeftBottom => "left-bottom",
        Zone::RightTop => "right-top",
        Zone::RightBottom => "right-bottom",
    }
}

/// What releasing a dragged panel does.
#[derive(Clone, Copy, PartialEq, Eq, Debug, Structural)]
pub enum PanelDrop {
    /// Nothing: the panel was not moved, or was dropped outside the columns.
    Nothing,
    /// Reorder inside the zone: `(zone, from_index, to_index)`.
    Reorder(Zone, usize, usize),
    /// Move the panel to the end of another zone.
    MoveTo(Zone),
}

/// The action of a panel release: nothing unless the panel moved and was
/// dropped on a zone; inside its own zone a reorder to the slot after the
/// hit index, into another zone a move.
pub fn panel_drop(from_zone: Zone, from_index: usize, moved: bool, hit: Option<(Zone, usize)>) -> (r:
    PanelDrop)
    requires
        hit matches Some((_, t)) ==> t < usize::MAX,
    ensures
        r == (if !moved {
            PanelDrop::Nothing
        } else {
            match hit {
                None => PanelDrop::Nothing,
                Some((z, t)) => if z == from_zone {
                    PanelDrop::Reorder(z, from_index, (t + 1) as usize)
                } else {
                    PanelDrop::MoveTo(z)
                },
            }
        }),
{
    if !moved {
        return PanelDrop::Nothing;
    }
    match hit {
        None => PanelDrop::Nothing,
        Some((z, t)) => if z == from_zone {
            PanelDrop::Reorder(z, from_index, t + 1)
        } else {
            PanelDrop::MoveTo(z)
        },
    }
}

/// The dock zone a drop point falls in, from where it lies: inside the left
/// column, inside the right column (the left one wins when both hold), and
/// in the upper half. The centre takes no panels.
pub fn zone_at(in_left: bool, in_right: bool, top: bool) -> (r: Option<(Zone, usize)>)
    ensures
        in_left ==> r == Some((if top { Zone::LeftTop } else { Zone::LeftBottom }, 0usize)),
        !in_left && in_right ==> r == Some(
            (if top { Zone::RightTop } else { Zone::RightBottom }, 0usize),
        ),
        !in_left && !in_right ==> r is None,
{
    if in_left {
        return Some((if top { Zone::LeftTop } else { Zone::LeftBottom }, 0));
    }
    if in_right {
        return Some((if top { Zone::RightTop } else { Zone::RightBottom }, 0));
    }
    None
}

} // verus!
