//! The management workspace around the topology canvas: its keyboard
//! shortcuts (1/2/3 pick the active layer, Q/W/E toggle layer visibility, A
//! selects the whole active layer, Esc clears, Tab opens or closes the
//! drawer, F toggles the expanded editor), and what the drawer shows for a
//! selection.

use vstd::prelude::*;
use crate::text::str_eq;

verus! {

/// A layer of the workspace.
#[derive(Clone, Copy, PartialEq, Eq, Debug, Structural)]
pub enum NodeKind {
    Group,
    Mapping,
    Channel,
}

/// A node of the workspace: its layer and its index there.
pub type WorkNode = (NodeKind, usize);

/// How many sample nodes each layer has.
pub open spec fn kind_size(k: NodeKind) -> int {
    match k {
        NodeKind::Group => 4,
        NodeKind::Mapping => 4,
        NodeKind::Channel => 6,
    }
}

/// The workspace state the shortcuts act on.
#[derive(Debug)]
pub struct Workspace {
    /// The visible layers, each once.
    pub visible: Vec<NodeKind>,
    /// The layer new nodes go to.
    pub active: NodeKind,
    /// The selected nodes, each once.
    pub selected: Vec<WorkNode>,
    pub drawer_open: bool,
    pub expanded_editor: bool,
    pub context_menu_open: bool,
}

/// A key press.
#[derive(Debug, Clone, PartialEq)]
pub enum KeyPress {
    /// A character key, as typed.
    Char(String),
    Escape,
    Tab,
    Delete,
    /// Any other key.
    Other,
}

/// The sequence has no element twice.
pub open spec fn distinct<T>(s: Seq<T>) -> bool {
    forall|i: int, j: int| 0 <= i < j < s.len() ==> s[i] != s[j]
}

/// `s` with `k` toggled.
pub open spec fn toggled_kinds(s: Set<NodeKind>, k: NodeKind) -> Set<NodeKind> {
    if s.contains(k) {
        s.remove(k)
    } else {
        s.insert(k)
    }
}

/// Every node of the layer.
pub open spec fn all_nodes_of(k: NodeKind) -> Set<WorkNode> {
    Set::new(|n: WorkNode| n.0 == k && n.1 < kind_size(k))
}

fn toggle_kind(visible: &mut Vec<NodeKind>, kind: NodeKind)
    requires
        distinct(old(visible)@),
    ensures
        distinct(final(visible)@),
        final(visible)@.to_set() == toggled_kinds(old(visible)@.to_set(), kind),
{
    let ghost before = visible@;
    let mut i: usize = 0;
    while i < visible.len()
        invariant
            visible@ == before,
            before == old(visible)@,
            distinct(before),
            i <= before.len(),
            forall|j: int| 0 <= j < i ==> before[j] != kind,
        decreases visible.len() - i,
    {
        if visible[i] == kind {
            visible.remove(i);
            proof {
                assert(before.contains(kind));
                assert forall|x| #[trigger] visible@.contains(x) <==> (before.contains(x) && x != kind) by {
                    if visible@.contains(x) {
                        let j = choose|j: int| 0 <= j < visible@.len() && visible@[j] == x;
                        if j < i {
                            assert(before[j] == x);
                        } else {
                            assert(before[j + 1] == x);
                            assert(before[j + 1] != before[i as int]);
                        }
                    }
                    if before.contains(x) && x != kind {
                        let j = choose|j: int| 0 <= j < before.len() && before[j] == x;
                        if j < i {
                            assert(visible@[j] == x);
                        } else {
                            assert(j != i);
                            assert(visible@[j - 1] == x);
                        }
                    }
                }
                assert(visible@.to_set() =~= before.to_set().remove(kind));
                assert(before.to_set().contains(kind));
                assert forall|a: int, b: int| 0 <= a < b < visible@.len() implies visible@[a]
                    != visible@[b] by {
                    let a2 = if a < i {
                        a
                    } else {
                        a + 1
                    };
                    let b2 = if b < i {
                        b
                    } else {
                        b + 1
                    };
                    assert(visible@[a] == before[a2]);
                    assert(visible@[b] == before[b2]);
                }
            }
            return;
        }
        i = i + 1;
    }
    visible.push(kind);
    proof {
        assert(!before.contains(kind));
        before.lemma_push_to_set_commute(kind);
    }
}

/// The nodes of a layer, in index order.
pub fn all_of_kind(kind: NodeKind) -> (r: Vec<WorkNode>)
    ensures
        distinct(r@),
        r@.to_set() == all_nodes_of(kind),
{
    let n: usize = match kind {
        NodeKind::Group => 4,
        NodeKind::Mapping => 4,
        NodeKind::Channel => 6,
    };
    let mut r: Vec<WorkNode> = Vec::new();
    let mut i: usize = 0;
    while i < n
        invariant
            i <= n,
            n == kind_size(kind),
            r@ == Seq::new(i as nat, |j: int| (kind, j as usize)),
        decreases n - i,
    {
        r.push((kind, i));
        i = i + 1;
        assert(r@ =~= Seq::new(i as nat, |j: int| (kind, j as usize)));
    }
    assert(r@.to_set() =~= all_nodes_of(kind)) by {
        assert forall|x: WorkNode| r@.to_set().contains(x) <==> all_nodes_of(kind).contains(x) by {
            if all_nodes_of(kind).contains(x) {
                assert(r@[x.1 as int] == x);
            }
        }
    }
    r
}

/// The workspace as plain values: visible layers, active layer, selection,
/// drawer, expanded editor, context menu.
pub open spec fn ws_view(w: Workspace) -> (Set<NodeKind>, NodeKind, Set<WorkNode>, bool, bool, bool) {
    (w.visible@.to_set(), w.active, w.selected@.to_set(), w.drawer_open, w.expanded_editor, w.context_menu_open)
}

/// The workspace is well formed: no layer and no node listed twice.
pub open spec fn ws_wf(w: Workspace) -> bool {
    distinct(w.visible@) && distinct(w.selected@)
}

/// What a key press does to the workspace.
pub open spec fn after_key(
    v: (Set<NodeKind>, NodeKind, Set<WorkNode>, bool, bool, bool),
    key: KeyPress,
) -> (Set<NodeKind>, NodeKind, Set<WorkNode>, bool, bool, bool) {
    match key {
        KeyPress::Char(c) => if c@ == "1"@ {
            (v.0, NodeKind::Group, v.2, v.3, v.4, v.5)
        } else if c@ == "2"@ {
            (v.0, NodeKind::Mapping, v.2, v.3, v.4, v.5)
        } else if c@ == "3"@ {
            (v.0, NodeKind::Channel, v.2, v.3, v.4, v.5)
        } else if c@ == "q"@ || c@ == "Q"@ {
            (toggled_kinds(v.0, NodeKind::Group), v.1, v.2, v.3, v.4, v.5)
        } else if c@ == "w"@ || c@ == "W"@ {
            (toggled_kinds(v.0, NodeKind::Mapping), v.1, v.2, v.3, v.4, v.5)
        } else if c@ == "e"@ || c@ == "E"@ {
            (toggled_kinds(v.0, NodeKind::Channel), v.1, v.2, v.3, v.4, v.5)
        } else if c@ == "a"@ || c@ == "A"@ {
            (v.0, v.1, all_nodes_of(v.1), v.3, v.4, v.5)
        } else if c@ == "f"@ || c@ == "F"@ {
            (v.0, v.1, v.2, v.3 || !v.4, !v.4, v.5)
        } else {
            v
        },
        KeyPress::Escape => (v.0, v.1, Set::empty(), v.3, v.4, false),
        KeyPress::Tab => (v.0, v.1, v.2, !v.3, v.4, v.5),
        _ => v,
    }
}

/// Handles a key press.
pub fn on_key(w: &mut Workspace, key: &KeyPress)
    requires
        ws_wf(*old(w)),
    ensures
        ws_wf(*final(w)),
        ws_view(*final(w)) == after_key(ws_view(*old(w)), *key),
{
    match key {
        KeyPress::Char(c) => {
            let s = c.as_str();
            if str_eq(s, "1") {
                w.active = NodeKind::Group;
            } else if str_eq(s, "2") {
                w.active = NodeKind::Mapping;
            } else if str_eq(s, "3") {
                w.active = NodeKind::Channel;
            } else if str_eq(s, "q") || str_eq(s, "Q") {
                toggle_kind(&mut w.visible, NodeKind::Group);
            } else if str_eq(s, "w") || str_eq(s, "W") {
                toggle_kind(&mut w.visible, NodeKind::Mapping);
            } else if str_eq(s, "e") || str_eq(s, "E") {
                toggle_kind(&mut w.visible, NodeKind::Channel);
            } else if str_eq(s, "a") || str_eq(s, "A") {
                w.selected = all_of_kind(w.active);
            } else if str_eq(s, "f") || str_eq(s, "F") {
                let next = !w.expanded_editor;
                w.expanded_editor = next;
                if next {
                    w.drawer_open = true;
                }
            }
        },
        KeyPress::Escape => {
            w.selected = Vec::new();
            w.context_menu_open = false;
            assert(w.selected@.to_set() =~= Set::<WorkNode>::empty());
        },
        KeyPress::Tab => {
            w.drawer_open = !w.drawer_open;
        },
        KeyPress::Delete => {},
        KeyPress::Other => {},
    }
}

/// The key is one of the layer visibility shortcuts Q, W, E (either case).
pub open spec fn is_layer_toggle(key: KeyPress) -> bool {
    match key {
        KeyPress::Char(c) => c@ == "q"@ || c@ == "Q"@ || c@ == "w"@ || c@ == "W"@ || c@ == "e"@
            || c@ == "E"@,
        _ => false,
    }
}

/// Pressing a layer visibility shortcut twice leaves the whole workspace as
/// it was.
pub proof fn law_visibility_toggle_twice(
    v: (Set<NodeKind>, NodeKind, Set<WorkNode>, bool, bool, bool),
    key: KeyPress,
)
    requires
        is_layer_toggle(key),
    ensures
        after_key(after_key(v, key), key) == v,
{
    reveal_strlit("1");
    reveal_strlit("2");
    reveal_strlit("3");
    reveal_strlit("q");
    reveal_strlit("Q");
    reveal_strlit("w");
    reveal_strlit("W");
    reveal_strlit("e");
    reveal_strlit("E");
    let c = key->Char_0;
    assert(c@[0] != '1' && c@[0] != '2' && c@[0] != '3');
    assert(c@ != "1"@ && c@ != "2"@ && c@ != "3"@) by {
        assert("1"@[0] == '1' && "2"@[0] == '2' && "3"@[0] == '3');
    }
    let k = if c@ == "q"@ || c@ == "Q"@ {
        NodeKind::Group
    } else if c@ == "w"@ || c@ == "W"@ {
        NodeKind::Mapping
    } else {
        NodeKind::Channel
    };
    let once = after_key(v, key);
    assert(once == (toggled_kinds(v.0, k), v.1, v.2, v.3, v.4, v.5));
    assert(after_key(once, key) == (toggled_kinds(once.0, k), v.1, v.2, v.3, v.4, v.5));
    assert(toggled_kinds(toggled_kinds(v.0, k), k) =~= v.0);
}

/// What the drawer shows for a selection.
#[derive(Clone, Copy, PartialEq, Eq, Debug, Structural)]
pub enum DrawerMode {
    /// Nothing selected: the layer overview.
    Overview,
    /// One node: its full form.
    Single(NodeKind, usize),
    /// Several nodes of one layer: the batch form of that layer.
    Batch(NodeKind),
    /// Nodes of several layers: the common form.
    Mixed,
}

/// The drawer's mode for the selection.
pub open spec fn drawer_mode_of(sel: Seq<WorkNode>) -> DrawerMode {
    if sel.len() == 0 {
        DrawerMode::Overview
    } else if sel.len() == 1 {
        DrawerMode::Single(sel[0].0, sel[0].1)
    } else if forall|i: int| 0 <= i < sel.len() ==> #[trigger] sel[i].0 == sel[0].0 {
        DrawerMode::Batch(sel[0].0)
    } else {
        DrawerMode::Mixed
    }
}

/// What the drawer shows.
pub fn drawer_mode(selected: &Vec<WorkNode>) -> (m: DrawerMode)
    ensures
        m == drawer_mode_of(selected@),
{
    let n = selected.len();
    if n == 0 {
        return DrawerMode::Overview;
    }
    if n == 1 {
        return DrawerMode::Single(selected[0].0, selected[0].1);
    }
    let k = selected[0].0;
    let mut i: usize = 1;
    while i < n
        invariant
            1 <= i <= n,
            n == selected@.len(),
            k == selected@[0].0,
            forall|j: int| 0 <= j < i ==> #[trigger] selected@[j].0 == k,
        decreases n - i,
    {
        if selected[i].0 != k {
            return DrawerMode::Mixed;
        }
        i = i + 1;
    }
    DrawerMode::Batch(k)
}

/// How many selected nodes each layer has: groups, aliases, channels.
pub open spec fn kind_counts(sel: Seq<WorkNode>) -> (int, int, int)
    decreases sel.len(),
{
    if sel.len() == 0 {
        (0, 0, 0)
    } else {
        let c = kind_counts(sel.drop_last());
        match sel.last().0 {
            NodeKind::Group => (c.0 + 1, c.1, c.2),
            NodeKind::Mapping => (c.0, c.1 + 1, c.2),
            NodeKind::Channel => (c.0, c.1, c.2 + 1),
        }
    }
}

proof fn lemma_kind_counts_bound(sel: Seq<WorkNode>)
    ensures
        kind_counts(sel).0 + kind_counts(sel).1 + kind_counts(sel).2 == sel.len(),
        kind_counts(sel).0 >= 0 && kind_counts(sel).1 >= 0 && kind_counts(sel).2 >= 0,
    decreases sel.len(),
{
    if sel.len() > 0 {
        lemma_kind_counts_bound(sel.drop_last());
    }
}

/// The selection bar's counts per layer.
pub fn selection_counts(selected: &Vec<WorkNode>) -> (r: (usize, usize, usize))
    ensures
        r.0 == kind_counts(selected@).0,
        r.1 == kind_counts(selected@).1,
        r.2 == kind_counts(selected@).2,
{
    let mut c: (usize, usize, usize) = (0, 0, 0);
    let mut i: usize = 0;
    while i < selected.len()
        invariant
            i <= selected@.len(),
            c.0 == kind_counts(selected@.take(i as int)).0,
            c.1 == kind_counts(selected@.take(i as int)).1,
            c.2 == kind_counts(selected@.take(i as int)).2,
        decreases selected.len() - i,
    {
        proof {
            let t = selected@.take(i + 1);
            assert(t.drop_last() =~= selected@.take(i as int));
            assert(t.last() == selected@[i as int]);
            lemma_kind_counts_bound(selected@.take(i as int));
        }
        match selected[i].0 {
            NodeKind::Group => c.0 = c.0 + 1,
            NodeKind::Mapping => c.1 = c.1 + 1,
            NodeKind::Channel => c.2 = c.2 + 1,
        }
        i = i + 1;
    }
    assert(selected@.take(selected@.len() as int) =~= selected@);
    c
}

/// The context menu's items (label, dangerous), on a node or on the canvas.
pub open spec fn menu_items_of(on_node: bool) -> Seq<(Seq<char>, bool)> {
    if on_node {
        seq![
            ("编辑详情"@, false),
            ("管理关联"@, false),
            ("聚焦邻居"@, false),
            ("复制"@, false),
            ("从选择移除"@, false),
            ("删除节点"@, true),
        ]
    } else {
        seq![
            ("在此新增节点"@, false),
            ("全选活动层"@, false),
            ("整理视图"@, false),
            ("适配视图"@, false),
            ("清空选择"@, false),
        ]
    }
}

/// The context menu's items (label, dangerous) for a node or for the canvas.
pub fn context_menu_items(on_node: bool) -> (r: Vec<(&'static str, bool)>)
    ensures
        r@.len() == menu_items_of(on_node).len(),
        forall|i: int|
            0 <= i < r@.len() ==> (#[trigger] r@[i].0@, r@[i].1) == menu_items_of(on_node)[i],
{
    let mut r: Vec<(&'static str, bool)> = Vec::new();
    if on_node {
        r.push(("编辑详情", false));
        r.push(("管理关联", false));
        r.push(("聚焦邻居", false));
        r.push(("复制", false));
        r.push(("从选择移除", false));
        r.push(("删除节点", true));
    } else {
        r.push(("在此新增节点", false));
        r.push(("全选活动层", false));
        r.push(("整理视图", false));
        r.push(("适配视图", false));
        r.push(("清空选择", false));
    }
    r
}

/// The layer picked by the `i`-th digit key, in the order of the layer bar
/// (groups, aliases, channels).
pub open spec fn layer_at(i: int) -> NodeKind {
    if i == 0 {
        NodeKind::Group
    } else if i == 1 {
        NodeKind::Mapping
    } else {
        NodeKind::Channel
    }
}

/// The digit keys `1`, `2`, `3` make the first, second and third layer
/// active and change nothing else.
pub proof fn law_digit_picks_layer(
    v: (Set<NodeKind>, NodeKind, Set<WorkNode>, bool, bool, bool),
    c: String,
    i: int,
)
    requires
        0 <= i < 3,
        c@ == seq![('1' as u32 + i) as char],
    ensures
        after_key(v, KeyPress::Char(c)) == (v.0, layer_at(i), v.2, v.3, v.4, v.5),
{
    reveal_strlit("1");
    reveal_strlit("2");
    reveal_strlit("3");
    assert("1"@ =~= seq!['1']);
    assert("2"@ =~= seq!['2']);
    assert("3"@ =~= seq!['3']);
    if i == 0 {
        assert(c@ =~= "1"@);
    } else if i == 1 {
        assert(c@ =~= "2"@);
        assert(c@ != "1"@) by { assert(c@[0] != "1"@[0]); }
    } else {
        assert(c@ =~= "3"@);
        assert(c@ != "1"@) by { assert(c@[0] != "1"@[0]); }
        assert(c@ != "2"@) by { assert(c@[0] != "2"@[0]); }
    }
}

} // verus!
