use ferrite_web::network::{
    back_to_crumb, color, focus_cone, node_title, nodes_within, normalize, select_only,
    selection_focus, stagger_hops, subtitle, click_canvas, click_node, drag_hint, no_focus,
    pick_dodge, port_of, DragKind, FocusChange, toggle_selected, visible_layers, visit_crumb, wires_within,
    EdgeSet, NodeKey,
};
use std::collections::HashSet;

fn set(v: &[NodeKey]) -> HashSet<NodeKey> {
    v.iter().copied().collect()
}

#[test]
fn node_labels_come_from_the_tables() {
    assert_eq!(node_title(NodeKey::Group(3)), "vip");
    assert_eq!(node_title(NodeKey::Mapping(2)), "sonnet-4");
    assert_eq!(node_title(NodeKey::Dispatch(8)), "gemini-2.5-pro");
    assert_eq!(subtitle(NodeKey::Dispatch(6)), "Sonnet 官网");
    assert_eq!(subtitle(NodeKey::Group(0)), "");
    assert_eq!(color(NodeKey::Group(0)), "#e5484d");
    assert_eq!(color(NodeKey::Mapping(1)), "#a78bfa");
    assert_eq!(color(NodeKey::Dispatch(4)), "#3f3f46");
    assert_eq!(NodeKey::Dispatch(0).layer(), 2);
}

#[test]
fn visible_layers_list_every_node() {
    let [g, m, d] = visible_layers();
    assert_eq!(g.len(), 4);
    assert_eq!(m.len(), 4);
    assert_eq!(d.len(), 9);
    assert_eq!(d[8], NodeKey::Dispatch(8));
}

#[test]
fn normalize_orders_adjacent_layers_only() {
    let g = NodeKey::Group(1);
    let m = NodeKey::Mapping(2);
    let d = NodeKey::Dispatch(0);
    assert_eq!(normalize(g, m), Some((g, m)));
    assert_eq!(normalize(m, g), Some((g, m)));
    assert_eq!(normalize(d, m), Some((m, d)));
    assert_eq!(normalize(g, d), None);
    assert_eq!(normalize(g, g), None);
    assert_eq!(normalize(g, NodeKey::Group(2)), None);
}

#[test]
fn edge_set_insert_remove_and_seed() {
    let mut e = EdgeSet::new();
    let w = (NodeKey::Group(0), NodeKey::Mapping(1));
    assert!(!e.contains(w));
    e.insert(w);
    e.insert(w);
    assert!(e.contains(w));
    assert_eq!(e.to_vec().len(), 1);
    e.remove(w);
    assert!(!e.contains(w));
    let s = EdgeSet::seeded();
    assert_eq!(s.to_vec().len(), 17);
    assert!(s.contains((NodeKey::Mapping(3), NodeKey::Dispatch(8))));
}

#[test]
fn focus_on_alias_keeps_its_groups_and_models_only() {
    let edges = EdgeSet::seeded().to_vec();
    let cone = focus_cone(NodeKey::Mapping(2), &edges);
    assert_eq!(cone[0], NodeKey::Mapping(2));
    assert_eq!(
        set(&cone),
        set(&[
            NodeKey::Mapping(2),
            NodeKey::Group(1),
            NodeKey::Group(3),
            NodeKey::Dispatch(5),
            NodeKey::Dispatch(6),
            NodeKey::Dispatch(7),
        ])
    );
}

#[test]
fn focus_on_group_reaches_two_layers_down() {
    let edges = EdgeSet::seeded().to_vec();
    let cone = focus_cone(NodeKey::Group(2), &edges);
    assert_eq!(
        set(&cone),
        set(&[
            NodeKey::Group(2),
            NodeKey::Mapping(1),
            NodeKey::Dispatch(1),
            NodeKey::Dispatch(4),
        ])
    );
    let cone = focus_cone(NodeKey::Dispatch(0), &edges);
    assert_eq!(
        set(&cone),
        set(&[NodeKey::Dispatch(0), NodeKey::Mapping(0), NodeKey::Group(0), NodeKey::Group(3)])
    );
}

#[test]
fn wire_drop_wires_the_selection() {
    let mut e = EdgeSet::new();
    let sel = vec![NodeKey::Group(0), NodeKey::Group(1), NodeKey::Mapping(0)];
    e.wire_drop(&sel, NodeKey::Group(0), NodeKey::Mapping(3));
    let got: HashSet<_> = e.to_vec().into_iter().collect();
    let want: HashSet<_> = [
        (NodeKey::Group(0), NodeKey::Mapping(3)),
        (NodeKey::Group(1), NodeKey::Mapping(3)),
    ]
    .into_iter()
    .collect();
    assert_eq!(got, want);
    let mut single = EdgeSet::new();
    single.wire_drop(&vec![NodeKey::Group(2)], NodeKey::Group(0), NodeKey::Mapping(1));
    assert_eq!(single.to_vec(), vec![(NodeKey::Group(0), NodeKey::Mapping(1))]);
    single.wire_drop(&vec![], NodeKey::Group(0), NodeKey::Dispatch(1));
    assert_eq!(single.to_vec().len(), 1);
    single.wire_drop(&vec![], NodeKey::Group(0), NodeKey::Group(0));
    assert_eq!(single.to_vec().len(), 1);
}

#[test]
fn selection_toggle_and_focus_union() {
    let mut sel = vec![];
    toggle_selected(&mut sel, NodeKey::Group(2));
    toggle_selected(&mut sel, NodeKey::Mapping(3));
    assert_eq!(set(&sel), set(&[NodeKey::Group(2), NodeKey::Mapping(3)]));
    toggle_selected(&mut sel, NodeKey::Group(2));
    assert_eq!(sel, vec![NodeKey::Mapping(3)]);
    let edges = EdgeSet::seeded().to_vec();
    let lit = selection_focus(&sel, &edges).unwrap();
    assert_eq!(
        set(&lit),
        set(&[NodeKey::Mapping(3), NodeKey::Group(0), NodeKey::Group(3), NodeKey::Dispatch(8)])
    );
    assert!(selection_focus(&vec![], &edges).is_none());
    select_only(&mut sel, NodeKey::Group(1));
    assert_eq!(sel, vec![NodeKey::Group(1)]);
}

#[test]
fn crumbs_and_cone_filters() {
    let mut trail = vec![NodeKey::Group(0)];
    visit_crumb(&mut trail, NodeKey::Mapping(0));
    visit_crumb(&mut trail, NodeKey::Mapping(0));
    visit_crumb(&mut trail, NodeKey::Dispatch(2));
    assert_eq!(trail.len(), 3);
    assert_eq!(back_to_crumb(&trail, 0), vec![NodeKey::Group(0)]);
    let edges = EdgeSet::seeded().to_vec();
    let cone = focus_cone(NodeKey::Mapping(3), &edges);
    let inside = wires_within(&edges, &cone);
    assert_eq!(inside.len(), 3);
    let [groups, _, _] = visible_layers();
    assert_eq!(nodes_within(&groups, &cone), vec![NodeKey::Group(0), NodeKey::Group(3)]);
}

#[test]
fn stagger_hops_count_wires_from_the_start() {
    let edges = EdgeSet::seeded().to_vec();
    let hops = stagger_hops(NodeKey::Group(2), &edges);
    assert_eq!(hops[0], (NodeKey::Group(2), 0));
    assert_eq!(hops.len(), 17);
    let of = |k: NodeKey| hops.iter().find(|e| e.0 == k).map(|e| e.1);
    assert_eq!(of(NodeKey::Mapping(1)), Some(1));
    assert_eq!(of(NodeKey::Dispatch(1)), Some(2));
    assert_eq!(of(NodeKey::Dispatch(4)), Some(2));
    assert_eq!(of(NodeKey::Group(3)), Some(2));
    assert_eq!(of(NodeKey::Mapping(0)), Some(3));
    assert_eq!(of(NodeKey::Mapping(3)), Some(3));
    assert_eq!(of(NodeKey::Group(0)), Some(4));
    assert_eq!(of(NodeKey::Group(1)), Some(4));
    assert_eq!(of(NodeKey::Dispatch(8)), Some(4));
    let keys: HashSet<NodeKey> = hops.iter().map(|e| e.0).collect();
    assert_eq!(keys.len(), hops.len());
    let lone = stagger_hops(NodeKey::Dispatch(9), &edges);
    assert_eq!(lone, vec![(NodeKey::Dispatch(9), 0)]);
}

#[test]
fn ports_hints_and_legal_targets() {
    assert_eq!(port_of(NodeKey::Group(0)), "bottom");
    assert_eq!(port_of(NodeKey::Mapping(0)), "both");
    assert_eq!(port_of(NodeKey::Dispatch(0)), "top");
    assert_eq!(drag_hint(false, DragKind::Wire), "拖到相邻层节点松开连线");
    assert_eq!(drag_hint(false, DragKind::Node), "松开落位");
    assert!(drag_hint(false, DragKind::Idle).starts_with("滚轮缩放"));
    assert!(drag_hint(true, DragKind::Wire).starts_with("焦点空间"));
    let e = EdgeSet::seeded();
    assert!(!e.legal_target(NodeKey::Group(0), NodeKey::Mapping(0)));
    assert!(e.legal_target(NodeKey::Group(0), NodeKey::Mapping(1)));
    assert!(e.legal_target(NodeKey::Mapping(1), NodeKey::Group(0)));
    assert!(!e.legal_target(NodeKey::Group(0), NodeKey::Dispatch(1)));
    assert!(!e.legal_target(NodeKey::Group(0), NodeKey::Group(0)));
}

#[test]
fn clicks_enter_switch_and_leave_the_focus_space() {
    let edges = EdgeSet::seeded().to_vec();
    let mut s = no_focus();
    assert_eq!(click_node(&mut s, &edges, NodeKey::Mapping(2), false), FocusChange::Entered);
    assert_eq!(s.inspect, Some(NodeKey::Mapping(2)));
    assert_eq!(s.crumbs, vec![NodeKey::Mapping(2)]);
    assert_eq!(set(s.cone.as_ref().unwrap()), set(&focus_cone(NodeKey::Mapping(2), &edges)));
    assert_eq!(click_node(&mut s, &edges, NodeKey::Group(1), false), FocusChange::Kept);
    assert_eq!(s.inspect, Some(NodeKey::Group(1)));
    assert_eq!(s.crumbs, vec![NodeKey::Mapping(2), NodeKey::Group(1)]);
    assert_eq!(s.selected, vec![NodeKey::Group(1)]);
    assert_eq!(click_node(&mut s, &edges, NodeKey::Dispatch(5), true), FocusChange::Kept);
    assert_eq!(set(&s.selected), set(&[NodeKey::Group(1), NodeKey::Dispatch(5)]));
    assert_eq!(click_node(&mut s, &edges, NodeKey::Group(1), false), FocusChange::Left);
    assert!(s.inspect.is_none());
    assert!(s.cone.is_none());
    assert_eq!(s.crumbs.len(), 2);
    assert_eq!(click_node(&mut s, &edges, NodeKey::Group(3), false), FocusChange::Entered);
    assert_eq!(click_canvas(&mut s), FocusChange::Left);
    assert!(s.selected.is_empty() && s.inspect.is_none() && s.cone.is_none() && s.crumbs.is_empty());
    assert_eq!(click_canvas(&mut s), FocusChange::Kept);
}

#[test]
fn dodge_picks_first_fewest_hits() {
    assert_eq!(pick_dodge(&vec![0, 0, 3, 1, 2]), 0);
    assert_eq!(pick_dodge(&vec![4, 2, 0, 1, 0]), 2);
    assert_eq!(pick_dodge(&vec![4, 2, 3, 2, 5]), 1);
    assert_eq!(pick_dodge(&vec![7]), 0);
}
