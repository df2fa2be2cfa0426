use ferrite_web::manage::{
    all_of_kind, context_menu_items, drawer_mode, on_key, selection_counts, DrawerMode,
    KeyPress, NodeKind, Workspace,
};

fn workspace() -> Workspace {
    Workspace {
        visible: vec![NodeKind::Group, NodeKind::Mapping, NodeKind::Channel],
        active: NodeKind::Mapping,
        selected: vec![(NodeKind::Group, 1)],
        drawer_open: false,
        expanded_editor: false,
        context_menu_open: true,
    }
}

fn key(c: &str) -> KeyPress {
    KeyPress::Char(c.to_string())
}

#[test]
fn number_keys_pick_the_active_layer() {
    let mut w = workspace();
    on_key(&mut w, &key("3"));
    assert_eq!(w.active, NodeKind::Channel);
    on_key(&mut w, &key("1"));
    assert_eq!(w.active, NodeKind::Group);
    on_key(&mut w, &key("x"));
    assert_eq!(w.active, NodeKind::Group);
    assert_eq!(w.visible.len(), 3);
}

#[test]
fn layer_toggle_twice_restores_visibility() {
    let mut w = workspace();
    on_key(&mut w, &key("w"));
    assert!(!w.visible.contains(&NodeKind::Mapping));
    assert_eq!(w.visible.len(), 2);
    on_key(&mut w, &key("W"));
    assert!(w.visible.contains(&NodeKind::Mapping));
    assert_eq!(w.visible.len(), 3);
}

#[test]
fn select_all_escape_tab_and_expand() {
    let mut w = workspace();
    on_key(&mut w, &key("a"));
    assert_eq!(w.selected, all_of_kind(NodeKind::Mapping));
    assert_eq!(w.selected.len(), 4);
    on_key(&mut w, &KeyPress::Escape);
    assert!(w.selected.is_empty());
    assert!(!w.context_menu_open);
    on_key(&mut w, &KeyPress::Tab);
    assert!(w.drawer_open);
    on_key(&mut w, &KeyPress::Tab);
    assert!(!w.drawer_open);
    on_key(&mut w, &key("f"));
    assert!(w.expanded_editor);
    assert!(w.drawer_open);
    on_key(&mut w, &key("F"));
    assert!(!w.expanded_editor);
    assert!(w.drawer_open);
    on_key(&mut w, &KeyPress::Delete);
    assert!(w.drawer_open);
}

#[test]
fn channels_layer_has_six_nodes() {
    let all = all_of_kind(NodeKind::Channel);
    assert_eq!(all.len(), 6);
    assert_eq!(all[0], (NodeKind::Channel, 0));
    assert_eq!(all[5], (NodeKind::Channel, 5));
}

#[test]
fn drawer_mode_follows_the_selection() {
    assert_eq!(drawer_mode(&vec![]), DrawerMode::Overview);
    assert_eq!(drawer_mode(&vec![(NodeKind::Group, 2)]), DrawerMode::Single(NodeKind::Group, 2));
    assert_eq!(
        drawer_mode(&vec![(NodeKind::Mapping, 0), (NodeKind::Mapping, 3)]),
        DrawerMode::Batch(NodeKind::Mapping)
    );
    assert_eq!(
        drawer_mode(&vec![(NodeKind::Mapping, 0), (NodeKind::Channel, 3)]),
        DrawerMode::Mixed
    );
}

#[test]
fn selection_counts_per_layer() {
    let sel = vec![
        (NodeKind::Group, 0),
        (NodeKind::Channel, 1),
        (NodeKind::Channel, 4),
        (NodeKind::Group, 2),
        (NodeKind::Channel, 5),
    ];
    assert_eq!(selection_counts(&sel), (2, 0, 3));
}

#[test]
fn context_menu_lists() {
    let node = context_menu_items(true);
    assert_eq!(node.len(), 6);
    assert_eq!(node[1], ("管理关联", false));
    assert_eq!(node[5], ("删除节点", true));
    let canvas = context_menu_items(false);
    assert_eq!(canvas.len(), 5);
    assert_eq!(canvas[0], ("在此新增节点", false));
    assert!(canvas.iter().all(|(_, danger)| !danger));
}
