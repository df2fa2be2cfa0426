use ferrite_web::dock::{
    default_layout, default_zone, item_origin, panel_drop, side_of_split, zone_collapsed,
    zone_at, zone_disabled_items, zone_item_ids, zone_label, zone_of_item, DockItem, DockLayout,
    PanelDrop, Side, SplitSide, Zone,
};

fn item(id: &str, zone: Zone, order: u32, enabled: bool) -> DockItem {
    DockItem { id: id.to_string(), zone, order, enabled, title: id.to_uppercase() }
}

#[test]
fn default_layout_places_each_panel() {
    let l = default_layout();
    assert_eq!(l.items.len(), 4);
    assert_eq!(zone_item_ids(&l, Zone::LeftTop), vec!["character".to_string()]);
    assert_eq!(zone_item_ids(&l, Zone::RightBottom), vec!["model".to_string()]);
    assert_eq!(zone_of_item(&l, "prompt"), Some(Zone::RightTop));
    assert_eq!(zone_of_item(&l, "nope"), None);
    assert_eq!(item_origin(&l, "sessions"), Some((Zone::LeftBottom, 0)));
    assert!(!zone_collapsed(&l, Zone::LeftTop));
    assert_eq!(l.items[1].title, "会话时间线");
}

#[test]
fn zone_ids_sort_stably_by_order_and_skip_disabled() {
    let l = DockLayout {
        items: vec![
            item("a", Zone::LeftTop, 2, true),
            item("b", Zone::LeftTop, 1, true),
            item("c", Zone::LeftTop, 2, true),
            item("d", Zone::LeftTop, 0, false),
            item("e", Zone::RightTop, 0, true),
            item("f", Zone::LeftTop, 1, true),
        ],
    };
    assert_eq!(zone_item_ids(&l, Zone::LeftTop), vec!["b", "f", "a", "c"]);
    assert!(zone_collapsed(&l, Zone::LeftTop));
    let off = zone_disabled_items(&l, Zone::LeftTop);
    assert_eq!(off.len(), 1);
    assert_eq!(off[0].id, "d");
    assert_eq!(item_origin(&l, "c"), Some((Zone::LeftTop, 3)));
    assert_eq!(item_origin(&l, "e"), Some((Zone::RightTop, 0)));
    assert_eq!(item_origin(&l, "d"), None);
}

#[test]
fn default_zone_and_labels() {
    assert_eq!(default_zone("character"), Zone::LeftTop);
    assert_eq!(default_zone("sessions"), Zone::LeftBottom);
    assert_eq!(default_zone("model"), Zone::RightBottom);
    assert_eq!(default_zone("other"), Zone::RightTop);
    assert_eq!(zone_label(Zone::LeftBottom), "left-bottom");
    assert_eq!(side_of_split(SplitSide::Right), Side::Right);
}

#[test]
fn panel_drop_reorders_or_moves() {
    assert_eq!(panel_drop(Zone::LeftTop, 0, false, Some((Zone::RightTop, 0))), PanelDrop::Nothing);
    assert_eq!(panel_drop(Zone::LeftTop, 0, true, None), PanelDrop::Nothing);
    assert_eq!(
        panel_drop(Zone::LeftTop, 2, true, Some((Zone::LeftTop, 0))),
        PanelDrop::Reorder(Zone::LeftTop, 2, 1)
    );
    assert_eq!(
        panel_drop(Zone::LeftTop, 2, true, Some((Zone::RightBottom, 0))),
        PanelDrop::MoveTo(Zone::RightBottom)
    );
}

#[test]
fn drop_points_map_to_zones() {
    assert_eq!(zone_at(true, false, true), Some((Zone::LeftTop, 0)));
    assert_eq!(zone_at(true, true, false), Some((Zone::LeftBottom, 0)));
    assert_eq!(zone_at(false, true, true), Some((Zone::RightTop, 0)));
    assert_eq!(zone_at(false, true, false), Some((Zone::RightBottom, 0)));
    assert_eq!(zone_at(false, false, true), None);
}
