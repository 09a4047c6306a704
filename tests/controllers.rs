use docking::divider::{
    handle_divider_drag, handle_divider_drag_end, handle_divider_drag_start, DividerDragState,
    SplitDivider,
};
use docking::drag::{
    activate_drag_on_threshold, beyond_threshold, find_hover_target, handle_panel_drag_over,
    handle_panel_drag_start, handle_panel_drop, handle_tab_clicks, update_drop_zone_from_cursor,
    ContainerCursor, DockContainer, DockDragState, PanelHeader, PanelTab,
};
use docking::layout::{DockingLayout, Extent, Point};
use docking::persistence::encode_layout;
use docking::tree::{DockId, DockNode, SplitDirection};
use docking::zones::DropZone;

fn press(state: &mut DockDragState, at: Point, panel: &str, container: u64) {
    let header = PanelHeader { panel_id: panel.to_string(), container_id: DockId(container) };
    handle_panel_drag_start(state, true, Some(at), Some(&header), None);
}

fn over(container: u64, x: i64, y: i64) -> Vec<ContainerCursor> {
    vec![
        ContainerCursor { container: DockContainer { id: DockId(99) }, normalized: None },
        ContainerCursor { container: DockContainer { id: DockId(container) }, normalized: Some((x, y)) },
    ]
}

#[test]
fn threshold_is_strict() {
    let a = Point { x: 10, y: 10 };
    assert!(!beyond_threshold(a, Point { x: 15, y: 10 }));
    assert!(!beyond_threshold(a, Point { x: 13, y: 14 }));
    assert!(beyond_threshold(a, Point { x: 16, y: 10 }));
    assert!(beyond_threshold(a, Point { x: 14, y: 14 }));
    assert!(beyond_threshold(Point { x: i32::MIN, y: i32::MIN }, Point { x: i32::MAX, y: i32::MAX }));
}

#[test]
fn click_does_not_move_panel() {
    let mut layout = DockingLayout::default();
    let before = encode_layout(&layout);
    let mut state = DockDragState::default();
    press(&mut state, Point { x: 100, y: 100 }, "Inspector", 2);
    assert_eq!(state.potential_drag_panel.as_deref(), Some("Inspector"));
    activate_drag_on_threshold(&mut state, true, false, Some(Point { x: 103, y: 103 }));
    assert!(state.dragging.is_none());
    handle_panel_drag_over(&mut state, &over(0, 500_000, 500_000));
    assert!(state.drop_target.is_none());
    activate_drag_on_threshold(&mut state, false, true, Some(Point { x: 103, y: 103 }));
    handle_panel_drop(&mut state, &mut layout, true);
    assert_eq!(encode_layout(&layout), before);
    assert!(state.potential_drag_panel.is_none());
    assert!(state.drag_start_position.is_none());
}

#[test]
fn drag_beyond_threshold_moves_panel() {
    let mut layout = DockingLayout::default();
    let mut state = DockDragState::default();
    press(&mut state, Point { x: 100, y: 100 }, "Inspector", 2);
    activate_drag_on_threshold(&mut state, true, false, Some(Point { x: 110, y: 100 }));
    assert_eq!(state.dragging.as_deref(), Some("Inspector"));
    assert_eq!(state.source_container, Some(DockId(2)));
    assert_eq!(state.drag_position, Point { x: 110, y: 100 });
    handle_panel_drag_over(&mut state, &over(0, 500_000, 500_000));
    assert_eq!(state.drop_target, Some(DockId(0)));
    assert_eq!(state.drop_zone, Some(DropZone::Center));
    handle_panel_drop(&mut state, &mut layout, true);
    assert_eq!(layout.all_panel_ids(), vec!["Viewport", "Inspector", "Hierarchy"]);
    assert!(state.dragging.is_none() && state.drop_target.is_none() && state.drop_zone.is_none());
    assert!(state.source_container.is_none());
}

#[test]
fn drop_on_right_edge_splits_target() {
    let mut layout = DockingLayout::default();
    let mut state = DockDragState::default();
    press(&mut state, Point { x: 0, y: 0 }, "Hierarchy", 1);
    activate_drag_on_threshold(&mut state, true, false, Some(Point { x: 0, y: 30 }));
    handle_panel_drag_over(&mut state, &over(0, 900_000, 500_000));
    assert_eq!(state.drop_zone, Some(DropZone::Right));
    handle_panel_drop(&mut state, &mut layout, true);
    assert_eq!(layout.next_id, 8);
    match layout.root.as_ref().unwrap() {
        DockNode::Split { first, .. } => match first.as_ref() {
            DockNode::Split { direction, ratio, first, second, .. } => {
                assert_eq!(*direction, SplitDirection::Horizontal);
                assert_eq!(*ratio, 500_000);
                assert_eq!(first.all_panels(), vec!["Viewport"]);
                assert_eq!(second.all_panels(), vec!["Hierarchy"]);
            }
            DockNode::Panel { .. } => panic!("no split"),
        },
        DockNode::Panel { .. } => panic!("root changed kind"),
    }
}

#[test]
fn release_over_nothing_cancels() {
    let mut layout = DockingLayout::default();
    let before = encode_layout(&layout);
    let mut state = DockDragState::default();
    press(&mut state, Point { x: 0, y: 0 }, "Viewport", 0);
    activate_drag_on_threshold(&mut state, true, false, Some(Point { x: 50, y: 0 }));
    handle_panel_drag_over(&mut state, &over(2, 1_200_000, 500_000));
    assert!(state.drop_target.is_none() && state.drop_zone.is_none());
    handle_panel_drop(&mut state, &mut layout, true);
    assert_eq!(encode_layout(&layout), before);
    assert!(state.dragging.is_none());
}

#[test]
fn tab_is_used_when_no_header() {
    let mut state = DockDragState::default();
    let tab = PanelTab { panel_id: "Assets".to_string(), container_id: DockId(7) };
    handle_panel_drag_start(&mut state, true, Some(Point { x: 1, y: 2 }), None, Some(&tab));
    assert_eq!(state.potential_drag_panel.as_deref(), Some("Assets"));
    assert_eq!(state.potential_drag_container, Some(DockId(7)));
    assert_eq!(state.drag_start_position, Some(Point { x: 1, y: 2 }));
    // a press that is not a new press records nothing
    let mut idle = DockDragState::default();
    handle_panel_drag_start(&mut idle, false, Some(Point { x: 1, y: 2 }), None, Some(&tab));
    assert!(idle.potential_drag_panel.is_none());
}

#[test]
fn hover_picks_first_container_inside() {
    let cs = vec![
        ContainerCursor { container: DockContainer { id: DockId(1) }, normalized: Some((-1, 500_000)) },
        ContainerCursor { container: DockContainer { id: DockId(2) }, normalized: Some((500_000, 100_000)) },
        ContainerCursor { container: DockContainer { id: DockId(3) }, normalized: Some((500_000, 500_000)) },
    ];
    assert_eq!(find_hover_target(&cs), Some((DockId(2), DropZone::Top)));
    assert_eq!(find_hover_target(&Vec::new()), None);
}

#[test]
fn window_space_zone_update() {
    let mut state = DockDragState::default();
    press(&mut state, Point { x: 0, y: 0 }, "Viewport", 0);
    activate_drag_on_threshold(&mut state, true, false, Some(Point { x: 50, y: 0 }));
    handle_panel_drag_over(&mut state, &over(2, 500_000, 500_000));
    let containers = vec![DockContainer { id: DockId(2) }];
    update_drop_zone_from_cursor(&mut state, &containers, Some(Point { x: 790, y: 300 }), Extent { width: 800, height: 600 });
    assert_eq!(state.drop_zone, Some(DropZone::Right));
    update_drop_zone_from_cursor(&mut state, &containers, Some(Point { x: 400, y: 590 }), Extent { width: 800, height: 600 });
    assert_eq!(state.drop_zone, Some(DropZone::Bottom));
    update_drop_zone_from_cursor(&mut state, &containers, Some(Point { x: 0, y: 0 }), Extent { width: 0, height: 600 });
    assert_eq!(state.drop_zone, Some(DropZone::Bottom));
    update_drop_zone_from_cursor(&mut state, &Vec::new(), Some(Point { x: 0, y: 0 }), Extent { width: 800, height: 600 });
    assert_eq!(state.drop_zone, Some(DropZone::Bottom));
}

#[test]
fn divider_drag_resizes_and_clamps() {
    let mut layout = DockingLayout::default();
    let mut state = DividerDragState::default();
    let divider = SplitDivider { split_id: DockId(4), direction: SplitDirection::Horizontal };
    handle_divider_drag_start(&mut state, &layout, true, Some(&divider), Some(Point { x: 700, y: 10 }));
    assert_eq!(state.dragging, Some(DockId(4)));
    assert_eq!(state.original_ratio, 700_000);
    let dividers = vec![divider];
    let extent = Extent { width: 1000, height: 500 };
    handle_divider_drag(&state, &mut layout, true, Some(Point { x: 600, y: 400 }), &dividers, extent);
    assert_eq!(layout.find_split_ratio(DockId(4)), Some(600_000));
    handle_divider_drag(&state, &mut layout, true, Some(Point { x: 703, y: 0 }), &dividers, extent);
    assert_eq!(layout.find_split_ratio(DockId(4)), Some(703_000));
    handle_divider_drag(&state, &mut layout, true, Some(Point { x: 2000, y: 0 }), &dividers, extent);
    assert_eq!(layout.find_split_ratio(DockId(4)), Some(900_000));
    handle_divider_drag(&state, &mut layout, true, Some(Point { x: -2000, y: 0 }), &dividers, extent);
    assert_eq!(layout.find_split_ratio(DockId(4)), Some(100_000));
    // released: no change
    handle_divider_drag(&state, &mut layout, false, Some(Point { x: 700, y: 0 }), &dividers, extent);
    assert_eq!(layout.find_split_ratio(DockId(4)), Some(100_000));
    handle_divider_drag_end(&mut state, true);
    assert_eq!(state.dragging, None);
}

#[test]
fn vertical_divider_uses_height() {
    let mut layout = DockingLayout::default();
    let mut state = DividerDragState::default();
    let divider = SplitDivider { split_id: DockId(3), direction: SplitDirection::Vertical };
    handle_divider_drag_start(&mut state, &layout, true, Some(&divider), Some(Point { x: 0, y: 100 }));
    handle_divider_drag(&state, &mut layout, true, Some(Point { x: 500, y: 75 }), &vec![divider], Extent { width: 1000, height: 100 });
    assert_eq!(layout.find_split_ratio(DockId(3)), Some(250_000));
}

#[test]
fn divider_of_missing_split_starts_even() {
    let layout = DockingLayout::default();
    let mut state = DividerDragState::default();
    let divider = SplitDivider { split_id: DockId(42), direction: SplitDirection::Horizontal };
    handle_divider_drag_start(&mut state, &layout, true, Some(&divider), Some(Point { x: 0, y: 0 }));
    assert_eq!(state.original_ratio, 500_000);
}

#[test]
fn tab_clicks_switch_front_tab() {
    let mut layout = DockingLayout::default();
    layout.add_panel_to_container("Assets".to_string(), DockId(0));
    let clicks = vec![PanelTab { panel_id: "Viewport".to_string(), container_id: DockId(0) }];
    handle_tab_clicks(&clicks, &mut layout);
    match layout.find_container("Assets").unwrap() {
        DockNode::Panel { active, .. } => assert_eq!(*active, 0),
        DockNode::Split { .. } => panic!("not a container"),
    }
}
