use docking::fixed::{HALF, MAX_RATIO, MIN_RATIO, ONE};
use docking::layout::{DockingLayout, Extent, FloatingWindow, Point};
use docking::tree::{DockId, DockNode, SplitDirection};
use docking::zones::{classify, DropZone};

fn single(name: &str, id: u64) -> DockNode {
    DockNode::Panel { panels: vec![name.to_string()], active: 0, id: DockId(id) }
}

fn one_container(name: &str) -> DockingLayout {
    DockingLayout { root: Some(single(name, 0)), floating: Vec::new(), next_id: 1 }
}

fn tabs(node: &DockNode) -> (Vec<String>, usize, u64) {
    match node {
        DockNode::Panel { panels, active, id } => (panels.clone(), *active, id.0),
        DockNode::Split { .. } => panic!("expected a container"),
    }
}

fn collect_ids(node: &DockNode, out: &mut Vec<u64>) {
    match node {
        DockNode::Panel { id, .. } => out.push(id.0),
        DockNode::Split { first, second, id, .. } => {
            out.push(id.0);
            collect_ids(first, out);
            collect_ids(second, out);
        }
    }
}

fn all_ids(layout: &DockingLayout) -> Vec<u64> {
    let mut out = Vec::new();
    if let Some(root) = &layout.root {
        collect_ids(root, &mut out);
    }
    for w in &layout.floating {
        out.push(w.id.0);
    }
    out
}

fn assert_distinct(ids: &[u64]) {
    for i in 0..ids.len() {
        for j in (i + 1)..ids.len() {
            assert_ne!(ids[i], ids[j], "handle {} appears twice", ids[i]);
        }
    }
}

fn check_active(node: &DockNode) {
    match node {
        DockNode::Panel { panels, active, .. } => {
            if !panels.is_empty() {
                assert!(*active < panels.len());
            }
        }
        DockNode::Split { first, second, .. } => {
            check_active(first);
            check_active(second);
        }
    }
}

#[test]
fn classify_boundaries() {
    assert_eq!(classify(290_000, 500_000), DropZone::Left);
    assert_eq!(classify(710_000, 500_000), DropZone::Right);
    assert_eq!(classify(500_000, 290_000), DropZone::Top);
    assert_eq!(classify(500_000, 710_000), DropZone::Bottom);
    assert_eq!(classify(500_000, 500_000), DropZone::Center);
    assert_eq!(classify(300_000, 300_000), DropZone::Center);
    assert_eq!(classify(700_000, 700_000), DropZone::Center);
    assert_eq!(classify(0, 0), DropZone::Left);
    assert_eq!(classify(ONE, ONE), DropZone::Right);
}

#[test]
fn default_layout_panels_in_preorder() {
    let layout = DockingLayout::default();
    assert_eq!(layout.all_panel_ids(), vec!["Viewport", "Hierarchy", "Inspector"]);
    assert_eq!(layout.next_id, 5);
    assert_eq!(layout.find_split_ratio(DockId(4)), Some(700_000));
    assert_eq!(layout.find_split_ratio(DockId(3)), Some(500_000));
    assert_eq!(layout.find_split_ratio(DockId(0)), None);
    let mut ids = all_ids(&layout);
    ids.sort();
    assert_eq!(ids, vec![0, 1, 2, 3, 4]);
}

#[test]
fn find_container_returns_holder() {
    let layout = DockingLayout::default();
    let c = layout.find_container("Hierarchy").expect("held");
    assert_eq!(tabs(c), (vec!["Hierarchy".to_string()], 0, 1));
    assert!(layout.find_container("Assets").is_none());
}

#[test]
fn add_panel_becomes_front_tab() {
    let mut layout = DockingLayout::default();
    layout.add_panel_to_container("Assets".to_string(), DockId(0));
    let c = layout.find_container("Assets").expect("added");
    assert_eq!(tabs(c), (vec!["Viewport".to_string(), "Assets".to_string()], 1, 0));
    // a split's handle or an unknown one changes nothing
    layout.add_panel_to_container("Console".to_string(), DockId(4));
    layout.add_panel_to_container("Console".to_string(), DockId(99));
    assert!(layout.find_container("Console").is_none());
}

#[test]
fn remove_panel_adjusts_active() {
    let mut layout = one_container("A");
    layout.add_panel_to_container("B".to_string(), DockId(0));
    layout.add_panel_to_container("C".to_string(), DockId(0));
    // active is 2 (C); removing C clamps it to the new last tab
    assert_eq!(layout.remove_panel("C"), Some("C".to_string()));
    assert_eq!(tabs(layout.root.as_ref().unwrap()), (vec!["A".to_string(), "B".to_string()], 1, 0));
    // removing an earlier tab keeps the index when it is still in range
    assert_eq!(layout.remove_panel("A"), Some("A".to_string()));
    assert_eq!(tabs(layout.root.as_ref().unwrap()), (vec!["B".to_string()], 0, 0));
    assert_eq!(layout.remove_panel("B"), Some("B".to_string()));
    assert_eq!(tabs(layout.root.as_ref().unwrap()), (Vec::<String>::new(), 0, 0));
    assert_eq!(layout.remove_panel("B"), None);
}

#[test]
fn split_then_remove_keeps_empty_container() {
    let mut layout = one_container("A");
    layout.split_container(DockId(0), SplitDirection::Horizontal, "B".to_string(), HALF);
    assert_eq!(layout.remove_panel("B"), Some("B".to_string()));
    match layout.root.as_ref().unwrap() {
        DockNode::Split { direction, ratio, first, second, .. } => {
            assert_eq!(*direction, SplitDirection::Horizontal);
            assert_eq!(*ratio, 500_000);
            assert_eq!(tabs(first).0, vec!["A".to_string()]);
            assert!(tabs(second).0.is_empty());
        }
        DockNode::Panel { .. } => panic!("split was undone"),
    }
}

#[test]
fn split_hands_out_fresh_handles() {
    let mut layout = one_container("A");
    layout.split_container(DockId(0), SplitDirection::Vertical, "B".to_string(), 2 * ONE);
    assert_eq!(layout.next_id, 4);
    match layout.root.as_ref().unwrap() {
        DockNode::Split { direction, ratio, first, second, id } => {
            assert_eq!(*direction, SplitDirection::Vertical);
            assert_eq!(*ratio, 900_000);
            // the kept container is re-keyed with a fresh handle
            assert_eq!(tabs(first), (vec!["A".to_string()], 0, 1));
            assert_eq!(tabs(second), (vec!["B".to_string()], 0, 2));
            assert_eq!(id.0, 3);
        }
        DockNode::Panel { .. } => panic!("no split"),
    }
    // the old handle, a split's handle or an unknown one is a no-op
    layout.split_container(DockId(0), SplitDirection::Vertical, "C".to_string(), HALF);
    layout.split_container(DockId(3), SplitDirection::Vertical, "C".to_string(), HALF);
    layout.split_container(DockId(9), SplitDirection::Vertical, "C".to_string(), HALF);
    assert_eq!(layout.next_id, 4);
    assert_eq!(layout.all_panel_ids(), vec!["A", "B"]);
}

#[test]
fn ratio_is_clamped() {
    let mut layout = DockingLayout::default();
    layout.update_split_ratio(DockId(4), 5 * ONE);
    assert_eq!(layout.find_split_ratio(DockId(4)), Some(MAX_RATIO as u32));
    layout.update_split_ratio(DockId(4), -5 * ONE);
    assert_eq!(layout.find_split_ratio(DockId(4)), Some(MIN_RATIO as u32));
    layout.update_split_ratio(DockId(3), 250_000);
    assert_eq!(layout.find_split_ratio(DockId(3)), Some(250_000));
    assert_eq!(layout.find_split_ratio(DockId(4)), Some(100_000));
}

#[test]
fn set_active_panel_brings_tab_forward() {
    let mut layout = one_container("A");
    layout.add_panel_to_container("B".to_string(), DockId(0));
    layout.set_active_panel(DockId(0), "A");
    assert_eq!(tabs(layout.root.as_ref().unwrap()).1, 0);
    layout.set_active_panel(DockId(0), "Z");
    assert_eq!(tabs(layout.root.as_ref().unwrap()).1, 0);
}

#[test]
fn undock_then_dock_center() {
    let mut layout = DockingLayout::default();
    let pos = Point { x: 40, y: 50 };
    let size = Extent { width: 300, height: 200 };
    layout.undock_panel("Inspector", pos, size);
    assert_eq!(layout.floating.len(), 1);
    let w: &FloatingWindow = &layout.floating[0];
    assert_eq!(w.panels, vec!["Inspector".to_string()]);
    assert_eq!((w.active, w.position, w.size, w.id), (0, pos, size, DockId(5)));
    assert_eq!(layout.all_panel_ids(), vec!["Viewport", "Hierarchy"]);
    // undocking a panel the tree does not hold changes nothing
    layout.undock_panel("Inspector", pos, size);
    assert_eq!(layout.floating.len(), 1);
    layout.dock_floating_window(DockId(5), DockId(0), DropZone::Center);
    assert!(layout.floating.is_empty());
    assert_eq!(layout.all_panel_ids(), vec!["Viewport", "Inspector", "Hierarchy"]);
    assert_eq!(tabs(layout.find_container("Inspector").unwrap()), (vec!["Viewport".to_string(), "Inspector".to_string()], 1, 0));
}

#[test]
fn dock_on_edge_places_new_panel_second() {
    let mut layout = one_container("A");
    layout.floating.push(FloatingWindow {
        panels: vec!["B".to_string()],
        active: 0,
        position: Point { x: 0, y: 0 },
        size: Extent { width: 10, height: 10 },
        id: DockId(1),
    });
    layout.next_id = 2;
    layout.dock_floating_window(DockId(1), DockId(0), DropZone::Left);
    match layout.root.as_ref().unwrap() {
        DockNode::Split { direction, first, second, .. } => {
            assert_eq!(*direction, SplitDirection::Horizontal);
            assert_eq!(tabs(first).0, vec!["A".to_string()]);
            assert_eq!(tabs(second).0, vec!["B".to_string()]);
        }
        DockNode::Panel { .. } => panic!("no split"),
    }
    // an unknown window changes nothing
    layout.dock_floating_window(DockId(77), DockId(0), DropZone::Top);
    assert_eq!(layout.all_panel_ids(), vec!["A", "B"]);
}

#[test]
fn dock_multi_tab_window_on_edge_scatters() {
    let mut layout = one_container("A");
    layout.floating.push(FloatingWindow {
        panels: vec!["B".to_string(), "C".to_string()],
        active: 1,
        position: Point { x: 0, y: 0 },
        size: Extent { width: 10, height: 10 },
        id: DockId(1),
    });
    layout.next_id = 2;
    layout.dock_floating_window(DockId(1), DockId(0), DropZone::Bottom);
    // each panel splits the target container on its own
    assert!(layout.floating.is_empty());
    assert_eq!(layout.all_panel_ids(), vec!["A", "C", "B"]);
    assert_eq!(layout.next_id, 8);
    match layout.root.as_ref().unwrap() {
        DockNode::Split { direction, first, second, id, .. } => {
            assert_eq!((*direction, id.0), (SplitDirection::Vertical, 4));
            assert_eq!(tabs(second), (vec!["B".to_string()], 0, 3));
            match first.as_ref() {
                DockNode::Split { first, second, id, .. } => {
                    assert_eq!(id.0, 7);
                    assert_eq!(tabs(first), (vec!["A".to_string()], 0, 5));
                    assert_eq!(tabs(second), (vec!["C".to_string()], 0, 6));
                }
                DockNode::Panel { .. } => panic!("no inner split"),
            }
        }
        DockNode::Panel { .. } => panic!("no split"),
    }
}

#[test]
fn dock_multi_tab_window_on_center_adds_all() {
    let mut layout = one_container("A");
    layout.floating.push(FloatingWindow {
        panels: vec!["B".to_string(), "C".to_string()],
        active: 1,
        position: Point { x: 0, y: 0 },
        size: Extent { width: 10, height: 10 },
        id: DockId(1),
    });
    layout.next_id = 2;
    layout.dock_floating_window(DockId(1), DockId(0), DropZone::Center);
    assert_eq!(tabs(layout.root.as_ref().unwrap()), (vec!["A".to_string(), "B".to_string(), "C".to_string()], 2, 0));
}

#[test]
fn active_index_stays_in_range() {
    let mut layout = DockingLayout::default();
    let names = ["P", "Q", "R", "S"];
    for (k, n) in names.iter().enumerate() {
        layout.add_panel_to_container(n.to_string(), DockId((k % 3) as u64));
        check_active(layout.root.as_ref().unwrap());
    }
    for n in ["Q", "Viewport", "P", "Hierarchy", "R", "S", "Inspector", "missing"] {
        layout.remove_panel(n);
        check_active(layout.root.as_ref().unwrap());
    }
}

#[test]
fn handles_stay_unique() {
    let mut layout = DockingLayout::default();
    layout.split_container(DockId(0), SplitDirection::Vertical, "Console".to_string(), HALF);
    assert_distinct(&all_ids(&layout));
    layout.undock_panel("Hierarchy", Point { x: 1, y: 2 }, Extent { width: 3, height: 4 });
    assert_distinct(&all_ids(&layout));
    let window = layout.floating[0].id;
    layout.dock_floating_window(window, DockId(2), DropZone::Right);
    assert_distinct(&all_ids(&layout));
    layout.undock_panel("Console", Point { x: 1, y: 2 }, Extent { width: 3, height: 4 });
    layout.undock_panel("Viewport", Point { x: 1, y: 2 }, Extent { width: 3, height: 4 });
    assert_distinct(&all_ids(&layout));
    assert_eq!(layout.floating.len(), 2);
}

#[test]
fn find_container_mut_edits_in_place() {
    let mut layout = one_container("A");
    layout.add_panel_to_container("B".to_string(), DockId(0));
    if let Some(DockNode::Panel { active, .. }) = layout.root.as_mut().unwrap().find_container_mut("A") {
        *active = 0;
    } else {
        panic!("not found");
    }
    assert_eq!(tabs(layout.root.as_ref().unwrap()).1, 0);
    assert!(layout.root.as_mut().unwrap().find_container_mut("Z").is_none());
}

#[test]
fn dock_on_stale_target_keeps_window() {
    let mut layout = one_container("A");
    layout.floating.push(FloatingWindow {
        panels: vec!["B".to_string(), "C".to_string()],
        active: 0,
        position: Point { x: 0, y: 0 },
        size: Extent { width: 10, height: 10 },
        id: DockId(1),
    });
    layout.next_id = 2;
    for zone in [DropZone::Center, DropZone::Left, DropZone::Top] {
        layout.dock_floating_window(DockId(1), DockId(9), zone);
        assert_eq!(layout.floating.len(), 1);
        assert_eq!(layout.floating[0].panels, vec!["B".to_string(), "C".to_string()]);
        assert_eq!(layout.all_panel_ids(), vec!["A"]);
        assert_eq!(layout.next_id, 2);
    }
    // a split handle takes no tabs either
    layout.split_container(DockId(0), SplitDirection::Horizontal, "D".to_string(), HALF);
    layout.dock_floating_window(DockId(1), DockId(4), DropZone::Center);
    assert_eq!(layout.floating.len(), 1);
    assert_eq!(layout.all_panel_ids(), vec!["A", "D"]);
}
