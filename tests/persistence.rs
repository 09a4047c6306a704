use docking::layout::{DockingLayout, Extent, Point};
use docking::persistence::{
    decode_layout, encode_layout, layout_from_json, layout_to_json, load_or_default, LayoutError,
};
use docking::tree::{DockId, DockNode, SplitDirection};
use docking::zones::DropZone;

fn edited_layout() -> DockingLayout {
    let mut layout = DockingLayout::default();
    layout.split_container(DockId(2), SplitDirection::Vertical, "Console".to_string(), 350_000);
    layout.add_panel_to_container("Assets".to_string(), DockId(0));
    layout.undock_panel("Hierarchy", Point { x: -20, y: 30 }, Extent { width: 640, height: 480 });
    layout.update_split_ratio(DockId(4), 650_000);
    layout
}

#[test]
fn json_round_trip_keeps_layout() {
    let layout = edited_layout();
    let text = layout_to_json(&layout).expect("serialises");
    assert!(text.contains("Viewport"));
    let back = layout_from_json(&text).expect("restores");
    assert_eq!(encode_layout(&back), encode_layout(&layout));
    assert_eq!(back.next_id, 9);
}

#[test]
fn record_round_trip_keeps_layout() {
    let layout = edited_layout();
    let back = decode_layout(&encode_layout(&layout)).expect("restores");
    assert_eq!(encode_layout(&back), encode_layout(&layout));
    assert_eq!(back.all_panel_ids(), layout.all_panel_ids());
    assert_eq!(back.floating.len(), 1);
    assert_eq!(back.floating[0].panels, vec!["Hierarchy".to_string()]);
}

#[test]
fn restored_handles_are_fresh() {
    let layout = DockingLayout { root: None, floating: Vec::new(), next_id: 0 };
    let mut doc = encode_layout(&layout);
    doc.0.push((0, 41, 0, 0, vec!["A".to_string()], 0));
    let mut back = decode_layout(&doc).expect("restores");
    assert_eq!(back.next_id, 42);
    back.split_container(DockId(41), SplitDirection::Horizontal, "B".to_string(), 500_000);
    match back.root.as_ref().unwrap() {
        DockNode::Split { id, first, second, .. } => {
            assert_eq!((first_id(first), first_id(second), id.0), (42, 43, 44));
        }
        DockNode::Panel { .. } => panic!("no split"),
    }
}

fn first_id(n: &DockNode) -> u64 {
    match n {
        DockNode::Panel { id, .. } => id.0,
        DockNode::Split { id, .. } => id.0,
    }
}

#[test]
fn empty_document_is_empty_layout() {
    let layout = decode_layout(&(Vec::new(), Vec::new())).expect("restores");
    assert!(layout.root.is_none());
    assert!(layout.floating.is_empty());
    assert_eq!(layout.next_id, 1);
}

#[test]
fn bad_text_is_json_error() {
    assert!(matches!(layout_from_json("not json"), Err(LayoutError::Json)));
    assert!(matches!(layout_from_json("{\"root\": 1}"), Err(LayoutError::Json)));
}

#[test]
fn duplicate_handles_are_malformed() {
    let text = "[[[1,7,0,500000,[],0],[0,7,0,0,[\"A\"],0],[0,8,0,0,[\"B\"],0]],[]]";
    assert!(matches!(layout_from_json(text), Err(LayoutError::Malformed)));
    let ok = "[[[1,7,0,500000,[],0],[0,6,0,0,[\"A\"],0],[0,8,0,0,[\"B\"],0]],[]]";
    let layout = layout_from_json(ok).expect("restores");
    assert_eq!(layout.all_panel_ids(), vec!["A", "B"]);
    assert_eq!(layout.next_id, 9);
}

#[test]
fn bad_records_are_malformed() {
    // front tab out of range
    let bad_active = "[[[0,1,0,0,[\"A\"],3]],[]]";
    assert!(matches!(layout_from_json(bad_active), Err(LayoutError::Malformed)));
    // ratio outside bounds
    let bad_ratio = "[[[1,7,0,950000,[],0],[0,6,0,0,[],0],[0,8,0,0,[],0]],[]]";
    assert!(matches!(layout_from_json(bad_ratio), Err(LayoutError::Malformed)));
    // a split missing its second child
    let short = "[[[1,7,0,500000,[],0],[0,6,0,0,[],0]],[]]";
    assert!(matches!(layout_from_json(short), Err(LayoutError::Malformed)));
    // records left over after the tree
    let extra = "[[[0,6,0,0,[],0],[0,8,0,0,[],0]],[]]";
    assert!(matches!(layout_from_json(extra), Err(LayoutError::Malformed)));
    // a window sharing a handle with the tree
    let shared = "[[[0,6,0,0,[\"A\"],0]],[[6,[\"B\"],0,0,0,10,10]]]";
    assert!(matches!(layout_from_json(shared), Err(LayoutError::Malformed)));
    // the largest handle leaves none to hand out
    let top = "[[[0,18446744073709551615,0,0,[],0]],[]]";
    assert!(matches!(layout_from_json(top), Err(LayoutError::Malformed)));
}

#[test]
fn fallback_to_default() {
    let d = load_or_default(None);
    assert_eq!(d.all_panel_ids(), vec!["Viewport", "Hierarchy", "Inspector"]);
    let d = load_or_default(Some("garbage"));
    assert_eq!(d.all_panel_ids(), vec!["Viewport", "Hierarchy", "Inspector"]);
    let text = layout_to_json(&edited_layout()).unwrap();
    let l = load_or_default(Some(&text));
    assert_eq!(l.all_panel_ids(), vec!["Viewport", "Assets", "Inspector", "Console"]);
    assert_eq!(l.floating.len(), 1);
}

#[test]
fn loaded_layout_keeps_working() {
    let text = layout_to_json(&edited_layout()).unwrap();
    let mut l = layout_from_json(&text).unwrap();
    l.dock_floating_window(l.floating[0].id, DockId(0), DropZone::Center);
    assert_eq!(l.all_panel_ids(), vec!["Viewport", "Assets", "Hierarchy", "Inspector", "Console"]);
}
