//! Saving and restoring a layout.
//!
//! A layout is written as a document of plain records: the dock tree in
//! pre-order, one record per node, and one record per floating window. The
//! document is JSON text; restoring checks that the records describe a well
//! formed layout and hands out new handles above every handle it holds.

use vstd::prelude::*;
use crate::layout::{
    windows, DockingLayout, Extent, FloatingWindow, LayoutModel, Point, WindowModel,
};
use crate::model::{lemma_id_list, tabs_wf, NodeModel};
use crate::tree::{names, DockId, DockNode, SplitDirection};

verus! {

/// A node of the dock tree as a record: kind (0 container, 1 split), handle,
/// axis (0 across, 1 stacked), ratio, tabs, front tab.
pub type NodeRecord = (u8, u64, u8, u32, Vec<String>, u64);

/// A floating window as a record: handle, tabs, front tab, x, y, width,
/// height.
pub type WindowRecord = (u64, Vec<String>, u64, i32, i32, u32, u32);

/// A saved layout: the tree's records in pre-order, and the windows' records.
pub type LayoutDocument = (Vec<NodeRecord>, Vec<WindowRecord>);

/// Why a saved layout could not be written or read back.
#[derive(Debug, Clone, Copy, PartialEq, Eq, Structural)]
pub enum LayoutError {
    /// The JSON text could not be produced or parsed.
    Json,
    /// The records do not describe a well formed layout.
    Malformed,
}

/// A node record as values.
pub struct RecordModel {
    pub kind: u8,
    pub id: u64,
    pub direction: u8,
    pub ratio: u32,
    pub panels: Seq<Seq<char>>,
    pub active: u64,
}

/// A window record as values.
pub struct WindowRecordModel {
    pub id: u64,
    pub panels: Seq<Seq<char>>,
    pub active: u64,
    pub x: i32,
    pub y: i32,
    pub width: u32,
    pub height: u32,
}

/// A document as values.
pub struct DocumentModel {
    pub nodes: Seq<RecordModel>,
    pub windows: Seq<WindowRecordModel>,
}

pub open spec fn record_view(r: NodeRecord) -> RecordModel {
    RecordModel { kind: r.0, id: r.1, direction: r.2, ratio: r.3, panels: names(r.4@), active: r.5 }
}

pub open spec fn window_record_view(r: WindowRecord) -> WindowRecordModel {
    WindowRecordModel {
        id: r.0,
        panels: names(r.1@),
        active: r.2,
        x: r.3,
        y: r.4,
        width: r.5,
        height: r.6,
    }
}

/// The views of node records.
pub open spec fn records(rs: Seq<NodeRecord>) -> Seq<RecordModel> {
    rs.map_values(|r: NodeRecord| record_view(r))
}

/// The views of window records.
pub open spec fn window_records(rs: Seq<WindowRecord>) -> Seq<WindowRecordModel> {
    rs.map_values(|r: WindowRecord| window_record_view(r))
}

pub open spec fn document_view(d: LayoutDocument) -> DocumentModel {
    DocumentModel { nodes: records(d.0@), windows: window_records(d.1@) }
}

/// The axis code of a record.
pub open spec fn direction_code(d: SplitDirection) -> u8 {
    match d {
        SplitDirection::Horizontal => 0,
        SplitDirection::Vertical => 1,
    }
}

/// The records of a subtree, in pre-order.
pub open spec fn flatten(n: DockNode) -> Seq<RecordModel>
    decreases n,
{
    match n {
        DockNode::Panel { panels, active, id } => seq![
            RecordModel {
                kind: 0,
                id: id.0,
                direction: 0,
                ratio: 0,
                panels: names(panels@),
                active: active as u64,
            },
        ],
        DockNode::Split { direction, ratio, first, second, id } => seq![
            RecordModel {
                kind: 1,
                id: id.0,
                direction: direction_code(direction),
                ratio,
                panels: Seq::empty(),
                active: 0,
            },
        ] + flatten(*first) + flatten(*second),
    }
}

/// The subtree whose records start at `pos`, and where its records end.
pub open spec fn parse_node(rs: Seq<RecordModel>, pos: int) -> Option<(NodeModel, int)>
    decreases rs.len() - pos,
{
    if pos < 0 || pos >= rs.len() {
        None
    } else {
        let r = rs[pos];
        if r.kind == 0 && r.active <= usize::MAX {
            Some((NodeModel::Panel { panels: r.panels, active: r.active as nat, id: DockId(r.id) }, pos + 1))
        } else if r.kind == 1 && r.direction <= 1 {
            match parse_node(rs, pos + 1) {
                Some((first, mid)) => if pos < mid <= rs.len() {
                    match parse_node(rs, mid) {
                        Some((second, end)) => Some(
                            (
                                NodeModel::Split {
                                    direction: if r.direction == 0 {
                                        SplitDirection::Horizontal
                                    } else {
                                        SplitDirection::Vertical
                                    },
                                    ratio: r.ratio as int,
                                    first: Box::new(first),
                                    second: Box::new(second),
                                    id: DockId(r.id),
                                },
                                end,
                            ),
                        ),
                        None => None,
                    }
                } else {
                    None
                },
                None => None,
            }
        } else {
            None
        }
    }
}

/// The record of a floating window.
pub open spec fn window_record(w: FloatingWindow) -> WindowRecordModel {
    WindowRecordModel {
        id: w.id.0,
        panels: names(w.panels@),
        active: w.active as u64,
        x: w.position.x,
        y: w.position.y,
        width: w.size.width,
        height: w.size.height,
    }
}

/// The floating window of a record.
pub open spec fn window_of_record(r: WindowRecordModel) -> WindowModel {
    WindowModel {
        panels: r.panels,
        active: r.active as nat,
        position: Point { x: r.x, y: r.y },
        size: Extent { width: r.width, height: r.height },
        id: DockId(r.id),
    }
}

/// The document of a layout.
pub open spec fn encode(l: DockingLayout) -> DocumentModel {
    DocumentModel {
        nodes: match l.root {
            Some(n) => flatten(n),
            None => Seq::empty(),
        },
        windows: l.floating@.map_values(|w: FloatingWindow| window_record(w)),
    }
}

/// The dock tree a document describes, if its records form exactly one
/// subtree (or none at all).
pub open spec fn decode_root(d: DocumentModel) -> Option<Option<NodeModel>> {
    if d.nodes.len() == 0 {
        Some(None)
    } else {
        match parse_node(d.nodes, 0) {
            Some((n, p)) => if p == d.nodes.len() {
                Some(Some(n))
            } else {
                None
            },
            None => None,
        }
    }
}

/// Every window record's front tab fits in memory.
pub open spec fn windows_fit(ws: Seq<WindowRecordModel>) -> bool {
    forall|k: int| 0 <= k < ws.len() ==> ws[k].active <= usize::MAX
}

/// The floating windows a document describes.
pub open spec fn decode_windows(d: DocumentModel) -> Seq<WindowModel> {
    d.windows.map_values(|r: WindowRecordModel| window_of_record(r))
}

/// A tree and windows that form a well formed layout once handles are
/// handed out above all of theirs.
pub open spec fn restorable(root: Option<NodeModel>, ws: Seq<WindowModel>) -> bool {
    LayoutModel { root, floating: ws, next_id: u64::MAX as nat }.wf()
}

/// A document that restores: its records describe a well formed layout.
pub open spec fn document_restores(d: DocumentModel) -> bool {
    &&& decode_root(d) is Some
    &&& windows_fit(d.windows)
    &&& restorable(decode_root(d)->0, decode_windows(d))
}

/// The text that `serde_json` writes for a document.
pub uninterp spec fn json_text(d: DocumentModel) -> Seq<char>;

/// The document that `serde_json` reads from a text, if it reads one.
pub uninterp spec fn json_document(s: Seq<char>) -> Option<DocumentModel>;

/// `serde_json`'s error, carried only to tell that a read or write failed.
#[verifier::external_type_specification]
#[verifier::external_body]
pub struct ExJsonError(serde_json::Error);

/// Relies on `serde_json::to_string_pretty`: the text it writes depends on the
/// document alone, and it fails only when a `Serialize` impl fails or a map
/// has keys that are not strings, neither of which a document of tuples,
/// vectors, strings and integers has.
#[verifier::external_body]
fn document_to_json(d: &LayoutDocument) -> (r: Result<String, serde_json::Error>)
    ensures
        r is Ok,
        r matches Ok(s) ==> s@ == json_text(document_view(*d)),
{
    serde_json::to_string_pretty(d)
}

/// Relies on `serde_json::from_str`: what it reads depends on the text alone.
#[verifier::external_body]
fn document_from_json(s: &str) -> (r: Result<LayoutDocument, serde_json::Error>)
    ensures
        match r {
            Ok(d) => json_document(s@) == Some(document_view(d)),
            Err(_) => json_document(s@) is None,
        },
{
    serde_json::from_str(s)
}

/// A copy of a tab list.
fn clone_tabs(v: &Vec<String>) -> (r: Vec<String>)
    ensures
        r@ == v@,
{
    let mut r: Vec<String> = Vec::new();
    let mut i: usize = 0;
    while i < v.len()
        invariant
            i <= v.len(),
            r@ == v@.subrange(0, i as int),
        decreases v.len() - i,
    {
        r.push(v[i].clone());
        i = i + 1;
    }
    assert(r@ =~= v@);
    r
}

/// Appends the records of a subtree, in pre-order.
fn flatten_into(n: &DockNode, out: &mut Vec<NodeRecord>)
    ensures
        records(final(out)@) == records(old(out)@) + flatten(*n),
    decreases n,
{
    let ghost before = records(out@);
    match n {
        DockNode::Panel { panels, active, id } => {
            out.push((0, id.0, 0, 0, clone_tabs(panels), *active as u64));
            assert(records(out@) =~= before + flatten(*n));
        },
        DockNode::Split { direction, ratio, first, second, id } => {
            let code: u8 = match direction {
                SplitDirection::Horizontal => 0,
                SplitDirection::Vertical => 1,
            };
            let no_tabs: Vec<String> = Vec::new();
            out.push((1, id.0, code, *ratio, no_tabs, 0));
            assert(names(no_tabs@) =~= Seq::empty());
            assert(records(out@) =~= before + flatten(*n).subrange(0, 1));
            flatten_into(first, out);
            flatten_into(second, out);
            assert(records(out@) =~= before + flatten(*n));
        },
    }
}

/// The document of a layout: the tree's records in pre-order, then one
/// record per floating window.
pub fn encode_layout(layout: &DockingLayout) -> (d: LayoutDocument)
    ensures
        document_view(d) == encode(*layout),
{
    let mut nodes: Vec<NodeRecord> = Vec::new();
    match &layout.root {
        Some(n) => {
            flatten_into(n, &mut nodes);
            assert(records(nodes@) =~= flatten(*n));
        },
        None => {
            assert(records(nodes@) =~= Seq::empty());
        },
    }
    let mut ws: Vec<WindowRecord> = Vec::new();
    let mut i: usize = 0;
    while i < layout.floating.len()
        invariant
            i <= layout.floating.len(),
            ws@.len() == i,
            window_records(ws@) == layout.floating@.subrange(0, i as int).map_values(
                |w: FloatingWindow| window_record(w),
            ),
        decreases layout.floating.len() - i,
    {
        let w = &layout.floating[i];
        let ghost prev = ws@;
        ws.push((w.id.0, clone_tabs(&w.panels), w.active as u64, w.position.x, w.position.y, w.size.width, w.size.height));
        assert(window_record_view(ws@[i as int]) == window_record(layout.floating@[i as int]));
        assert(window_records(ws@) =~= window_records(prev).push(window_record_view(ws@[i as int])));
        assert(window_records(ws@) =~= layout.floating@.subrange(0, i + 1).map_values(
            |w: FloatingWindow| window_record(w),
        ));
        i = i + 1;
    }
    assert(layout.floating@.subrange(0, i as int) =~= layout.floating@);
    (nodes, ws)
}

/// The subtree whose records start at `pos`, and where its records end.
fn parse_node_at(rs: &Vec<NodeRecord>, pos: usize) -> (r: Option<(DockNode, usize)>)
    ensures
        match r {
            Some((n, p)) => parse_node(records(rs@), pos as int) == Some((n@, p as int)),
            None => parse_node(records(rs@), pos as int) is None,
        },
    decreases rs.len() - pos,
{
    if pos >= rs.len() {
        return None;
    }
    let rec = &rs[pos];
    assert(records(rs@)[pos as int] == record_view(*rec));
    if rec.0 == 0 && rec.5 <= usize::MAX as u64 {
        let n = DockNode::Panel { panels: clone_tabs(&rec.4), active: rec.5 as usize, id: DockId(rec.1) };
        Some((n, pos + 1))
    } else if rec.0 == 1 && rec.2 <= 1 {
        match parse_node_at(rs, pos + 1) {
            Some((first, mid)) => {
                if mid <= pos || mid > rs.len() {
                    return None;
                }
                match parse_node_at(rs, mid) {
                    Some((second, end)) => {
                        let direction = if rec.2 == 0 {
                            SplitDirection::Horizontal
                        } else {
                            SplitDirection::Vertical
                        };
                        let n = DockNode::Split {
                            direction,
                            ratio: rec.3,
                            first: Box::new(first),
                            second: Box::new(second),
                            id: DockId(rec.1),
                        };
                        Some((n, end))
                    },
                    None => None,
                }
            },
            None => None,
        }
    } else {
        None
    }
}

/// Whether every front index of the subtree names a tab when its container
/// has any, and every ratio lies within bounds.
fn nodes_ok(n: &DockNode) -> (r: bool)
    ensures
        r == n@.nodes_wf(),
    decreases n,
{
    match n {
        DockNode::Panel { panels, active, .. } => panels.len() == 0 || *active < panels.len(),
        DockNode::Split { ratio, first, second, .. } => {
            crate::fixed::MIN_RATIO as u32 <= *ratio && *ratio <= crate::fixed::MAX_RATIO as u32
                && nodes_ok(first) && nodes_ok(second)
        },
    }
}

/// Appends the handles of a subtree, in pre-order.
fn collect_ids(n: &DockNode, out: &mut Vec<DockId>)
    ensures
        final(out)@ == old(out)@ + n@.id_list(),
    decreases n,
{
    let ghost before = out@;
    match n {
        DockNode::Panel { id, .. } => {
            out.push(*id);
            assert(out@ =~= before + n@.id_list());
        },
        DockNode::Split { first, second, id, .. } => {
            out.push(*id);
            collect_ids(first, out);
            collect_ids(second, out);
            assert(out@ =~= before + n@.id_list());
        },
    }
}

/// Whether no handle occurs twice.
fn distinct(v: &Vec<DockId>) -> (r: bool)
    ensures
        r == v@.no_duplicates(),
{
    let mut i: usize = 0;
    while i < v.len()
        invariant
            i <= v.len(),
            forall|a: int, b: int| 0 <= a < b < v.len() && a < i ==> v@[a] != v@[b],
        decreases v.len() - i,
    {
        let mut j: usize = i + 1;
        while j < v.len()
            invariant
                i < v.len(),
                i + 1 <= j <= v.len(),
                forall|a: int, b: int| 0 <= a < b < v.len() && a < i ==> v@[a] != v@[b],
                forall|b: int| i < b < j ==> v@[i as int] != v@[b],
            decreases v.len() - j,
        {
            if v[i] == v[j] {
                return false;
            }
            j = j + 1;
        }
        i = i + 1;
    }
    true
}

/// Two sequences joined have no repeated element exactly when neither has
/// one and they share none.
proof fn lemma_no_duplicates_concat(a: Seq<DockId>, b: Seq<DockId>)
    ensures
        (a + b).no_duplicates() <==> (a.no_duplicates() && b.no_duplicates() && forall|x: DockId|
            !(a.contains(x) && b.contains(x))),
{
    let c = a + b;
    if c.no_duplicates() {
        assert forall|i: int, j: int| 0 <= i < j < a.len() implies a[i] != a[j] by {
            assert(c[i] == a[i] && c[j] == a[j]);
        }
        assert forall|i: int, j: int| 0 <= i < j < b.len() implies b[i] != b[j] by {
            assert(c[i + a.len()] == b[i] && c[j + a.len()] == b[j]);
        }
        assert forall|x: DockId| !(a.contains(x) && b.contains(x)) by {
            if a.contains(x) && b.contains(x) {
                let i = choose|i: int| 0 <= i < a.len() && a[i] == x;
                let j = choose|j: int| 0 <= j < b.len() && b[j] == x;
                assert(c[i] == c[j + a.len()]);
            }
        }
    }
    if a.no_duplicates() && b.no_duplicates() && forall|x: DockId| !(a.contains(x) && b.contains(x)) {
        assert forall|i: int, j: int| 0 <= i < c.len() && 0 <= j < c.len() && i != j implies c[i]
            != c[j] by {
            if i < a.len() && j < a.len() {
            } else if i >= a.len() && j >= a.len() {
                assert(c[i] == b[i - a.len()] && c[j] == b[j - a.len()]);
            } else if i < a.len() {
                assert(a.contains(c[i]));
                assert(c[j] == b[j - a.len()]);
                assert(b.contains(c[j]));
            } else {
                assert(a.contains(c[j]));
                assert(c[i] == b[i - a.len()]);
                assert(b.contains(c[i]));
            }
        }
    }
}

/// The view of an optional tree.
pub open spec fn tree_view(o: Option<DockNode>) -> Option<NodeModel> {
    match o {
        Some(n) => Some(n@),
        None => None,
    }
}

/// The handles of a tree and of floating windows: the tree's in pre-order,
/// then the windows' in order.
pub open spec fn all_ids(root: Option<NodeModel>, ws: Seq<WindowModel>) -> Seq<DockId> {
    let t = match root {
        Some(n) => n.id_list(),
        None => Seq::empty(),
    };
    t + ws.map_values(|w: WindowModel| w.id)
}

/// Every front index and ratio is in range.
pub open spec fn parts_wf(root: Option<NodeModel>, ws: Seq<WindowModel>) -> bool {
    &&& root matches Some(n) ==> n.nodes_wf()
    &&& forall|k: int| 0 <= k < ws.len() ==> tabs_wf(#[trigger] ws[k].panels, ws[k].active)
}

/// A tree and windows restore exactly when their indices and ratios are in
/// range, and their handles are distinct and below the largest one.
pub proof fn lemma_restorable(root: Option<NodeModel>, ws: Seq<WindowModel>)
    ensures
        restorable(root, ws) <==> {
            &&& parts_wf(root, ws)
            &&& all_ids(root, ws).no_duplicates()
            &&& forall|k: int| 0 <= k < all_ids(root, ws).len() ==> (#[trigger] all_ids(root, ws)[k]).0 < u64::MAX
        },
{
    let t = match root {
        Some(n) => n.id_list(),
        None => Seq::<DockId>::empty(),
    };
    let w = ws.map_values(|w: WindowModel| w.id);
    let a = all_ids(root, ws);
    let l = LayoutModel { root, floating: ws, next_id: u64::MAX as nat };
    assert(a == t + w);
    lemma_no_duplicates_concat(t, w);
    if let Some(n) = root {
        lemma_id_list(n);
    }
    assert forall|i: DockId| t.contains(i) <==> l.tree_ids().contains(i) by {}
    assert(w.no_duplicates() <==> forall|j: int, k: int| 0 <= j < k < ws.len() ==> ws[j].id != ws[k].id) by {
        if w.no_duplicates() {
            assert forall|j: int, k: int| 0 <= j < k < ws.len() implies ws[j].id != ws[k].id by {
                assert(w[j] == ws[j].id && w[k] == ws[k].id);
            }
        }
        if forall|j: int, k: int| 0 <= j < k < ws.len() ==> ws[j].id != ws[k].id {
            assert forall|j: int, k: int| 0 <= j < w.len() && 0 <= k < w.len() && j != k implies w[j]
                != w[k] by {
                assert(w[j] == ws[j].id && w[k] == ws[k].id);
                if j < k {
                    assert(ws[j].id != ws[k].id);
                } else {
                    assert(ws[k].id != ws[j].id);
                }
            }
        }
    }
    if restorable(root, ws) {
        assert forall|x: DockId| !(t.contains(x) && w.contains(x)) by {
            if t.contains(x) && w.contains(x) {
                let k = choose|k: int| 0 <= k < w.len() && w[k] == x;
                assert(ws[k].id == x);
                assert(l.floating[k] == ws[k]);
                assert(l.tree_ids().contains(x));
            }
        }
        assert forall|k: int| 0 <= k < a.len() implies (#[trigger] a[k]).0 < u64::MAX by {
            if k < t.len() {
                assert(a[k] == t[k]);
                assert(t.contains(a[k]));
                assert(l.tree_ids().contains(a[k]));
            } else {
                assert(a[k] == w[k - t.len()]);
                assert(w[k - t.len()] == ws[k - t.len()].id);
                assert(l.floating[k - t.len()] == ws[k - t.len()]);
            }
        }
        assert forall|k: int| 0 <= k < ws.len() implies tabs_wf(#[trigger] ws[k].panels, ws[k].active) by {
            assert(l.floating[k] == ws[k]);
        }
        assert(parts_wf(root, ws));
        assert forall|j: int, k: int| 0 <= j < k < ws.len() implies ws[j].id != ws[k].id by {
            assert(l.floating[j] == ws[j] && l.floating[k] == ws[k]);
        }
        assert(w.no_duplicates());
        assert(t.no_duplicates());
        assert(a.no_duplicates());
    }
    if parts_wf(root, ws) && a.no_duplicates() && forall|k: int| 0 <= k < a.len() ==> (#[trigger] a[k]).0 < u64::MAX {
        assert forall|i: DockId| l.tree_ids().contains(i) implies i.0 < l.next_id by {
            assert(t.contains(i));
            let k = choose|k: int| 0 <= k < t.len() && t[k] == i;
            assert(a[k] == t[k]);
        }
        assert forall|k: int| 0 <= k < l.floating.len() implies {
            &&& tabs_wf(l.floating[k].panels, l.floating[k].active)
            &&& l.floating[k].id.0 < l.next_id
            &&& !l.tree_ids().contains(l.floating[k].id)
        } by {
            assert(l.floating[k] == ws[k]);
            assert(tabs_wf(ws[k].panels, ws[k].active));
            assert(a[k + t.len()] == w[k]);
            assert(w[k] == ws[k].id);
            assert(w.contains(ws[k].id));
            if l.tree_ids().contains(ws[k].id) {
                assert(t.contains(ws[k].id));
            }
        }
        assert forall|j: int, k: int| 0 <= j < k < l.floating.len() implies l.floating[j].id
            != l.floating[k].id by {
            assert(w[j] == ws[j].id && w[k] == ws[k].id);
        }
        assert(l.wf());
    }
}

/// A restorable tree and windows form a well formed layout with any next
/// handle above all of theirs.
pub proof fn lemma_restored_wf(root: Option<NodeModel>, ws: Seq<WindowModel>, next: nat)
    requires
        restorable(root, ws),
        forall|k: int| 0 <= k < all_ids(root, ws).len() ==> (#[trigger] all_ids(root, ws)[k]).0 < next,
    ensures
        (LayoutModel { root, floating: ws, next_id: next }).wf(),
{
    let l = LayoutModel { root, floating: ws, next_id: next };
    let m = LayoutModel { root, floating: ws, next_id: u64::MAX as nat };
    let t = match root {
        Some(n) => n.id_list(),
        None => Seq::<DockId>::empty(),
    };
    let a = all_ids(root, ws);
    if let Some(n) = root {
        lemma_id_list(n);
    }
    assert forall|i: DockId| l.tree_ids().contains(i) implies i.0 < l.next_id by {
        assert(t.contains(i));
        let k = choose|k: int| 0 <= k < t.len() && t[k] == i;
        assert(a[k] == t[k]);
    }
    assert forall|k: int| 0 <= k < l.floating.len() implies {
        &&& tabs_wf(l.floating[k].panels, l.floating[k].active)
        &&& l.floating[k].id.0 < l.next_id
        &&& !l.tree_ids().contains(l.floating[k].id)
    } by {
        assert(m.floating[k] == l.floating[k]);
        assert(a[k + t.len()] == ws[k].id);
    }
    assert forall|j: int, k: int| 0 <= j < k < l.floating.len() implies l.floating[j].id
        != l.floating[k].id by {
        assert(m.floating[j] == l.floating[j] && m.floating[k] == l.floating[k]);
    }
}

/// The floating windows of a document's window records, if every front
/// index fits in memory.
fn decode_window_records(rs: &Vec<WindowRecord>) -> (r: Option<Vec<FloatingWindow>>)
    ensures
        match r {
            Some(v) => {
                &&& windows_fit(window_records(rs@))
                &&& windows(v@) == window_records(rs@).map_values(|r: WindowRecordModel| window_of_record(r))
            },
            None => !windows_fit(window_records(rs@)),
        },
{
    let ghost wr = window_records(rs@);
    let ghost ws = wr.map_values(|r: WindowRecordModel| window_of_record(r));
    let mut floating: Vec<FloatingWindow> = Vec::new();
    let mut i: usize = 0;
    while i < rs.len()
        invariant
            i <= rs.len(),
            wr == window_records(rs@),
            ws == wr.map_values(|r: WindowRecordModel| window_of_record(r)),
            floating@.len() == i,
            windows(floating@) == ws.subrange(0, i as int),
            forall|k: int| 0 <= k < i ==> wr[k].active <= usize::MAX,
        decreases rs.len() - i,
    {
        let rec = &rs[i];
        assert(wr[i as int] == window_record_view(*rec));
        if rec.2 > usize::MAX as u64 {
            return None;
        }
        let ghost prev = floating@;
        let w = FloatingWindow {
            panels: clone_tabs(&rec.1),
            active: rec.2 as usize,
            position: Point { x: rec.3, y: rec.4 },
            size: Extent { width: rec.5, height: rec.6 },
            id: DockId(rec.0),
        };
        floating.push(w);
        assert(windows(floating@) =~= windows(prev).push(w@));
        assert(windows(floating@) =~= ws.subrange(0, i + 1));
        i = i + 1;
    }
    assert(windows(floating@) =~= ws);
    Some(floating)
}

/// Whether every front index and ratio is in range.
fn parts_ok(root: &Option<DockNode>, floating: &Vec<FloatingWindow>) -> (r: bool)
    ensures
        r == parts_wf(tree_view(*root), windows(floating@)),
{
    let tree_ok = match root {
        Some(n) => nodes_ok(n),
        None => true,
    };
    if !tree_ok {
        return false;
    }
    let ghost ws = windows(floating@);
    let mut k: usize = 0;
    while k < floating.len()
        invariant
            k <= floating.len(),
            ws == windows(floating@),
            forall|j: int| 0 <= j < k ==> tabs_wf(#[trigger] ws[j].panels, ws[j].active),
        decreases floating.len() - k,
    {
        let w = &floating[k];
        assert(ws[k as int] == w@);
        if !(w.panels.len() == 0 || w.active < w.panels.len()) {
            assert(!tabs_wf(ws[k as int].panels, ws[k as int].active));
            return false;
        }
        k = k + 1;
    }
    true
}

/// The handles of a tree and of floating windows, as `all_ids` orders them.
fn gather_ids(root: &Option<DockNode>, floating: &Vec<FloatingWindow>) -> (r: Vec<DockId>)
    ensures
        r@ == all_ids(tree_view(*root), windows(floating@)),
{
    let ghost ws = windows(floating@);
    let mut ids: Vec<DockId> = Vec::new();
    match root {
        Some(n) => collect_ids(n, &mut ids),
        None => {},
    }
    let ghost tree_list = ids@;
    let mut k: usize = 0;
    while k < floating.len()
        invariant
            k <= floating.len(),
            ws == windows(floating@),
            tree_list == match tree_view(*root) {
                Some(n) => n.id_list(),
                None => Seq::empty(),
            },
            ids@ == tree_list + ws.subrange(0, k as int).map_values(|w: WindowModel| w.id),
        decreases floating.len() - k,
    {
        ids.push(floating[k].id);
        assert(ws[k as int].id == floating@[k as int].id);
        assert(ids@ =~= tree_list + ws.subrange(0, k + 1).map_values(|w: WindowModel| w.id));
        k = k + 1;
    }
    assert(ws.subrange(0, ws.len() as int) =~= ws);
    ids
}

/// The largest handle, if every handle is below `u64::MAX`.
fn largest_id(ids: &Vec<DockId>) -> (r: Option<u64>)
    ensures
        r is Some == forall|j: int| 0 <= j < ids@.len() ==> (#[trigger] ids@[j]).0 < u64::MAX,
        r matches Some(top) ==> top < u64::MAX && forall|j: int| 0 <= j < ids@.len() ==> (#[trigger] ids@[j]).0 <= top,
{
    let mut top: u64 = 0;
    let mut k: usize = 0;
    while k < ids.len()
        invariant
            k <= ids.len(),
            top < u64::MAX,
            forall|j: int| 0 <= j < k ==> (#[trigger] ids@[j]).0 < u64::MAX && ids@[j].0 <= top,
        decreases ids.len() - k,
    {
        if ids[k].0 == u64::MAX {
            return None;
        }
        if ids[k].0 > top {
            top = ids[k].0;
        }
        k = k + 1;
    }
    Some(top)
}

/// The layout a document describes, with new handles to be handed out above
/// every handle it holds. Fails with `Malformed` exactly when the records do
/// not form one tree, or the layout they describe is not well formed.
pub fn decode_layout(d: &LayoutDocument) -> (r: Result<DockingLayout, LayoutError>)
    ensures
        r is Ok == document_restores(document_view(*d)),
        r matches Ok(l) ==> {
            &&& l@.root == decode_root(document_view(*d))->0
            &&& l@.floating == decode_windows(document_view(*d))
            &&& l@.wf()
        },
        r matches Err(e) ==> e == LayoutError::Malformed,
{
    let ghost dm = document_view(*d);
    let root: Option<DockNode> = if d.0.len() == 0 {
        None
    } else {
        match parse_node_at(&d.0, 0) {
            Some((n, p)) => {
                if p != d.0.len() {
                    return Err(LayoutError::Malformed);
                }
                Some(n)
            },
            None => {
                return Err(LayoutError::Malformed);
            },
        }
    };
    assert(decode_root(dm) == Some(tree_view(root)));
    let floating = match decode_window_records(&d.1) {
        Some(v) => v,
        None => {
            return Err(LayoutError::Malformed);
        },
    };
    let ghost ws = windows(floating@);
    assert(ws == decode_windows(dm));
    proof {
        lemma_restorable(tree_view(root), ws);
    }
    if !parts_ok(&root, &floating) {
        return Err(LayoutError::Malformed);
    }
    let ids = gather_ids(&root, &floating);
    if !distinct(&ids) {
        return Err(LayoutError::Malformed);
    }
    let next_id = match largest_id(&ids) {
        Some(top) => top + 1,
        None => {
            return Err(LayoutError::Malformed);
        },
    };
    proof {
        lemma_restored_wf(tree_view(root), ws, next_id as nat);
    }
    Ok(DockingLayout { root, floating, next_id })
}

/// A subtree's records, wherever they stand, read back as that subtree.
pub proof fn lemma_parse_flatten(n: DockNode, rs: Seq<RecordModel>, pos: int)
    requires
        0 <= pos,
        pos + flatten(n).len() <= rs.len(),
        forall|k: int| 0 <= k < flatten(n).len() ==> rs[pos + k] == #[trigger] flatten(n)[k],
    ensures
        parse_node(rs, pos) == Some((n@, pos + flatten(n).len())),
    decreases n,
{
    match n {
        DockNode::Panel { .. } => {
            assert(rs[pos + 0] == flatten(n)[0]);
        },
        DockNode::Split { first, second, .. } => {
            let f = flatten(*first);
            let g = flatten(*second);
            assert(flatten(n) == seq![flatten(n)[0]] + f + g);
            assert(rs[pos + 0] == flatten(n)[0]);
            assert forall|k: int| 0 <= k < f.len() implies rs[pos + 1 + k] == #[trigger] f[k] by {
                assert(flatten(n)[1 + k] == f[k]);
                assert(rs[pos + (1 + k)] == flatten(n)[1 + k]);
            }
            lemma_parse_flatten(*first, rs, pos + 1);
            let mid = pos + 1 + f.len();
            assert forall|k: int| 0 <= k < g.len() implies rs[mid + k] == #[trigger] g[k] by {
                assert(flatten(n)[1 + f.len() + k] == g[k]);
                assert(rs[pos + (1 + f.len() + k)] == flatten(n)[1 + f.len() + k]);
            }
            lemma_parse_flatten(*second, rs, mid);
        },
    }
}

/// Writing a well formed layout as records and reading them back gives the
/// same tree (shape, ratios, handles, tabs) and the same floating windows,
/// and the records restore.
pub proof fn lemma_round_trip(l: DockingLayout)
    requires
        l@.wf(),
    ensures
        document_restores(encode(l)),
        decode_root(encode(l)) == Some(l@.root),
        decode_windows(encode(l)) == l@.floating,
{
    let d = encode(l);
    match l.root {
        Some(n) => {
            lemma_parse_flatten(n, d.nodes, 0);
            assert(flatten(n).len() > 0) by {
                match n {
                    DockNode::Panel { .. } => {},
                    DockNode::Split { .. } => {},
                }
            }
        },
        None => {},
    }
    assert(decode_windows(d) =~= l@.floating);
    let m = LayoutModel { root: l@.root, floating: l@.floating, next_id: u64::MAX as nat };
    assert forall|i: DockId| m.tree_ids().contains(i) implies i.0 < m.next_id by {
        assert(l@.tree_ids().contains(i));
    }
    assert forall|k: int| 0 <= k < m.floating.len() implies {
        &&& tabs_wf(m.floating[k].panels, m.floating[k].active)
        &&& m.floating[k].id.0 < m.next_id
        &&& !m.tree_ids().contains(m.floating[k].id)
    } by {
        assert(m.floating[k] == l@.floating[k]);
    }
    assert(m.wf());
}

/// The JSON text of a layout; writing it always succeeds.
pub fn layout_to_json(layout: &DockingLayout) -> (r: Result<String, LayoutError>)
    ensures
        r matches Ok(s) && s@ == json_text(encode(*layout)),
{
    let d = encode_layout(layout);
    match document_to_json(&d) {
        Ok(s) => Ok(s),
        Err(_) => Err(LayoutError::Json),
    }
}

/// The layout a JSON text describes: `Json` when the text is not a
/// document, `Malformed` when the document does not describe a well formed
/// layout.
pub fn layout_from_json(text: &str) -> (r: Result<DockingLayout, LayoutError>)
    ensures
        match json_document(text@) {
            None => r == Err::<DockingLayout, LayoutError>(LayoutError::Json),
            Some(d) => {
                &&& r is Ok == document_restores(d)
                &&& r matches Err(e) ==> e == LayoutError::Malformed
                &&& r matches Ok(l) ==> {
                    &&& l@.root == decode_root(d)->0
                    &&& l@.floating == decode_windows(d)
                    &&& l@.wf()
                }
            },
        },
{
    match document_from_json(text) {
        Ok(d) => decode_layout(&d),
        Err(_) => Err(LayoutError::Json),
    }
}

/// The layout to start with: the one a saved text describes, or the
/// starting arrangement when there is no text or it does not restore.
pub fn load_or_default(text: Option<&str>) -> (l: DockingLayout)
    ensures
        l@.wf(),
        match text {
            Some(t) => match json_document(t@) {
                Some(d) => if document_restores(d) {
                    l@.root == decode_root(d)->0 && l@.floating == decode_windows(d)
                } else {
                    l@.root == Some(crate::tree::default_model()) && l@.floating.len() == 0
                },
                None => l@.root == Some(crate::tree::default_model()) && l@.floating.len() == 0,
            },
            None => l@.root == Some(crate::tree::default_model()) && l@.floating.len() == 0,
        },
{
    match text {
        Some(t) => match layout_from_json(t) {
            Ok(l) => l,
            Err(_) => DockingLayout::default(),
        },
        None => DockingLayout::default(),
    }
}

} // verus!
