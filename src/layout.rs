//! The docking layout: the dock tree plus the floating windows, and the edits
//! that rearrange them.

use vstd::prelude::*;
use crate::fixed::{clamp_ratio, clamp_ratio_spec, HALF, MAX_RATIO, MIN_RATIO};
use crate::model::{
    lemma_ratio_of_with_ratio, lemma_split_at, lemma_with_front_tab, lemma_with_ratio,
    lemma_with_tab_added, lemma_without_panel, tabs_wf, NodeModel,
};
use crate::tree::{default_model, lemma_default_model_wf, names, DockId, DockNode, SplitDirection};
use crate::zones::DropZone;

verus! {

/// A point on the screen, in pixels.
#[derive(Debug, Clone, Copy, PartialEq, Eq, Structural)]
pub struct Point {
    pub x: i32,
    pub y: i32,
}

/// A size on the screen, in pixels.
#[derive(Debug, Clone, Copy, PartialEq, Eq, Structural)]
pub struct Extent {
    pub width: u32,
    pub height: u32,
}

/// An undocked window holding panels as tabs.
#[derive(Debug)]
pub struct FloatingWindow {
    /// Panel names in tab order.
    pub panels: Vec<String>,
    /// Index of the tab in front.
    pub active: usize,
    /// Top-left corner.
    pub position: Point,
    /// Window size.
    pub size: Extent,
    /// This window's handle.
    pub id: DockId,
}

/// A floating window as values.
pub struct WindowModel {
    pub panels: Seq<Seq<char>>,
    pub active: nat,
    pub position: Point,
    pub size: Extent,
    pub id: DockId,
}

impl View for FloatingWindow {
    type V = WindowModel;

    open spec fn view(&self) -> WindowModel {
        WindowModel {
            panels: names(self.panels@),
            active: self.active as nat,
            position: self.position,
            size: self.size,
            id: self.id,
        }
    }
}

/// The complete arrangement: the dock tree of the main window, the floating
/// windows, and the next handle to hand out.
#[derive(Debug)]
pub struct DockingLayout {
    /// The dock tree, if the main window holds one.
    pub root: Option<DockNode>,
    /// The floating windows, in the order they were created.
    pub floating: Vec<FloatingWindow>,
    /// Every handle in use is below this one.
    pub next_id: u64,
}

/// A layout as values.
pub struct LayoutModel {
    pub root: Option<NodeModel>,
    pub floating: Seq<WindowModel>,
    pub next_id: nat,
}

/// The views of a list of floating windows.
pub open spec fn windows(v: Seq<FloatingWindow>) -> Seq<WindowModel> {
    v.map_values(|w: FloatingWindow| w@)
}

impl View for DockingLayout {
    type V = LayoutModel;

    open spec fn view(&self) -> LayoutModel {
        LayoutModel {
            root: match self.root {
                Some(n) => Some(n@),
                None => None,
            },
            floating: windows(self.floating@),
            next_id: self.next_id as nat,
        }
    }
}

/// `i` is the first window with handle `w`.
pub open spec fn is_first_window(fl: Seq<WindowModel>, w: DockId, i: int) -> bool {
    &&& 0 <= i < fl.len()
    &&& fl[i].id == w
    &&& forall|j: int| 0 <= j < i ==> fl[j].id != w
}

/// Some window has the handle `w`.
pub open spec fn has_window(fl: Seq<WindowModel>, w: DockId) -> bool {
    exists|i: int| 0 <= i < fl.len() && fl[i].id == w
}

/// The first window with handle `w` (meaningful when there is one).
pub open spec fn window_index(fl: Seq<WindowModel>, w: DockId) -> int {
    choose|i: int| is_first_window(fl, w, i)
}

/// The axis of the split that a drop on an edge zone makes.
pub open spec fn zone_direction(zone: DropZone) -> SplitDirection {
    match zone {
        DropZone::Top | DropZone::Bottom => SplitDirection::Vertical,
        _ => SplitDirection::Horizontal,
    }
}

impl LayoutModel {
    /// The handles of the dock tree.
    pub open spec fn tree_ids(self) -> Set<DockId> {
        match self.root {
            Some(n) => n.ids(),
            None => Set::empty(),
        }
    }

    /// The dock tree holds the panel `p`.
    pub open spec fn tree_holds(self, p: Seq<char>) -> bool {
        self.root matches Some(n) && n.holds_panel(p)
    }

    /// The layout is well formed: the tree is; every floating window's front
    /// index names a tab when it has any; no two nodes or windows share a
    /// handle; and every handle is below `next_id`.
    pub open spec fn wf(self) -> bool {
        &&& self.root matches Some(n) ==> n.wf()
        &&& forall|i: DockId| self.tree_ids().contains(i) ==> i.0 < self.next_id
        &&& forall|k: int|
            0 <= k < self.floating.len() ==> {
                &&& tabs_wf(self.floating[k].panels, self.floating[k].active)
                &&& self.floating[k].id.0 < self.next_id
                &&& !self.tree_ids().contains(self.floating[k].id)
            }
        &&& forall|j: int, k: int|
            0 <= j < k < self.floating.len() ==> self.floating[j].id != self.floating[k].id
    }

    /// The layout with its tree replaced.
    pub open spec fn with_root(self, root: Option<NodeModel>) -> LayoutModel {
        LayoutModel { root, floating: self.floating, next_id: self.next_id }
    }

    /// `p` added as the front tab of container `t`.
    pub open spec fn add_panel(self, p: Seq<char>, t: DockId) -> LayoutModel {
        match self.root {
            Some(n) => self.with_root(Some(n.with_tab_added(t, p))),
            None => self,
        }
    }

    /// `p` taken out of the first container that holds it.
    pub open spec fn remove_panel(self, p: Seq<char>) -> LayoutModel {
        match self.root {
            Some(n) => self.with_root(Some(n.without_panel(p))),
            None => self,
        }
    }

    /// Container `t` split along `direction` with a new container holding
    /// `p`; the kept container (re-keyed), the new one and the split take the
    /// next three handles. Nothing changes when there is no such container or
    /// fewer than three handles are left.
    pub open spec fn split(self, t: DockId, direction: SplitDirection, p: Seq<char>, r: int) -> LayoutModel {
        match self.root {
            Some(n) => if n.has_container(t) && self.next_id + 3 <= u64::MAX {
                LayoutModel {
                    root: Some(
                        n.split_at(
                            t,
                            direction,
                            p,
                            clamp_ratio_spec(r),
                            DockId(self.next_id as u64),
                            DockId((self.next_id + 1) as u64),
                            DockId((self.next_id + 2) as u64),
                        ),
                    ),
                    floating: self.floating,
                    next_id: self.next_id + 3,
                }
            } else {
                self
            },
            None => self,
        }
    }

    /// Every outermost split with handle `t` given ratio `r`, clamped.
    pub open spec fn set_ratio(self, t: DockId, r: int) -> LayoutModel {
        match self.root {
            Some(n) => self.with_root(Some(n.with_ratio(t, clamp_ratio_spec(r)))),
            None => self,
        }
    }

    /// Container `t` brings `p`'s tab to the front, if it holds `p`.
    pub open spec fn set_active(self, t: DockId, p: Seq<char>) -> LayoutModel {
        match self.root {
            Some(n) => self.with_root(Some(n.with_front_tab(t, p))),
            None => self,
        }
    }

    /// `p` taken out of the tree into a new floating window of its own, which
    /// takes the next handle. Nothing changes when the tree does not hold `p`
    /// or no handle is left.
    pub open spec fn undock(self, p: Seq<char>, position: Point, size: Extent) -> LayoutModel {
        if self.tree_holds(p) && self.next_id < u64::MAX {
            LayoutModel {
                root: Some(self.root->0.without_panel(p)),
                floating: self.floating.push(
                    WindowModel {
                        panels: seq![p],
                        active: 0,
                        position,
                        size,
                        id: DockId(self.next_id as u64),
                    },
                ),
                next_id: self.next_id + 1,
            }
        } else {
            self
        }
    }

    /// `p` docked at container `t` as a drop on `zone` does it: a new tab on
    /// the centre, an even split on an edge (the new container second).
    pub open spec fn place(self, p: Seq<char>, t: DockId, zone: DropZone) -> LayoutModel {
        if zone == DropZone::Center {
            self.add_panel(p, t)
        } else {
            self.split(t, zone_direction(zone), p, HALF as int)
        }
    }

    /// The handle of target container `t` after a panel is docked at it on
    /// `zone`: a split on an edge re-keys the container with the next handle.
    pub open spec fn next_target(self, t: DockId, zone: DropZone) -> DockId {
        if zone != DropZone::Center && self.root is Some && self.root->0.has_container(t)
            && self.next_id + 3 <= u64::MAX {
            DockId(self.next_id as u64)
        } else {
            t
        }
    }

    /// Each of `ps`, in order, docked at container `t` on `zone`; after a
    /// split the container is followed under its new handle.
    pub open spec fn place_all(self, ps: Seq<Seq<char>>, t: DockId, zone: DropZone) -> LayoutModel
        decreases ps.len(),
    {
        if ps.len() == 0 {
            self
        } else {
            self.place(ps[0], t, zone).place_all(ps.drop_first(), self.next_target(t, zone), zone)
        }
    }

    /// `count` panels can be docked at container `t` on `zone`: `t` is a
    /// container of the tree (the first node with that handle, for a tab),
    /// and on an edge enough handles are left for every split.
    pub open spec fn accepts(self, t: DockId, zone: DropZone, count: nat) -> bool {
        &&& self.root is Some
        &&& if zone == DropZone::Center {
            self.root->0.tabs_at(t) is Some
        } else {
            self.root->0.has_container(t) && self.next_id + 3 * count <= u64::MAX
        }
    }

    /// The first floating window with handle `w` closed, and its panels docked
    /// one by one at container `t` on `zone`. Nothing changes when there is no
    /// such window or the target cannot take its panels.
    pub open spec fn dock_window(self, w: DockId, t: DockId, zone: DropZone) -> LayoutModel {
        if has_window(self.floating, w) && self.accepts(
            t,
            zone,
            self.floating[window_index(self.floating, w)].panels.len(),
        ) {
            let i = window_index(self.floating, w);
            LayoutModel {
                root: self.root,
                floating: self.floating.remove(i),
                next_id: self.next_id,
            }.place_all(self.floating[i].panels, t, zone)
        } else {
            self
        }
    }
}

/// A layout whose tree was edited without touching handles stays well formed
/// when the new tree is.
proof fn lemma_same_ids_wf(l: LayoutModel, m: LayoutModel)
    requires
        l.wf(),
        m.floating == l.floating,
        m.next_id == l.next_id,
        m.tree_ids() == l.tree_ids(),
        m.root matches Some(n) ==> n.wf(),
    ensures
        m.wf(),
{
    assert forall|i: DockId| m.tree_ids().contains(i) implies i.0 < m.next_id by {
        assert(l.tree_ids().contains(i));
    }
    assert forall|k: int| 0 <= k < m.floating.len() implies {
        &&& tabs_wf(m.floating[k].panels, m.floating[k].active)
        &&& m.floating[k].id.0 < m.next_id
        &&& !m.tree_ids().contains(m.floating[k].id)
    } by {
        assert(m.floating[k] == l.floating[k]);
    }
}

/// Adding a tab keeps a layout well formed.
pub proof fn lemma_add_panel_wf(l: LayoutModel, p: Seq<char>, t: DockId)
    requires
        l.wf(),
    ensures
        l.add_panel(p, t).wf(),
        l.add_panel(p, t).tree_ids() == l.tree_ids(),
{
    if let Some(n) = l.root {
        lemma_with_tab_added(n, t, p);
        lemma_same_ids_wf(l, l.add_panel(p, t));
    }
}

/// Removing a panel keeps a layout well formed.
pub proof fn lemma_remove_panel_wf(l: LayoutModel, p: Seq<char>)
    requires
        l.wf(),
    ensures
        l.remove_panel(p).wf(),
        l.remove_panel(p).tree_ids() == l.tree_ids(),
{
    if let Some(n) = l.root {
        lemma_without_panel(n, p);
        lemma_same_ids_wf(l, l.remove_panel(p));
    }
}

/// Setting a ratio keeps a layout well formed.
pub proof fn lemma_set_ratio_wf(l: LayoutModel, t: DockId, r: int)
    requires
        l.wf(),
    ensures
        l.set_ratio(t, r).wf(),
{
    if let Some(n) = l.root {
        lemma_with_ratio(n, t, clamp_ratio_spec(r));
        lemma_same_ids_wf(l, l.set_ratio(t, r));
    }
}

/// Bringing a tab to the front keeps a layout well formed.
pub proof fn lemma_set_active_wf(l: LayoutModel, t: DockId, p: Seq<char>)
    requires
        l.wf(),
    ensures
        l.set_active(t, p).wf(),
{
    if let Some(n) = l.root {
        lemma_with_front_tab(n, t, p);
        lemma_same_ids_wf(l, l.set_active(t, p));
    }
}

/// Splitting a container keeps a layout well formed.
pub proof fn lemma_split_wf(l: LayoutModel, t: DockId, direction: SplitDirection, p: Seq<char>, r: int)
    requires
        l.wf(),
    ensures
        l.split(t, direction, p, r).wf(),
{
    if let Some(n) = l.root {
        if n.has_container(t) && l.next_id + 3 <= u64::MAX {
            let a = DockId(l.next_id as u64);
            let b = DockId((l.next_id + 1) as u64);
            let c = DockId((l.next_id + 2) as u64);
            assert(!l.tree_ids().contains(a) && !l.tree_ids().contains(b) && !l.tree_ids().contains(c)) by {
                if l.tree_ids().contains(a) || l.tree_ids().contains(b) || l.tree_ids().contains(c) {
                    assert(false);
                }
            }
            lemma_split_at(n, t, direction, p, clamp_ratio_spec(r), a, b, c);
            let m = l.split(t, direction, p, r);
            assert(m.tree_ids() == n.ids().remove(t).union(set![a, b, c]));
            assert forall|k: int| 0 <= k < m.floating.len() implies !m.tree_ids().contains(
                m.floating[k].id,
            ) by {
                assert(l.floating[k].id.0 < l.next_id);
            }
        }
    }
}

/// Undocking a panel keeps a layout well formed.
pub proof fn lemma_undock_wf(l: LayoutModel, p: Seq<char>, position: Point, size: Extent)
    requires
        l.wf(),
    ensures
        l.undock(p, position, size).wf(),
{
    if l.tree_holds(p) && l.next_id < u64::MAX {
        let n = l.root->0;
        lemma_without_panel(n, p);
        let m = l.undock(p, position, size);
        assert forall|i: DockId| m.tree_ids().contains(i) implies i.0 < m.next_id by {
            assert(l.tree_ids().contains(i));
        }
        assert forall|k: int| 0 <= k < m.floating.len() implies {
            &&& tabs_wf(m.floating[k].panels, m.floating[k].active)
            &&& m.floating[k].id.0 < m.next_id
            &&& !m.tree_ids().contains(m.floating[k].id)
        } by {
            if k < l.floating.len() {
                assert(m.floating[k] == l.floating[k]);
            } else {
                let fresh = DockId(l.next_id as u64);
                if m.tree_ids().contains(fresh) {
                    assert(l.tree_ids().contains(fresh));
                }
            }
        }
        assert forall|j: int, k: int| 0 <= j < k < m.floating.len() implies m.floating[j].id
            != m.floating[k].id by {
            if k == l.floating.len() {
                assert(l.floating[j].id.0 < l.next_id);
            }
        }
    }
}

/// Docking a panel keeps a layout well formed.
pub proof fn lemma_place_wf(l: LayoutModel, p: Seq<char>, t: DockId, zone: DropZone)
    requires
        l.wf(),
    ensures
        l.place(p, t, zone).wf(),
{
    if zone == DropZone::Center {
        lemma_add_panel_wf(l, p, t);
    } else {
        lemma_split_wf(l, t, zone_direction(zone), p, HALF as int);
    }
}

/// Docking panels one by one keeps a layout well formed.
pub proof fn lemma_place_all_wf(l: LayoutModel, ps: Seq<Seq<char>>, t: DockId, zone: DropZone)
    requires
        l.wf(),
    ensures
        l.place_all(ps, t, zone).wf(),
    decreases ps.len(),
{
    if ps.len() > 0 {
        lemma_place_wf(l, ps[0], t, zone);
        lemma_place_all_wf(l.place(ps[0], t, zone), ps.drop_first(), l.next_target(t, zone), zone);
    }
}

/// Re-docking a floating window keeps a layout well formed.
pub proof fn lemma_dock_window_wf(l: LayoutModel, w: DockId, t: DockId, zone: DropZone)
    requires
        l.wf(),
    ensures
        l.dock_window(w, t, zone).wf(),
{
    if has_window(l.floating, w) && l.accepts(t, zone, l.floating[window_index(l.floating, w)].panels.len()) {
        let i = window_index(l.floating, w);
        lemma_window_index(l.floating, w);
        let m = LayoutModel { root: l.root, floating: l.floating.remove(i), next_id: l.next_id };
        assert forall|k: int| 0 <= k < m.floating.len() implies {
            &&& tabs_wf(m.floating[k].panels, m.floating[k].active)
            &&& m.floating[k].id.0 < m.next_id
            &&& !m.tree_ids().contains(m.floating[k].id)
        } by {
            if k < i {
                assert(m.floating[k] == l.floating[k]);
            } else {
                assert(m.floating[k] == l.floating[k + 1]);
            }
        }
        assert forall|j: int, k: int| 0 <= j < k < m.floating.len() implies m.floating[j].id
            != m.floating[k].id by {
            let jj = if j < i { j } else { j + 1 };
            let kk = if k < i { k } else { k + 1 };
            assert(m.floating[j] == l.floating[jj]);
            assert(m.floating[k] == l.floating[kk]);
        }
        lemma_place_all_wf(m, l.floating[i].panels, t, zone);
    }
}

/// `window_index` names the first window with the handle, when there is one.
pub proof fn lemma_window_index(fl: Seq<WindowModel>, w: DockId)
    requires
        has_window(fl, w),
    ensures
        is_first_window(fl, w, window_index(fl, w)),
{
    let k = choose|k: int| 0 <= k < fl.len() && fl[k].id == w;
    lemma_first_window_exists(fl, w, k);
}

proof fn lemma_first_window_exists(fl: Seq<WindowModel>, w: DockId, k: int)
    requires
        0 <= k < fl.len(),
        fl[k].id == w,
    ensures
        exists|i: int| is_first_window(fl, w, i),
    decreases k,
{
    if forall|j: int| 0 <= j < k ==> fl[j].id != w {
        assert(is_first_window(fl, w, k));
    } else {
        let j = choose|j: int| 0 <= j < k && fl[j].id == w;
        lemma_first_window_exists(fl, w, j);
    }
}

/// The first window with a handle is the one `window_index` names.
pub proof fn lemma_window_index_unique(fl: Seq<WindowModel>, w: DockId, i: int)
    requires
        is_first_window(fl, w, i),
    ensures
        has_window(fl, w),
        window_index(fl, w) == i,
{
    lemma_window_index(fl, w);
    let k = window_index(fl, w);
    if k < i {
        assert(fl[k].id != w);
    } else if i < k {
        assert(fl[i].id != w);
    }
}

impl Default for DockingLayout {
    /// The starting arrangement, with no floating window.
    fn default() -> (l: DockingLayout)
        ensures
            l@.wf(),
            l@.root == Some(default_model()),
            l@.floating.len() == 0,
            l@.next_id == 5,
    {
        let l = DockingLayout { root: Some(DockNode::default_layout()), floating: Vec::new(), next_id: 5 };
        proof {
            lemma_default_model_wf();
            assert(l@.floating =~= Seq::<WindowModel>::empty());
        }
        l
    }
}

impl DockingLayout {
    /// Every panel of the dock tree: containers in pre-order, tabs in order.
    pub fn all_panel_ids(&self) -> (r: Vec<String>)
        ensures
            names(r@) == match self@.root {
                Some(n) => n.panel_view(),
                None => Seq::empty(),
            },
    {
        match &self.root {
            Some(root) => root.all_panels(),
            None => {
                let r: Vec<String> = Vec::new();
                assert(names(r@) =~= Seq::empty());
                r
            },
        }
    }

    /// The first container of the dock tree, in pre-order, that holds
    /// `panel_id`.
    pub fn find_container(&self, panel_id: &str) -> (r: Option<&DockNode>)
        ensures
            r.is_some() == self@.tree_holds(panel_id@),
            r matches Some(c) ==> c@ == self@.root->0.container_of(panel_id@),
    {
        match &self.root {
            Some(root) => root.find_container(panel_id),
            None => None,
        }
    }

    /// The ratio of the first split, in pre-order, with handle `split_id`.
    pub fn find_split_ratio(&self, split_id: DockId) -> (r: Option<u32>)
        ensures
            match r {
                Some(x) => self@.root matches Some(n) && n.ratio_of(split_id) == Some(x as int),
                None => self@.root matches Some(n) ==> n.ratio_of(split_id) is None,
            },
    {
        match &self.root {
            Some(root) => root.find_split_ratio(split_id),
            None => None,
        }
    }

    /// Appends `panel_id` to the container with handle `container_id` and
    /// brings it to the front; no change if there is no such container.
    pub fn add_panel_to_container(&mut self, panel_id: String, container_id: DockId)
        ensures
            final(self)@ == old(self)@.add_panel(panel_id@, container_id),
            old(self)@.wf() ==> final(self)@.wf(),
    {
        let ghost p = panel_id@;
        if let Some(root) = &mut self.root {
            root.add_tab(container_id, panel_id);
        }
        proof {
            if old(self)@.wf() {
                lemma_add_panel_wf(old(self)@, p, container_id);
            }
        }
    }

    /// Takes `panel_id` out of the first container that holds it, and returns
    /// it; the container stays even when emptied. `None`, and no change, when
    /// no container holds it.
    pub fn remove_panel(&mut self, panel_id: &str) -> (r: Option<String>)
        ensures
            final(self)@ == old(self)@.remove_panel(panel_id@),
            r.is_some() == old(self)@.tree_holds(panel_id@),
            r matches Some(s) ==> s@ == panel_id@,
            old(self)@.wf() ==> final(self)@.wf(),
    {
        let p = panel_id.to_owned();
        let r = match &mut self.root {
            Some(root) => root.remove_tab(&p),
            None => None,
        };
        proof {
            if old(self)@.wf() {
                lemma_remove_panel_wf(old(self)@, p@);
            }
        }
        r
    }

    /// Replaces the container with handle `container_id` by a split along
    /// `direction` at `ratio` (clamped) between that container, re-keyed, and
    /// a new container holding only `new_panel_id`, which comes second. The
    /// re-keyed container, the new one and the split take the next three
    /// handles, in that order.
    pub fn split_container(
        &mut self,
        container_id: DockId,
        direction: SplitDirection,
        new_panel_id: String,
        ratio: i64,
    )
        ensures
            final(self)@ == old(self)@.split(container_id, direction, new_panel_id@, ratio as int),
            old(self)@.wf() ==> final(self)@.wf(),
    {
        let ghost p = new_panel_id@;
        let next = self.next_id;
        let r = clamp_ratio(ratio);
        if let Some(root) = &mut self.root {
            if next <= u64::MAX - 3 && root.has_container(container_id) {
                root.split_tab(
                    container_id,
                    direction,
                    new_panel_id,
                    r,
                    DockId(next),
                    DockId(next + 1),
                    DockId(next + 2),
                );
                self.next_id = next + 3;
            }
        }
        proof {
            if old(self)@.wf() {
                lemma_split_wf(old(self)@, container_id, direction, p, ratio as int);
            }
        }
    }

    /// Gives every outermost split with handle `split_id` the ratio
    /// `new_ratio`, clamped to `[MIN_RATIO, MAX_RATIO]`.
    pub fn update_split_ratio(&mut self, split_id: DockId, new_ratio: i64)
        ensures
            final(self)@ == old(self)@.set_ratio(split_id, new_ratio as int),
            old(self)@.wf() ==> final(self)@.wf(),
    {
        let r = clamp_ratio(new_ratio);
        if let Some(root) = &mut self.root {
            root.set_ratio(split_id, r);
        }
        proof {
            if old(self)@.wf() {
                lemma_set_ratio_wf(old(self)@, split_id, new_ratio as int);
            }
        }
    }

    /// Brings `panel_id` to the front of the container with handle
    /// `container_id`, if that container holds it.
    pub fn set_active_panel(&mut self, container_id: DockId, panel_id: &str)
        ensures
            final(self)@ == old(self)@.set_active(container_id, panel_id@),
            old(self)@.wf() ==> final(self)@.wf(),
    {
        let p = panel_id.to_owned();
        if let Some(root) = &mut self.root {
            root.set_front_tab(container_id, &p);
        }
        proof {
            if old(self)@.wf() {
                lemma_set_active_wf(old(self)@, container_id, p@);
            }
        }
    }

    /// Takes `panel_id` out of the dock tree into a new floating window of its
    /// own at `position` with `size`.
    pub fn undock_panel(&mut self, panel_id: &str, position: Point, size: Extent)
        ensures
            final(self)@ == old(self)@.undock(panel_id@, position, size),
            old(self)@.wf() ==> final(self)@.wf(),
    {
        if self.next_id < u64::MAX {
            match self.remove_panel(panel_id) {
                Some(removed) => {
                    let ghost before = self.floating@;
                    let mut panels: Vec<String> = Vec::new();
                    panels.push(removed);
                    let w = FloatingWindow { panels, active: 0, position, size, id: DockId(self.next_id) };
                    assert(names(w.panels@) =~= seq![panel_id@]);
                    self.floating.push(w);
                    self.next_id = self.next_id + 1;
                    assert(windows(self.floating@) =~= windows(before).push(w@));
                },
                None => {},
            }
        }
        proof {
            if old(self)@.wf() {
                lemma_undock_wf(old(self)@, panel_id@, position, size);
            }
        }
    }

    /// Docks `panel` at the container with handle `target` as a drop on
    /// `zone` does: as a new front tab on the centre; on an edge, by an even
    /// split of the container (across for left and right, stacked for top and
    /// bottom) with the new panel always second.
    pub fn dock_panel(&mut self, panel: String, target: DockId, zone: DropZone)
        ensures
            final(self)@ == old(self)@.place(panel@, target, zone),
            old(self)@.wf() ==> final(self)@.wf(),
    {
        match zone {
            DropZone::Center => self.add_panel_to_container(panel, target),
            DropZone::Left | DropZone::Right => self.split_container(
                target,
                SplitDirection::Horizontal,
                panel,
                HALF,
            ),
            DropZone::Top | DropZone::Bottom => self.split_container(
                target,
                SplitDirection::Vertical,
                panel,
                HALF,
            ),
        }
    }

    /// Where the first floating window with handle `window_id` stands.
    fn window_position(&self, window_id: DockId) -> (r: Option<usize>)
        ensures
            match r {
                Some(i) => is_first_window(self@.floating, window_id, i as int),
                None => !has_window(self@.floating, window_id),
            },
    {
        let mut i: usize = 0;
        while i < self.floating.len()
            invariant
                i <= self.floating.len(),
                forall|j: int| 0 <= j < i ==> self@.floating[j].id != window_id,
            decreases self.floating.len() - i,
        {
            if self.floating[i].id == window_id {
                return Some(i);
            }
            i = i + 1;
        }
        None
    }

    /// Closes the floating window with handle `window_id` and docks its panels,
    /// one by one in tab order, at the container with handle
    /// `target_container` as a drop on `zone` does. On an edge zone every
    /// panel makes a split of its own, of the target container under the
    /// handle the previous split gave it. Nothing changes, and the window
    /// stays, when there is no such window, when the target is not a container
    /// of the tree, or when too few handles are left for the splits.
    pub fn dock_floating_window(&mut self, window_id: DockId, target_container: DockId, zone: DropZone)
        ensures
            final(self)@ == old(self)@.dock_window(window_id, target_container, zone),
            old(self)@.wf() ==> final(self)@.wf(),
    {
        proof {
            if old(self)@.wf() {
                lemma_dock_window_wf(old(self)@, window_id, target_container, zone);
            }
        }
        let pos = match self.window_position(window_id) {
            Some(pos) => pos,
            None => {
                return;
            },
        };
        proof {
            lemma_window_index_unique(self@.floating, window_id, pos as int);
        }
        if !self.accepts(target_container, zone, self.floating[pos].panels.len()) {
            return;
        }
        let ghost before = self.floating@;
        let window = self.floating.remove(pos);
        assert(windows(self.floating@) =~= windows(before).remove(pos as int));
        let ghost ps = window@.panels;
        let ghost goal = self@.place_all(ps, target_container, zone);
        assert(ps.subrange(0, ps.len() as int) =~= ps);
        let mut target = target_container;
        let mut i: usize = 0;
        while i < window.panels.len()
            invariant
                i <= window.panels.len(),
                ps == names(window.panels@),
                self@.place_all(ps.subrange(i as int, ps.len() as int), target, zone) == goal,
            decreases window.panels.len() - i,
        {
            let ghost rest = ps.subrange(i as int, ps.len() as int);
            assert(rest.drop_first() =~= ps.subrange(i + 1, ps.len() as int));
            let next = self.next_id;
            self.dock_panel(window.panels[i].clone(), target, zone);
            if zone != DropZone::Center && self.next_id != next {
                target = DockId(next);
            }
            i = i + 1;
        }
        assert(ps.subrange(i as int, ps.len() as int) =~= Seq::<Seq<char>>::empty());
    }

    /// Whether `count` panels can be docked at container `t` on `zone`.
    fn accepts(&self, t: DockId, zone: DropZone, count: usize) -> (r: bool)
        ensures
            r == self@.accepts(t, zone, count as nat),
    {
        match &self.root {
            None => false,
            Some(root) => {
                if zone == DropZone::Center {
                    root.is_container(t)
                } else {
                    let room = (u64::MAX - self.next_id) / 3;
                    proof {
                        assert((count as int) <= room <==> self.next_id + 3 * count <= u64::MAX)
                            by (nonlinear_arith)
                            requires
                                room == (u64::MAX - self.next_id) / 3,
                                self.next_id <= u64::MAX,
                        ;
                    }
                    root.has_container(t) && (count as u64) <= room
                }
            },
        }
    }
}

/// Whatever ratio is asked for, a split's stored ratio afterwards is that
/// ratio clamped, and so lies within `[MIN_RATIO, MAX_RATIO]`.
pub proof fn lemma_ratio_clamped(l: LayoutModel, t: DockId, r: int)
    requires
        l.root matches Some(n) && n.ratio_of(t) is Some,
    ensures
        l.set_ratio(t, r).root->0.ratio_of(t) == Some(clamp_ratio_spec(r)),
        MIN_RATIO <= clamp_ratio_spec(r) <= MAX_RATIO,
{
    lemma_ratio_of_with_ratio(l.root->0, t, clamp_ratio_spec(r));
}

/// One public edit of a layout, as values.
pub enum Edit {
    AddPanel { panel: Seq<char>, container: DockId },
    RemovePanel { panel: Seq<char> },
    Split { container: DockId, direction: SplitDirection, panel: Seq<char>, ratio: int },
    SetRatio { split: DockId, ratio: int },
    SetActive { container: DockId, panel: Seq<char> },
    Undock { panel: Seq<char>, position: Point, size: Extent },
    DockWindow { window: DockId, container: DockId, zone: DropZone },
}

impl LayoutModel {
    /// The layout after one edit.
    pub open spec fn apply(self, e: Edit) -> LayoutModel {
        match e {
            Edit::AddPanel { panel, container } => self.add_panel(panel, container),
            Edit::RemovePanel { panel } => self.remove_panel(panel),
            Edit::Split { container, direction, panel, ratio } => self.split(
                container,
                direction,
                panel,
                ratio,
            ),
            Edit::SetRatio { split, ratio } => self.set_ratio(split, ratio),
            Edit::SetActive { container, panel } => self.set_active(container, panel),
            Edit::Undock { panel, position, size } => self.undock(panel, position, size),
            Edit::DockWindow { window, container, zone } => self.dock_window(window, container, zone),
        }
    }

    /// The layout after a run of edits, in order.
    pub open spec fn apply_all(self, es: Seq<Edit>) -> LayoutModel
        decreases es.len(),
    {
        if es.len() == 0 {
            self
        } else {
            self.apply(es[0]).apply_all(es.drop_first())
        }
    }
}

/// Through any run of edits of a session, a well formed layout stays well
/// formed: every container's front index names one of its tabs whenever it
/// has any, and no two nodes or floating windows reachable from the layout
/// share a handle.
pub proof fn lemma_session_wf(l: LayoutModel, es: Seq<Edit>)
    requires
        l.wf(),
    ensures
        l.apply_all(es).wf(),
        l.apply_all(es).root matches Some(n) ==> n.nodes_wf() && n.unique_ids(),
        forall|j: int, k: int|
            0 <= j < k < l.apply_all(es).floating.len() ==> l.apply_all(es).floating[j].id
                != l.apply_all(es).floating[k].id,
        forall|k: int|
            0 <= k < l.apply_all(es).floating.len() ==> !l.apply_all(es).tree_ids().contains(
                #[trigger] l.apply_all(es).floating[k].id,
            ),
    decreases es.len(),
{
    if es.len() > 0 {
        match es[0] {
            Edit::AddPanel { panel, container } => lemma_add_panel_wf(l, panel, container),
            Edit::RemovePanel { panel } => lemma_remove_panel_wf(l, panel),
            Edit::Split { container, direction, panel, ratio } => lemma_split_wf(
                l,
                container,
                direction,
                panel,
                ratio,
            ),
            Edit::SetRatio { split, ratio } => lemma_set_ratio_wf(l, split, ratio),
            Edit::SetActive { container, panel } => lemma_set_active_wf(l, container, panel),
            Edit::Undock { panel, position, size } => lemma_undock_wf(l, panel, position, size),
            Edit::DockWindow { window, container, zone } => lemma_dock_window_wf(
                l,
                window,
                container,
                zone,
            ),
        }
        lemma_session_wf(l.apply(es[0]), es.drop_first());
    }
}

} // verus!
