//! Dragging a panel by its header or tab and dropping it onto a container.
//!
//! The session runs `Idle -> PotentialDrag -> ActiveDrag -> Idle`. A press on a
//! header or tab only records a potential drag; the drag starts once the
//! pointer has moved more than `DRAG_THRESHOLD` pixels while held, so that a
//! click is not taken for a drag. The tree changes only when an active drag is
//! released over a container.

use vstd::prelude::*;
use crate::fixed::ONE;
use crate::layout::{lemma_set_active_wf, DockingLayout, Extent, LayoutModel, Point};
use crate::model::{lemma_tabs_at_added, lemma_tabs_at_removed, lemma_without_panel_containers};
use crate::tree::DockId;
use crate::zones::{classify, zone_of, DropZone};

verus! {

/// How far, in pixels, the pointer must move while held before a press on a
/// header or tab becomes a drag.
pub const DRAG_THRESHOLD: i64 = 5;

/// The header of a container that shows a single panel.
pub struct PanelHeader {
    pub panel_id: String,
    pub container_id: DockId,
}

/// One tab of a container.
pub struct PanelTab {
    pub panel_id: String,
    pub container_id: DockId,
}

/// A container as laid out on screen.
#[derive(Debug, Clone, Copy, PartialEq, Eq, Structural)]
pub struct DockContainer {
    pub id: DockId,
}

/// The pointer relative to a container: `normalized` is the pointer's
/// position with the container's top-left corner at `(0, 0)` and its
/// bottom-right corner at `(ONE, ONE)`, when the host could place it.
#[derive(Debug, Clone, Copy)]
pub struct ContainerCursor {
    pub container: DockContainer,
    pub normalized: Option<(i64, i64)>,
}

/// The state of a panel drag.
#[derive(Debug)]
pub struct DockDragState {
    /// The panel being dragged, once the drag is active.
    pub dragging: Option<String>,
    /// The container the dragged panel came from.
    pub source_container: Option<DockId>,
    /// The container under the pointer during an active drag.
    pub drop_target: Option<DockId>,
    /// The zone of `drop_target` under the pointer.
    pub drop_zone: Option<DropZone>,
    /// The pointer when the drag became active.
    pub drag_position: Point,
    /// The panel pressed on, before the threshold is crossed.
    pub potential_drag_panel: Option<String>,
    /// The container of `potential_drag_panel`.
    pub potential_drag_container: Option<DockId>,
    /// The pointer at the press.
    pub drag_start_position: Option<Point>,
}

/// A panel drag as values.
pub struct DragModel {
    pub dragging: Option<Seq<char>>,
    pub source_container: Option<DockId>,
    pub drop_target: Option<DockId>,
    pub drop_zone: Option<DropZone>,
    pub drag_position: Point,
    pub potential_drag_panel: Option<Seq<char>>,
    pub potential_drag_container: Option<DockId>,
    pub drag_start_position: Option<Point>,
}

/// The view of an optional panel name.
pub open spec fn name_of(s: Option<String>) -> Option<Seq<char>> {
    match s {
        Some(v) => Some(v@),
        None => None,
    }
}

impl View for DockDragState {
    type V = DragModel;

    open spec fn view(&self) -> DragModel {
        DragModel {
            dragging: name_of(self.dragging),
            source_container: self.source_container,
            drop_target: self.drop_target,
            drop_zone: self.drop_zone,
            drag_position: self.drag_position,
            potential_drag_panel: name_of(self.potential_drag_panel),
            potential_drag_container: self.potential_drag_container,
            drag_start_position: self.drag_start_position,
        }
    }
}

/// The pointer has moved from `a` to `b` by more than `DRAG_THRESHOLD`.
pub open spec fn moved_beyond_threshold(a: Point, b: Point) -> bool {
    (b.x - a.x) * (b.x - a.x) + (b.y - a.y) * (b.y - a.y) > DRAG_THRESHOLD * DRAG_THRESHOLD
}

/// A normalised position lies within the container's bounds.
pub open spec fn inside(x: int, y: int) -> bool {
    0 <= x <= ONE && 0 <= y <= ONE
}

/// The first container, in the host's order, with the pointer inside it, and
/// the zone of that container under the pointer.
pub open spec fn hover_target(cs: Seq<ContainerCursor>) -> Option<(DockId, DropZone)>
    decreases cs.len(),
{
    if cs.len() == 0 {
        None
    } else {
        match cs[0].normalized {
            Some((x, y)) => if inside(x as int, y as int) {
                Some((cs[0].container.id, zone_of(x as int, y as int)))
            } else {
                hover_target(cs.drop_first())
            },
            None => hover_target(cs.drop_first()),
        }
    }
}

impl DragModel {
    /// No drag is under way.
    pub open spec fn is_idle(self) -> bool {
        self.dragging is None && self.potential_drag_panel is None
    }

    /// The session's fields agree with one another: a potential drag has its
    /// container and press position, a drag is never both potential and
    /// active, and a drop target comes with its zone only during a drag.
    pub open spec fn wf(self) -> bool {
        &&& self.potential_drag_panel.is_some() == self.potential_drag_container.is_some()
        &&& self.potential_drag_panel.is_some() == self.drag_start_position.is_some()
        &&& !(self.dragging.is_some() && self.potential_drag_panel.is_some())
        &&& self.drop_target.is_some() == self.drop_zone.is_some()
        &&& self.dragging is None ==> self.drop_target is None
    }

    /// A press on `grabbed` (a panel and its container) at `cursor`, from idle,
    /// records a potential drag; otherwise nothing changes.
    pub open spec fn press(self, cursor: Point, grabbed: (Seq<char>, DockId)) -> DragModel {
        if self.is_idle() {
            DragModel {
                potential_drag_panel: Some(grabbed.0),
                potential_drag_container: Some(grabbed.1),
                drag_start_position: Some(cursor),
                ..self
            }
        } else {
            self
        }
    }

    /// A potential drag whose pointer is at `cursor` while held becomes active
    /// once it has moved beyond the threshold.
    pub open spec fn hold(self, cursor: Point) -> DragModel {
        match (self.potential_drag_panel, self.drag_start_position) {
            (Some(p), Some(start)) => if moved_beyond_threshold(start, cursor) {
                DragModel {
                    dragging: Some(p),
                    source_container: self.potential_drag_container,
                    drag_position: cursor,
                    potential_drag_panel: None,
                    potential_drag_container: None,
                    drag_start_position: None,
                    ..self
                }
            } else {
                self
            },
            _ => self,
        }
    }

    /// A release forgets a potential drag (it was a click).
    pub open spec fn forget_potential(self) -> DragModel {
        DragModel {
            potential_drag_panel: None,
            potential_drag_container: None,
            drag_start_position: None,
            ..self
        }
    }

    /// During an active drag, the drop target and zone become those under the
    /// pointer, or none.
    pub open spec fn hover(self, cs: Seq<ContainerCursor>) -> DragModel {
        if self.dragging is None {
            self
        } else {
            match hover_target(cs) {
                Some((t, z)) => DragModel { drop_target: Some(t), drop_zone: Some(z), ..self },
                None => DragModel { drop_target: None, drop_zone: None, ..self },
            }
        }
    }

    /// A release ends an active drag: every field of it is cleared.
    pub open spec fn end_drag(self) -> DragModel {
        DragModel {
            dragging: None,
            source_container: None,
            drop_target: None,
            drop_zone: None,
            ..self
        }
    }

    /// What a release does to the layout: an active drag with a recorded
    /// target and zone moves the dragged panel there.
    pub open spec fn drop_effect(self, l: LayoutModel) -> LayoutModel {
        match (self.dragging, self.drop_target, self.drop_zone) {
            (Some(p), Some(t), Some(z)) => l.remove_panel(p).place(p, t, z),
            _ => l,
        }
    }
}

impl Default for DockDragState {
    /// An idle session.
    fn default() -> (s: DockDragState)
        ensures
            s@.is_idle(),
            s@.wf(),
            s@.source_container is None,
            s@.drag_start_position is None,
    {
        DockDragState {
            dragging: None,
            source_container: None,
            drop_target: None,
            drop_zone: None,
            drag_position: Point { x: 0, y: 0 },
            potential_drag_panel: None,
            potential_drag_container: None,
            drag_start_position: None,
        }
    }
}

/// Whether the pointer has moved from `a` to `b` by more than
/// `DRAG_THRESHOLD` pixels.
pub fn beyond_threshold(a: Point, b: Point) -> (r: bool)
    ensures
        r == moved_beyond_threshold(a, b),
{
    let dx: i128 = b.x as i128 - a.x as i128;
    let dy: i128 = b.y as i128 - a.y as i128;
    assert(dx * dx <= 0x1_0000_0000_0000_0000) by (nonlinear_arith)
        requires
            -0x1_0000_0000 <= dx <= 0x1_0000_0000,
    ;
    assert(dy * dy <= 0x1_0000_0000_0000_0000) by (nonlinear_arith)
        requires
            -0x1_0000_0000 <= dy <= 0x1_0000_0000,
    ;
    assert(dx * dx >= 0 && dy * dy >= 0) by (nonlinear_arith);
    dx * dx + dy * dy > (DRAG_THRESHOLD * DRAG_THRESHOLD) as i128
}

/// On a press with the pointer at `cursor`: from idle, a press on a header
/// (or else on a tab) records a potential drag of its panel. Headers are
/// preferred to tabs, as a header stands over a single-panel container.
pub fn handle_panel_drag_start(
    drag_state: &mut DockDragState,
    just_pressed: bool,
    cursor: Option<Point>,
    header: Option<&PanelHeader>,
    tab: Option<&PanelTab>,
)
    ensures
        final(drag_state)@ == (if just_pressed && cursor.is_some() {
            match (header, tab) {
                (Some(h), _) => old(drag_state)@.press(cursor->0, (h.panel_id@, h.container_id)),
                (None, Some(t)) => old(drag_state)@.press(cursor->0, (t.panel_id@, t.container_id)),
                (None, None) => old(drag_state)@,
            }
        } else {
            old(drag_state)@
        }),
        old(drag_state)@.wf() ==> final(drag_state)@.wf(),
{
    if !just_pressed || drag_state.dragging.is_some() || drag_state.potential_drag_panel.is_some() {
        return;
    }
    if let Some(c) = cursor {
        match header {
            Some(h) => {
                drag_state.potential_drag_panel = Some(h.panel_id.clone());
                drag_state.potential_drag_container = Some(h.container_id);
                drag_state.drag_start_position = Some(c);
            },
            None => match tab {
                Some(t) => {
                    drag_state.potential_drag_panel = Some(t.panel_id.clone());
                    drag_state.potential_drag_container = Some(t.container_id);
                    drag_state.drag_start_position = Some(c);
                },
                None => {},
            },
        }
    }
}

/// While the button is held, a potential drag whose pointer has moved beyond
/// the threshold becomes active. On release, a potential drag is forgotten.
pub fn activate_drag_on_threshold(
    drag_state: &mut DockDragState,
    pressed: bool,
    just_released: bool,
    cursor: Option<Point>,
)
    ensures
        ({
            let held = if pressed && cursor.is_some() {
                old(drag_state)@.hold(cursor->0)
            } else {
                old(drag_state)@
            };
            final(drag_state)@ == if just_released {
                held.forget_potential()
            } else {
                held
            }
        }),
        old(drag_state)@.wf() ==> final(drag_state)@.wf(),
{
    if pressed {
        if let Some(c) = cursor {
            if let Some(start) = drag_state.drag_start_position {
                if drag_state.potential_drag_panel.is_some() && beyond_threshold(start, c) {
                    drag_state.dragging = drag_state.potential_drag_panel.take();
                    drag_state.source_container = drag_state.potential_drag_container.take();
                    drag_state.drag_position = c;
                    drag_state.drag_start_position = None;
                }
            }
        }
    }
    if just_released {
        drag_state.potential_drag_panel = None;
        drag_state.potential_drag_container = None;
        drag_state.drag_start_position = None;
    }
}

/// The first container, in order, with the pointer inside it, and the zone
/// under the pointer.
pub fn find_hover_target(containers: &Vec<ContainerCursor>) -> (r: Option<(DockId, DropZone)>)
    ensures
        r == hover_target(containers@),
{
    let ghost cs = containers@;
    let mut i: usize = 0;
    assert(cs.subrange(0, cs.len() as int) =~= cs);
    while i < containers.len()
        invariant
            i <= containers.len(),
            cs == containers@,
            hover_target(cs.subrange(i as int, cs.len() as int)) == hover_target(cs),
        decreases containers.len() - i,
    {
        let ghost rest = cs.subrange(i as int, cs.len() as int);
        assert(rest.drop_first() =~= cs.subrange(i + 1, cs.len() as int));
        assert(rest[0] == cs[i as int]);
        let c = containers[i];
        if let Some((x, y)) = c.normalized {
            if 0 <= x && x <= ONE && 0 <= y && y <= ONE {
                return Some((c.container.id, classify(x, y)));
            }
        }
        i = i + 1;
    }
    assert(cs.subrange(i as int, cs.len() as int) =~= Seq::<ContainerCursor>::empty());
    None
}

/// During an active drag, records the container under the pointer and the
/// zone of it under the pointer, or clears both when the pointer is over no
/// container.
pub fn handle_panel_drag_over(drag_state: &mut DockDragState, containers: &Vec<ContainerCursor>)
    ensures
        final(drag_state)@ == old(drag_state)@.hover(containers@),
        old(drag_state)@.wf() ==> final(drag_state)@.wf(),
{
    if drag_state.dragging.is_none() {
        return;
    }
    match find_hover_target(containers) {
        Some((t, z)) => {
            drag_state.drop_target = Some(t);
            drag_state.drop_zone = Some(z);
        },
        None => {
            drag_state.drop_target = None;
            drag_state.drop_zone = None;
        },
    }
}

/// On release, an active drag with a recorded target and zone moves the
/// dragged panel out of its container and docks it there; in every case the
/// drag ends.
pub fn handle_panel_drop(drag_state: &mut DockDragState, layout: &mut DockingLayout, just_released: bool)
    ensures
        just_released ==> final(layout)@ == old(drag_state)@.drop_effect(old(layout)@),
        just_released ==> final(drag_state)@ == old(drag_state)@.end_drag(),
        !just_released ==> final(layout)@ == old(layout)@ && final(drag_state)@ == old(drag_state)@,
        old(layout)@.wf() ==> final(layout)@.wf(),
        old(drag_state)@.wf() ==> final(drag_state)@.wf(),
{
    if !just_released {
        return;
    }
    if let Some(panel_id) = &drag_state.dragging {
        match (drag_state.drop_target, drag_state.drop_zone) {
            (Some(target), Some(zone)) => {
                layout.remove_panel(panel_id.as_str());
                layout.dock_panel(panel_id.clone(), target, zone);
            },
            _ => {},
        }
    }
    drag_state.dragging = None;
    drag_state.source_container = None;
    drag_state.drop_target = None;
    drag_state.drop_zone = None;
}

/// During an active drag with a drop target that is among `containers`,
/// recomputes the zone from the pointer's position within the whole window
/// (`window` is its size). Nothing changes when the window has no area.
pub fn update_drop_zone_from_cursor(
    drag_state: &mut DockDragState,
    containers: &Vec<DockContainer>,
    cursor: Option<Point>,
    window: Extent,
)
    ensures
        ({
            let s = old(drag_state)@;
            if s.dragging.is_some() && s.drop_target.is_some() && containers@.contains(
                DockContainer { id: s.drop_target->0 },
            ) && cursor.is_some() && window.width > 0 && window.height > 0 {
                final(drag_state)@ == DragModel {
                    drop_zone: Some(
                        zone_of(
                            window_fraction(cursor->0.x as int, window.width as int),
                            window_fraction(cursor->0.y as int, window.height as int),
                        ),
                    ),
                    ..s
                }
            } else {
                final(drag_state)@ == s
            }
        }),
        old(drag_state)@.wf() ==> final(drag_state)@.wf(),
{
    if drag_state.dragging.is_none() || window.width == 0 || window.height == 0 {
        return;
    }
    if let (Some(target), Some(c)) = (drag_state.drop_target, cursor) {
        let mut i: usize = 0;
        while i < containers.len()
            invariant
                i <= containers.len(),
                *drag_state == *old(drag_state),
                window.width > 0 && window.height > 0,
                drag_state.dragging.is_some(),
                drag_state.drop_target == Some(target),
                cursor == Some(c),
                forall|j: int| 0 <= j < i ==> containers@[j] != (DockContainer { id: target }),
            decreases containers.len() - i,
        {
            if containers[i].id == target {
                let x = fraction_of_window(c.x, window.width);
                let y = fraction_of_window(c.y, window.height);
                drag_state.drop_zone = Some(classify(x, y));
                assert(containers@[i as int] == (DockContainer { id: target }));
                return;
            }
            i = i + 1;
        }
    }
}

/// `pos` as a fraction of `size`, clamped to `[0, ONE]`.
pub open spec fn window_fraction(pos: int, size: int) -> int {
    if pos <= 0 {
        0
    } else if pos >= size {
        ONE as int
    } else {
        pos * ONE / size
    }
}

/// A pixel position as a fraction of a window's extent, clamped to
/// `[0, ONE]`.
pub fn fraction_of_window(pos: i32, size: u32) -> (r: i64)
    requires
        size > 0,
    ensures
        r == window_fraction(pos as int, size as int),
        0 <= r <= ONE,
{
    if pos <= 0 {
        0
    } else if pos as i64 >= size as i64 {
        ONE
    } else {
        let p = pos as i64;
        let s = size as i64;
        assert(0 <= p * ONE <= 0x8000_0000 * 1_000_000) by (nonlinear_arith)
            requires
                0 < p < 0x8000_0000,
        ;
        assert((p as int) * 1_000_000 / (s as int) <= 1_000_000) by (nonlinear_arith)
            requires
                0 < p < s,
        ;
        assert((p as int) * 1_000_000 / (s as int) >= 0) by (nonlinear_arith)
            requires
                0 < p < s,
        ;
        p * ONE / s
    }
}

/// What presses on `tabs`, in order, do to a layout: each brings its panel
/// to the front of its container.
pub open spec fn after_tab_clicks(l: LayoutModel, tabs: Seq<PanelTab>) -> LayoutModel
    decreases tabs.len(),
{
    if tabs.len() == 0 {
        l
    } else {
        after_tab_clicks(l.set_active(tabs[0].container_id, tabs[0].panel_id@), tabs.drop_first())
    }
}

/// Keeping a layout well formed through a run of tab presses.
pub proof fn lemma_after_tab_clicks_wf(l: LayoutModel, tabs: Seq<PanelTab>)
    requires
        l.wf(),
    ensures
        after_tab_clicks(l, tabs).wf(),
    decreases tabs.len(),
{
    if tabs.len() > 0 {
        lemma_set_active_wf(l, tabs[0].container_id, tabs[0].panel_id@);
        lemma_after_tab_clicks_wf(
            l.set_active(tabs[0].container_id, tabs[0].panel_id@),
            tabs.drop_first(),
        );
    }
}

/// Brings the panel of each pressed tab, in order, to the front of its
/// container.
pub fn handle_tab_clicks(pressed_tabs: &Vec<PanelTab>, layout: &mut DockingLayout)
    ensures
        final(layout)@ == after_tab_clicks(old(layout)@, pressed_tabs@),
        old(layout)@.wf() ==> final(layout)@.wf(),
{
    proof {
        if old(layout)@.wf() {
            lemma_after_tab_clicks_wf(old(layout)@, pressed_tabs@);
        }
    }
    let ghost ts = pressed_tabs@;
    let ghost goal = after_tab_clicks(layout@, ts);
    assert(ts.subrange(0, ts.len() as int) =~= ts);
    let mut i: usize = 0;
    while i < pressed_tabs.len()
        invariant
            i <= pressed_tabs.len(),
            ts == pressed_tabs@,
            after_tab_clicks(layout@, ts.subrange(i as int, ts.len() as int)) == goal,
        decreases pressed_tabs.len() - i,
    {
        let ghost rest = ts.subrange(i as int, ts.len() as int);
        assert(rest.drop_first() =~= ts.subrange(i + 1, ts.len() as int));
        assert(rest[0] == ts[i as int]);
        let tab = &pressed_tabs[i];
        layout.set_active_panel(tab.container_id, tab.panel_id.as_str());
        i = i + 1;
    }
    assert(ts.subrange(i as int, ts.len() as int) =~= Seq::<PanelTab>::empty());
}

/// The session after the button is held through the pointer positions `ps`.
pub open spec fn hold_all(s: DragModel, ps: Seq<Point>) -> DragModel
    decreases ps.len(),
{
    if ps.len() == 0 {
        s
    } else {
        hold_all(s.hold(ps[0]), ps.drop_first())
    }
}

/// A press whose pointer never moves beyond the threshold while held is a
/// click: whatever the pointer is over at the release, the layout is left as
/// it was, and the session is idle again.
pub proof fn lemma_click_keeps_layout(
    s: DragModel,
    l: LayoutModel,
    start: Point,
    grabbed: (Seq<char>, DockId),
    ps: Seq<Point>,
    cs: Seq<ContainerCursor>,
)
    requires
        s.is_idle(),
        forall|k: int| 0 <= k < ps.len() ==> !moved_beyond_threshold(start, #[trigger] ps[k]),
    ensures
        ({
            let held = hold_all(s.press(start, grabbed), ps).hover(cs);
            &&& held.drop_effect(l) == l
            &&& held.forget_potential().end_drag().is_idle()
        }),
    decreases ps.len(),
{
    let s1 = s.press(start, grabbed);
    lemma_hold_below_threshold(s1, start, ps);
}

proof fn lemma_hold_below_threshold(s: DragModel, start: Point, ps: Seq<Point>)
    requires
        s.dragging is None,
        s.drag_start_position == Some(start),
        s.potential_drag_panel is Some,
        forall|k: int| 0 <= k < ps.len() ==> !moved_beyond_threshold(start, #[trigger] ps[k]),
    ensures
        hold_all(s, ps) == s,
    decreases ps.len(),
{
    if ps.len() > 0 {
        assert(!moved_beyond_threshold(start, ps[0]));
        assert forall|k: int| 0 <= k < ps.drop_first().len() implies !moved_beyond_threshold(
            start,
            #[trigger] ps.drop_first()[k],
        ) by {
            assert(ps.drop_first()[k] == ps[k + 1]);
        }
        lemma_hold_below_threshold(s, start, ps.drop_first());
    }
}

/// A press on a panel whose pointer moves beyond the threshold while held,
/// and is released over a container, moves the panel: the layout becomes the
/// one where the panel is taken out of its container and docked at the
/// target as the zone says. The layout changes when the target is a
/// container of the tree: on an edge zone (with handles left) a new split is
/// made; on the centre, if the container did not hold the panel, the panel
/// joins its tabs.
pub proof fn lemma_drag_moves_panel(
    s: DragModel,
    l: LayoutModel,
    start: Point,
    grabbed: (Seq<char>, DockId),
    at: Point,
    cs: Seq<ContainerCursor>,
)
    requires
        s.is_idle(),
        moved_beyond_threshold(start, at),
        hover_target(cs) is Some,
    ensures
        ({
            let held = s.press(start, grabbed).hold(at).hover(cs);
            let (t, z) = hover_target(cs)->0;
            &&& held.drop_effect(l) == l.remove_panel(grabbed.0).place(grabbed.0, t, z)
            &&& (z != DropZone::Center && l.root is Some && l.root->0.has_container(t) && l.next_id
                + 3 <= u64::MAX) ==> held.drop_effect(l) != l
            &&& (z == DropZone::Center && l.root is Some && l.root->0.tabs_at(t) is Some
                && !l.root->0.tabs_at(t)->0.contains(grabbed.0)) ==> held.drop_effect(l) != l
        }),
{
    let (t, z) = hover_target(cs)->0;
    if let Some(n) = l.root {
        lemma_without_panel_containers(n, grabbed.0, t);
        if z == DropZone::Center && n.tabs_at(t) is Some && !n.tabs_at(t)->0.contains(grabbed.0) {
            let ts = n.tabs_at(t)->0;
            lemma_tabs_at_removed(n, t, grabbed.0);
            lemma_tabs_at_added(n.without_panel(grabbed.0), t, grabbed.0);
            assert(ts.push(grabbed.0).len() != ts.len());
        }
    }
}

} // verus!
