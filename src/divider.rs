//! Resizing a split by dragging its divider.
//!
//! The session runs `Idle -> Dragging -> Idle`. There is no threshold: while
//! held, the divider follows the pointer from the first pixel.

use vstd::prelude::*;
use crate::fixed::{HALF, ONE};
use crate::layout::{DockingLayout, Extent, LayoutModel, Point};
use crate::tree::{DockId, SplitDirection};

verus! {

/// A divider as laid out on screen: the split it belongs to, and its axis.
#[derive(Debug, Clone, Copy, PartialEq, Eq, Structural)]
pub struct SplitDivider {
    pub split_id: DockId,
    pub direction: SplitDirection,
}

/// The state of a divider drag.
#[derive(Debug, Clone, Copy, PartialEq, Eq, Structural)]
pub struct DividerDragState {
    /// The split whose divider is being dragged.
    pub dragging: Option<DockId>,
    /// Its ratio when the drag started, in millionths.
    pub original_ratio: u32,
    /// The pointer when the drag started.
    pub start_position: Point,
}

impl Default for DividerDragState {
    /// No divider being dragged.
    fn default() -> (s: DividerDragState)
        ensures
            s.dragging is None,
    {
        DividerDragState { dragging: None, original_ratio: 0, start_position: Point { x: 0, y: 0 } }
    }
}

/// The ratio of the split with handle `t`, or an even split when the tree
/// has no such split.
pub open spec fn ratio_or_half(l: LayoutModel, t: DockId) -> int {
    match l.root {
        Some(n) => match n.ratio_of(t) {
            Some(r) => r,
            None => HALF as int,
        },
        None => HALF as int,
    }
}

/// The axis of the first divider, in the host's order, of split `t`.
pub open spec fn divider_direction(ds: Seq<SplitDivider>, t: DockId) -> Option<SplitDirection>
    decreases ds.len(),
{
    if ds.len() == 0 {
        None
    } else if ds[0].split_id == t {
        Some(ds[0].direction)
    } else {
        divider_direction(ds.drop_first(), t)
    }
}

/// A movement of `delta` pixels across an extent of `size` pixels, as a
/// fraction in millionths, rounded toward zero.
pub open spec fn ratio_delta(delta: int, size: int) -> int {
    if delta >= 0 {
        delta * ONE / size
    } else {
        -((-delta) * ONE / size)
    }
}

/// The ratio a dragged divider asks for: the ratio at the press, moved by the
/// pointer's travel along the split's axis as a fraction of the extent.
pub open spec fn dragged_ratio(
    s: DividerDragState,
    cursor: Point,
    direction: SplitDirection,
    extent: Extent,
) -> int {
    match direction {
        SplitDirection::Horizontal => s.original_ratio + ratio_delta(
            cursor.x - s.start_position.x,
            extent.width as int,
        ),
        SplitDirection::Vertical => s.original_ratio + ratio_delta(
            cursor.y - s.start_position.y,
            extent.height as int,
        ),
    }
}

/// The extent along a split's axis.
pub open spec fn axis_size(direction: SplitDirection, extent: Extent) -> int {
    match direction {
        SplitDirection::Horizontal => extent.width as int,
        SplitDirection::Vertical => extent.height as int,
    }
}

/// On a press over a divider with the pointer at `cursor`, starts a drag of
/// it, remembering the split's current ratio (an even split if the tree has
/// no such split) and the pointer.
pub fn handle_divider_drag_start(
    drag_state: &mut DividerDragState,
    layout: &DockingLayout,
    just_pressed: bool,
    pressed_divider: Option<&SplitDivider>,
    cursor: Option<Point>,
)
    ensures
        *final(drag_state) == (if just_pressed && pressed_divider.is_some() && cursor.is_some() {
            DividerDragState {
                dragging: Some(pressed_divider->0.split_id),
                original_ratio: ratio_or_half(layout@, pressed_divider->0.split_id) as u32,
                start_position: cursor->0,
            }
        } else {
            *old(drag_state)
        }),
{
    if !just_pressed {
        return;
    }
    if let (Some(d), Some(c)) = (pressed_divider, cursor) {
        let ratio = match layout.find_split_ratio(d.split_id) {
            Some(r) => r,
            None => HALF as u32,
        };
        drag_state.dragging = Some(d.split_id);
        drag_state.original_ratio = ratio;
        drag_state.start_position = c;
    }
}

/// The axis of the first divider in `dividers` of split `t`.
pub fn find_divider_direction(dividers: &Vec<SplitDivider>, t: DockId) -> (r: Option<SplitDirection>)
    ensures
        r == divider_direction(dividers@, t),
{
    let ghost ds = dividers@;
    assert(ds.subrange(0, ds.len() as int) =~= ds);
    let mut i: usize = 0;
    while i < dividers.len()
        invariant
            i <= dividers.len(),
            ds == dividers@,
            divider_direction(ds.subrange(i as int, ds.len() as int), t) == divider_direction(ds, t),
        decreases dividers.len() - i,
    {
        let ghost rest = ds.subrange(i as int, ds.len() as int);
        assert(rest.drop_first() =~= ds.subrange(i + 1, ds.len() as int));
        assert(rest[0] == ds[i as int]);
        if dividers[i].split_id == t {
            return Some(dividers[i].direction);
        }
        i = i + 1;
    }
    assert(ds.subrange(i as int, ds.len() as int) =~= Seq::<SplitDivider>::empty());
    None
}

/// A movement of `delta` pixels across `size` pixels as a fraction in
/// millionths, rounded toward zero.
pub fn fraction_of(delta: i64, size: u32) -> (r: i64)
    requires
        size > 0,
        -0x1_0000_0000 <= delta <= 0x1_0000_0000,
    ensures
        r == ratio_delta(delta as int, size as int),
        -0x1_0000_0000 * ONE <= r <= 0x1_0000_0000 * ONE,
{
    let s = size as i64;
    if delta >= 0 {
        assert(0 <= delta * ONE <= 0x1_0000_0000 * 1_000_000) by (nonlinear_arith)
            requires
                0 <= delta <= 0x1_0000_0000,
        ;
        assert(0 <= (delta as int) * 1_000_000 / (s as int) <= (delta as int) * 1_000_000) by (nonlinear_arith)
            requires
                0 <= delta,
                s >= 1,
        ;
        delta * ONE / s
    } else {
        let m = -delta;
        assert(0 <= m * ONE <= 0x1_0000_0000 * 1_000_000) by (nonlinear_arith)
            requires
                0 <= m <= 0x1_0000_0000,
        ;
        assert(0 <= (m as int) * 1_000_000 / (s as int) <= (m as int) * 1_000_000) by (nonlinear_arith)
            requires
                0 <= m,
                s >= 1,
        ;
        -(m * ONE / s)
    }
}

/// While the button is held during a divider drag, sets the split's ratio to
/// the one the pointer asks for (clamped by `update_split_ratio`). `dividers`
/// gives the axis of each divider on screen; `extent` is the size of the
/// region the split divides. Nothing changes when the divider is not on
/// screen or the region has no extent along its axis.
pub fn handle_divider_drag(
    drag_state: &DividerDragState,
    layout: &mut DockingLayout,
    pressed: bool,
    cursor: Option<Point>,
    dividers: &Vec<SplitDivider>,
    extent: Extent,
)
    ensures
        ({
            let t = drag_state.dragging->0;
            let dir = divider_direction(dividers@, t);
            if drag_state.dragging.is_some() && pressed && cursor.is_some() && dir.is_some()
                && axis_size(dir->0, extent) > 0 {
                final(layout)@ == old(layout)@.set_ratio(
                    t,
                    dragged_ratio(*drag_state, cursor->0, dir->0, extent),
                )
            } else {
                final(layout)@ == old(layout)@
            }
        }),
        old(layout)@.wf() ==> final(layout)@.wf(),
{
    if !pressed {
        return;
    }
    if let (Some(t), Some(c)) = (drag_state.dragging, cursor) {
        if let Some(dir) = find_divider_direction(dividers, t) {
            let (delta, size) = match dir {
                SplitDirection::Horizontal => (
                    c.x as i64 - drag_state.start_position.x as i64,
                    extent.width,
                ),
                SplitDirection::Vertical => (
                    c.y as i64 - drag_state.start_position.y as i64,
                    extent.height,
                ),
            };
            if size > 0 {
                let d = fraction_of(delta, size);
                layout.update_split_ratio(t, drag_state.original_ratio as i64 + d);
            }
        }
    }
}

/// On release, ends the divider drag.
pub fn handle_divider_drag_end(drag_state: &mut DividerDragState, just_released: bool)
    ensures
        *final(drag_state) == (if just_released {
            DividerDragState { dragging: None, ..*old(drag_state) }
        } else {
            *old(drag_state)
        }),
{
    if just_released {
        drag_state.dragging = None;
    }
}

} // verus!
