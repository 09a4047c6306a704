//! Drop zones: where, within a container, a dragged panel is let go.

use vstd::prelude::*;

verus! {

/// The edge bands of a container are this deep (0.3 of its extent).
pub const EDGE: i64 = 300_000;

/// The far edge bands start here (0.7 of its extent).
pub const FAR_EDGE: i64 = 700_000;

/// Where a dragged panel lands relative to the container under the pointer.
#[derive(Debug, Clone, Copy, PartialEq, Eq, Structural)]
pub enum DropZone {
    /// Dock to the left of the target.
    Left,
    /// Dock to the right of the target.
    Right,
    /// Dock above the target.
    Top,
    /// Dock below the target.
    Bottom,
    /// Add as a tab of the target container.
    Center,
}

/// The zone of a normalised position: horizontal edges first, then vertical
/// ones, then the centre.
pub open spec fn zone_of(x: int, y: int) -> DropZone {
    if x < EDGE {
        DropZone::Left
    } else if x > FAR_EDGE {
        DropZone::Right
    } else if y < EDGE {
        DropZone::Top
    } else if y > FAR_EDGE {
        DropZone::Bottom
    } else {
        DropZone::Center
    }
}

/// Classifies a position normalised to a container's bounds (`fixed::ONE` is
/// the far edge) into a drop zone.
pub fn classify(x: i64, y: i64) -> (z: DropZone)
    ensures
        z == zone_of(x as int, y as int),
{
    if x < EDGE {
        DropZone::Left
    } else if x > FAR_EDGE {
        DropZone::Right
    } else if y < EDGE {
        DropZone::Top
    } else if y > FAR_EDGE {
        DropZone::Bottom
    } else {
        DropZone::Center
    }
}

} // verus!
