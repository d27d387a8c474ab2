//! Whether the lyric capsule window takes the mouse: the capsule is a
//! rounded bar (taller when expanded) inside a transparent window, and the
//! window lets clicks through everywhere else. The cursor position is read
//! and the window updated outside the library.
use vstd::prelude::*;

verus! {

/// How often the mapper looks at the cursor while the capsule takes the
/// mouse, and while it does not.
pub const MAPPER_ACTIVE_INTERVAL_MS: u64 = 16;
pub const MAPPER_IDLE_INTERVAL_MS: u64 = 28;

/// The capsule's bar in window pixels: left, top and right edges, and the
/// bottom edge when collapsed and when expanded.
#[derive(Debug, Clone, Copy, PartialEq, Eq, Structural)]
pub struct CapsuleMappedRegion {
    pub left: i32,
    pub top: i32,
    pub right: i32,
    pub collapsed_bottom: i32,
    pub expanded_bottom: i32,
}

/// What the mapper knows of a capsule window.
#[derive(Debug, Clone, Copy, PartialEq, Eq, Structural)]
pub struct CapsuleMouseMapState {
    pub region: CapsuleMappedRegion,
    pub expanded: bool,
    pub hovering: bool,
    pub ignore_cursor_events: Option<bool>,
}

/// The point (`x`, `y`) lies in the bar: inside its rectangle, and within
/// the half-discs that round its ends (the bar's height is its diameter).
/// Lengths are doubled so that the test is exact in integers.
pub open spec fn inside_rounded(region: CapsuleMappedRegion, x: int, y: int, expanded: bool) -> bool {
    let bottom: int = if expanded {
        region.expanded_bottom as int
    } else {
        region.collapsed_bottom as int
    };
    if x < region.left || x >= region.right || y < region.top || y >= bottom {
        false
    } else {
        let width: int = if region.right - region.left > 1 {
            region.right - region.left
        } else {
            1
        };
        let height: int = if bottom - region.top > 1 {
            bottom - region.top
        } else {
            1
        };
        let px2 = 2 * (x - region.left);
        let py2 = 2 * (y - region.top);
        if px2 >= height && px2 <= 2 * width - height {
            true
        } else {
            let cx2 = if px2 < height {
                height
            } else {
                2 * width - height
            };
            (px2 - cx2) * (px2 - cx2) + (py2 - height) * (py2 - height) <= height * height
        }
    }
}

/// Whether (`x`, `y`) lies in the capsule's rounded bar.
pub fn is_inside_rounded_region(region: CapsuleMappedRegion, x: i32, y: i32, expanded: bool) -> (r: bool)
    ensures
        r == inside_rounded(region, x as int, y as int, expanded),
{
    let bottom: i32 = if expanded {
        region.expanded_bottom
    } else {
        region.collapsed_bottom
    };
    if x < region.left || x >= region.right || y < region.top || y >= bottom {
        return false;
    }
    let w: i128 = (region.right as i128) - (region.left as i128);
    let width: i128 = if w > 1 {
        w
    } else {
        1
    };
    let h: i128 = (bottom as i128) - (region.top as i128);
    let height: i128 = if h > 1 {
        h
    } else {
        1
    };
    let px2: i128 = 2 * ((x as i128) - (region.left as i128));
    let py2: i128 = 2 * ((y as i128) - (region.top as i128));
    if px2 >= height && px2 <= 2 * width - height {
        return true;
    }
    let cx2: i128 = if px2 < height {
        height
    } else {
        2 * width - height
    };
    let dx: i128 = px2 - cx2;
    let dy: i128 = py2 - height;
    assert(-0x4_0000_0000 <= dx <= 0x4_0000_0000);
    assert(-0x4_0000_0000 <= dy <= 0x4_0000_0000);
    assert(0 <= dx * dx <= 0x10_0000_0000_0000_0000) by (nonlinear_arith)
        requires
            -0x4_0000_0000 <= dx <= 0x4_0000_0000,
    ;
    assert(0 <= dy * dy <= 0x10_0000_0000_0000_0000) by (nonlinear_arith)
        requires
            -0x4_0000_0000 <= dy <= 0x4_0000_0000,
    ;
    assert(0 <= height * height <= 0x10_0000_0000_0000_0000) by (nonlinear_arith)
        requires
            1 <= height <= 0x2_0000_0000,
    ;
    dx * dx + dy * dy <= height * height
}

/// The cursor offset within the window, saturating like `i32::saturating_sub`.
pub open spec fn saturating_offset(a: i32, b: i32) -> int {
    let d = a - b;
    if d > i32::MAX {
        i32::MAX as int
    } else if d < i32::MIN {
        i32::MIN as int
    } else {
        d
    }
}

fn offset_within(a: i32, b: i32) -> (r: i32)
    ensures
        r == saturating_offset(a, b),
{
    let d: i64 = (a as i64) - (b as i64);
    if d > i32::MAX as i64 {
        i32::MAX
    } else if d < i32::MIN as i64 {
        i32::MIN
    } else {
        d as i32
    }
}

/// One look at the cursor at (`cursor_x`, `cursor_y`) on a window whose
/// top-left corner is at (`window_left`, `window_top`). The capsule takes
/// the mouse inside its collapsed bar, or inside its expanded bar while it
/// is expanded or hovered; hovering starts in the collapsed bar and lasts
/// while the cursor stays in the expanded one. Returns the new
/// click-through setting when it changed, and how long to wait before the
/// next look.
pub fn next_ignore_cursor_state(
    state: &mut CapsuleMouseMapState,
    cursor_x: i32,
    cursor_y: i32,
    window_left: i32,
    window_top: i32,
) -> (r: (Option<bool>, u64))
    ensures
        ({
            let x = saturating_offset(cursor_x, window_left);
            let y = saturating_offset(cursor_y, window_top);
            let inside_collapsed = inside_rounded(old(state).region, x, y, false);
            let inside_expanded = inside_rounded(old(state).region, x, y, true);
            let hovering = inside_collapsed || (old(state).hovering && inside_expanded);
            let interactive = inside_collapsed || ((old(state).expanded || hovering) && inside_expanded);
            let changed = old(state).ignore_cursor_events != Some(!interactive);
            &&& final(state).region == old(state).region
            &&& final(state).expanded == old(state).expanded
            &&& final(state).hovering == hovering
            &&& final(state).ignore_cursor_events == Some(!interactive)
            &&& r.0 == (if changed {
                Some(!interactive)
            } else {
                None
            })
            &&& r.1 == (if interactive {
                MAPPER_ACTIVE_INTERVAL_MS
            } else {
                MAPPER_IDLE_INTERVAL_MS
            })
        }),
{
    let x = offset_within(cursor_x, window_left);
    let y = offset_within(cursor_y, window_top);
    let inside_collapsed = is_inside_rounded_region(state.region, x, y, false);
    let inside_expanded = is_inside_rounded_region(state.region, x, y, true);
    state.hovering = inside_collapsed || (state.hovering && inside_expanded);
    let interactive = inside_collapsed || ((state.expanded || state.hovering) && inside_expanded);
    let next_ignore = !interactive;
    let should_update = match state.ignore_cursor_events {
        Some(current) => current != next_ignore,
        None => true,
    };
    if should_update {
        state.ignore_cursor_events = Some(next_ignore);
    }
    let sleep_ms = if interactive {
        MAPPER_ACTIVE_INTERVAL_MS
    } else {
        MAPPER_IDLE_INTERVAL_MS
    };
    (
        if should_update {
            Some(next_ignore)
        } else {
            None
        },
        sleep_ms,
    )
}

} // verus!
