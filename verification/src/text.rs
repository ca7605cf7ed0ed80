//! Full-screen passes for a single image or text block: the drawable
//! crosses the whole display along one axis, centered on the other. The
//! caller clears the display once, then walks the returned plan.

use vstd::prelude::*;

use crate::effects::{dims_ok, is_scroll_plan, Transition};
use crate::geometry::{screen_center, BoundingBox, Point, Size};

verus! {

use crate::effects::center_point_spec;

/// Plan carrying a drawable of size `raw` from beyond the right edge all
/// the way past the left edge, vertically centered.
pub fn scroll_left(raw: Size, screen: Size) -> (t: Transition)
    requires
        dims_ok(raw, screen),
    ensures
        is_scroll_plan(
            t,
            raw,
            (Point { x: screen.width as i32, y: center_point_spec(raw, screen).y }),
            (Point { x: (-(raw.width as int)) as i32, y: center_point_spec(raw, screen).y }),
        ),
{
    let y = screen_center(raw, screen).y;
    let from = Point { x: screen.width as i32, y };
    crate::effects::left_out(BoundingBox { top_left: from, size: raw }, screen)
}

/// Plan carrying a drawable of size `raw` from beyond the left edge all
/// the way past the right edge, vertically centered.
pub fn scroll_right(raw: Size, screen: Size) -> (t: Transition)
    requires
        dims_ok(raw, screen),
    ensures
        is_scroll_plan(
            t,
            raw,
            (Point { x: (-(raw.width as int)) as i32, y: center_point_spec(raw, screen).y }),
            (Point { x: screen.width as i32, y: center_point_spec(raw, screen).y }),
        ),
{
    let y = screen_center(raw, screen).y;
    let from = Point { x: -(raw.width as i32), y };
    crate::effects::right_out(BoundingBox { top_left: from, size: raw }, screen)
}

/// Plan carrying a drawable of size `raw` from below the bottom edge all
/// the way past the top edge, horizontally centered.
pub fn scroll_up(raw: Size, screen: Size) -> (t: Transition)
    requires
        dims_ok(raw, screen),
    ensures
        is_scroll_plan(
            t,
            raw,
            (Point { x: center_point_spec(raw, screen).x, y: screen.height as i32 }),
            (Point { x: center_point_spec(raw, screen).x, y: (-(raw.height as int)) as i32 }),
        ),
{
    let x = screen_center(raw, screen).x;
    let from = Point { x, y: screen.height as i32 };
    crate::effects::up_out(BoundingBox { top_left: from, size: raw }, screen)
}

/// Plan carrying a drawable of size `raw` from above the top edge all the
/// way past the bottom edge, horizontally centered.
pub fn scroll_down(raw: Size, screen: Size) -> (t: Transition)
    requires
        dims_ok(raw, screen),
    ensures
        is_scroll_plan(
            t,
            raw,
            (Point { x: center_point_spec(raw, screen).x, y: (-(raw.height as int)) as i32 }),
            (Point { x: center_point_spec(raw, screen).x, y: screen.height as i32 }),
        ),
{
    let x = screen_center(raw, screen).x;
    let from = Point { x, y: -(raw.height as i32) };
    crate::effects::down_out(BoundingBox { top_left: from, size: raw }, screen)
}

} // verus!
