//! Plain mouse-input values and event routing.
//!
//! The event loop receives terminal events, turns them into these plain
//! values, and asks `route_mouse` which component the event belongs to.

use vstd::prelude::*;

use crate::area::Area;

verus! {

/// The mouse actions the components react to.
#[derive(Clone, Copy, PartialEq, Eq, Structural, Debug)]
pub enum MouseKind {
    LeftDown,
    LeftUp,
    LeftDrag,
    ScrollUp,
    ScrollDown,
}

/// Which component a mouse position falls on.
#[derive(Clone, Copy, PartialEq, Eq, Structural, Debug)]
pub enum MouseTarget {
    Panel,
    Canvas,
    Outside,
}

/// Decide which component owns a mouse position: the panel wins where the
/// two areas overlap, the canvas comes second, anything else is ignored.
pub fn route_mouse(panel_area: &Area, canvas_area: &Area, x: u16, y: u16, t_size: (u16, u16))
    -> (t: MouseTarget)
    ensures
        t == MouseTarget::Panel <==> panel_area.spec_inside(x as int, y as int, t_size),
        t == MouseTarget::Canvas <==> !panel_area.spec_inside(x as int, y as int, t_size)
            && canvas_area.spec_inside(x as int, y as int, t_size),
        t == MouseTarget::Outside <==> !panel_area.spec_inside(x as int, y as int, t_size)
            && !canvas_area.spec_inside(x as int, y as int, t_size),
{
    if panel_area.check_inside(x, y, t_size) {
        MouseTarget::Panel
    } else if canvas_area.check_inside(x, y, t_size) {
        MouseTarget::Canvas
    } else {
        MouseTarget::Outside
    }
}

} // verus!
