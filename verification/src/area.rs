//! Corner-anchored points and rectangular screen areas.
//!
//! A `Point` stores an offset measured from one of the four screen corners
//! and is resolved to an absolute coordinate only for a concrete terminal
//! size. An `Area` is a pair of points; once resolved it yields a size and a
//! containment test. All operations are total: degenerate input resolves to
//! zero sizes and empty containment rather than failing.

use vstd::prelude::*;

use crate::utils::DiffOrZero;

verus! {

/// Subtraction flooring at zero, as a mathematical function.
pub open spec fn doz(a: int, b: int) -> int {
    if a > b {
        a - b
    } else {
        0
    }
}

/// Which screen corner a `Point`'s offset is measured from.
/// The terminal origin (0, 0) is the top left corner.
#[derive(Clone, Copy, PartialEq, Eq, Structural, Debug)]
pub enum Corner {
    TopLeft,
    TopRight,
    BottomLeft,
    BottomRight,
}

impl Corner {
    /// True when the horizontal offset is measured from the right edge.
    pub open spec fn anchors_right(self) -> bool {
        self == Corner::TopRight || self == Corner::BottomRight
    }

    /// True when the vertical offset is measured from the bottom edge.
    pub open spec fn anchors_bottom(self) -> bool {
        self == Corner::BottomLeft || self == Corner::BottomRight
    }
}

/// A screen coordinate relative to one of the four corners.
#[derive(Clone, Copy, PartialEq, Eq, Structural, Debug)]
pub struct Point {
    pub x: u16,
    pub y: u16,
    pub corner: Corner,
}

impl Point {
    pub fn new(x: u16, y: u16, corner: Corner) -> (p: Point)
        ensures
            p == (Point { x, y, corner }),
    {
        Point { x, y, corner }
    }

    /// Absolute horizontal coordinate for terminal size `t_size`.
    /// Zero for a zero-dimension terminal; clamped at zero for right anchors.
    pub open spec fn abs_x(self, t_size: (u16, u16)) -> int {
        if t_size.0 == 0 || t_size.1 == 0 {
            0
        } else if self.corner.anchors_right() {
            doz(t_size.0 - 1, self.x as int)
        } else {
            self.x as int
        }
    }

    /// Absolute vertical coordinate for terminal size `t_size`.
    pub open spec fn abs_y(self, t_size: (u16, u16)) -> int {
        if t_size.0 == 0 || t_size.1 == 0 {
            0
        } else if self.corner.anchors_bottom() {
            doz(t_size.1 - 1, self.y as int)
        } else {
            self.y as int
        }
    }

    // Returns the absolute position in the terminal screen for this point.
    pub fn absolute_position(&self, t_size: (u16, u16)) -> (r: (u16, u16))
        ensures
            r.0 == self.abs_x(t_size),
            r.1 == self.abs_y(t_size),
    {
        let (t_width, t_height) = t_size;

        if t_width == 0 || t_height == 0 {
            return (0, 0);
        }

        let t_width = t_width - 1;
        let t_height = t_height - 1;

        match self.corner {
            Corner::TopLeft => (self.x, self.y),
            Corner::TopRight => (t_width.diff_or_zero(&self.x), self.y),
            Corner::BottomLeft => (self.x, t_height.diff_or_zero(&self.y)),
            Corner::BottomRight => (
                t_width.diff_or_zero(&self.x),
                t_height.diff_or_zero(&self.y),
            ),
        }
    }
}

/// A rectangular area of the terminal screen, between two corner-anchored
/// points. Immutable once constructed; re-resolved against each terminal size.
#[derive(Clone, Copy, PartialEq, Eq, Structural, Debug)]
pub struct Area {
    pub start: Point,
    pub end: Point,
}

impl Area {
    pub fn new(start: Point, end: Point) -> (a: Area)
        ensures
            a == (Area { start, end }),
    {
        Area { start, end }
    }

    /// True when the resolved end lies before the resolved start on either
    /// axis: such an area has no cells.
    pub open spec fn degenerate(self, t_size: (u16, u16)) -> bool {
        self.start.abs_x(t_size) > self.end.abs_x(t_size) || self.start.abs_y(t_size)
            > self.end.abs_y(t_size)
    }

    /// Resolved width: number of columns covered, zero when degenerate.
    pub open spec fn width(self, t_size: (u16, u16)) -> int {
        if self.degenerate(t_size) {
            0
        } else {
            self.end.abs_x(t_size) - self.start.abs_x(t_size) + 1
        }
    }

    /// Resolved height: number of rows covered, zero when degenerate.
    pub open spec fn height(self, t_size: (u16, u16)) -> int {
        if self.degenerate(t_size) {
            0
        } else {
            self.end.abs_y(t_size) - self.start.abs_y(t_size) + 1
        }
    }

    pub fn size(&self, t_size: (u16, u16)) -> (r: (u16, u16))
        requires
            self.width(t_size) <= u16::MAX,
            self.height(t_size) <= u16::MAX,
        ensures
            r.0 == self.width(t_size),
            r.1 == self.height(t_size),
    {
        let abs_start = self.start.absolute_position(t_size);
        let abs_end = self.end.absolute_position(t_size);

        // If the end point is before the start point this is not a valid area.
        if abs_start.0 > abs_end.0 || abs_start.1 > abs_end.1 {
            return (0, 0);
        }

        (abs_end.0 - abs_start.0 + 1, abs_end.1 - abs_start.1 + 1)
    }

    /// Whether the absolute coordinate (x, y) lies inside the resolved area.
    pub open spec fn spec_inside(self, x: int, y: int, t_size: (u16, u16)) -> bool {
        !self.degenerate(t_size) && self.start.abs_x(t_size) <= x <= self.end.abs_x(t_size)
            && self.start.abs_y(t_size) <= y <= self.end.abs_y(t_size)
    }

    // Check if this (absolute) position is inside this area.
    pub fn check_inside(&self, x: u16, y: u16, t_size: (u16, u16)) -> (r: bool)
        ensures
            r == self.spec_inside(x as int, y as int, t_size),
    {
        let abs_start = self.start.absolute_position(t_size);
        let abs_end = self.end.absolute_position(t_size);

        // If the end point is before the start point this is not a valid area.
        if abs_start.0 > abs_end.0 || abs_start.1 > abs_end.1 {
            return false;
        }

        x >= abs_start.0 && x <= abs_end.0 && y >= abs_start.1 && y <= abs_end.1
    }
}

/// Resolution never leaves the screen: for a non-zero terminal size, the
/// resolved coordinate of a point lies in `[0, terminal_dim - 1]` on each
/// axis. On a left- or top-anchored axis the stored offset must itself be
/// within the terminal, since resolution returns it unchanged there; right-
/// and bottom-anchored axes clamp and need no such bound.
pub proof fn lemma_resolve_within_terminal(p: Point, t_size: (u16, u16))
    requires
        t_size.0 > 0,
        t_size.1 > 0,
        !p.corner.anchors_right() ==> p.x < t_size.0,
        !p.corner.anchors_bottom() ==> p.y < t_size.1,
    ensures
        0 <= p.abs_x(t_size) <= t_size.0 - 1,
        0 <= p.abs_y(t_size) <= t_size.1 - 1,
{
}

/// For a terminal with a zero dimension, resolution is (0, 0) for every
/// point, whatever its anchor.
pub proof fn lemma_resolve_zero_terminal(p: Point, t_size: (u16, u16))
    requires
        t_size.0 == 0 || t_size.1 == 0,
    ensures
        p.abs_x(t_size) == 0,
        p.abs_y(t_size) == 0,
{
}

/// `size` and `check_inside` agree: a point is inside an area exactly when
/// it lies within `[start, start + size)` on both axes, with `start` the
/// resolved start corner.
pub proof fn lemma_size_contains_agree(a: Area, x: int, y: int, t_size: (u16, u16))
    ensures
        a.spec_inside(x, y, t_size) <==> {
            &&& a.start.abs_x(t_size) <= x < a.start.abs_x(t_size) + a.width(t_size)
            &&& a.start.abs_y(t_size) <= y < a.start.abs_y(t_size) + a.height(t_size)
        },
{
}

} // verus!
