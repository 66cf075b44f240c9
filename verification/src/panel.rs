//! The tool panel: an ordered list of tools, the active selection, the
//! current brush, and the scroll state of the button column.
//!
//! Buttons are stacked vertically, three rows per button. When fewer
//! buttons fit than exist, the column scrolls: scrolling up floors at zero,
//! scrolling down ceilings at `total - visible` — the same diff-or-zero
//! clamping idiom the geometry uses.

use vstd::prelude::*;

use crate::area::Area;
use crate::area::doz;
use crate::canvas::Cell;
use crate::canvas::Color;
use crate::input::MouseKind;
use crate::utils::DiffOrZero;

verus! {

/// The drawing tools, in the order the panel shows them. Only brush, erase
/// and bucket act on the canvas; the rest are inert placeholders.
#[derive(Clone, Copy, PartialEq, Eq, Structural, Debug)]
pub enum Tool {
    Select,
    Move,
    Rectangle,
    Circle,
    Brush,
    Erase,
    Bucket,
    ColorPicker,
    Text,
}

impl Tool {
    /// The three-character icon drawn inside this tool's button.
    pub fn icon(&self) -> (r: &'static str)
        ensures
            r@ == self.spec_icon(),
    {
        match self {
            Tool::Select => " S ",
            Tool::Move => " M ",
            Tool::Rectangle => " R ",
            Tool::Circle => " C ",
            Tool::Brush => " B ",
            Tool::Erase => " E ",
            Tool::Bucket => " K ",
            Tool::ColorPicker => " P ",
            Tool::Text => " T ",
        }
    }

    /// The icon as a character sequence.
    pub open spec fn spec_icon(self) -> Seq<char> {
        match self {
            Tool::Select => " S "@,
            Tool::Move => " M "@,
            Tool::Rectangle => " R "@,
            Tool::Circle => " C "@,
            Tool::Brush => " B "@,
            Tool::Erase => " E "@,
            Tool::Bucket => " K "@,
            Tool::ColorPicker => " P "@,
            Tool::Text => " T "@,
        }
    }
}

// Fields that depend on the terminal window size.
#[derive(Clone, Copy, Debug)]
pub struct Relative {
    pub visible_buttons: u16,
    pub panel_start: (u16, u16),
    pub scroll: u16,
}

impl Relative {
    /// The panel state before any terminal size is known.
    pub open spec fn zero_spec() -> Relative {
        Relative { visible_buttons: 0, panel_start: (0, 0), scroll: 0 }
    }

    pub fn zero() -> (r: Relative)
        ensures
            r == Relative::zero_spec(),
    {
        Relative { visible_buttons: 0, panel_start: (0, 0), scroll: 0 }
    }

    pub fn new(visible_buttons: u16, panel_start: (u16, u16), scroll: u16) -> (r: Relative)
        ensures
            r == (Relative { visible_buttons, panel_start, scroll }),
    {
        Relative { visible_buttons, panel_start, scroll }
    }
}

/// The right-hand tool panel.
pub struct RightPanel {
    pub area: Area,
    pub tools: Vec<Tool>,
    // Index of the currently active tool.
    pub active_tool: usize,
    pub brush: Cell,
    // Fields that depend on the terminal window size.
    pub relative: Relative,
}

impl RightPanel {
    /// Well-formedness: the tool list is non-empty and `u16`-sized, the
    /// active index points into it, and the scroll window fits: at most all
    /// tools are visible, scrolling stops where the last tool shows, and the
    /// bottom visible button row stays on a `u16` screen.
    pub open spec fn wf(&self) -> bool {
        &&& 1 <= self.tools@.len() <= 65535
        &&& self.active_tool < self.tools@.len()
        &&& self.relative.visible_buttons <= self.tools@.len()
        &&& self.relative.scroll + self.relative.visible_buttons <= self.tools@.len()
        &&& self.relative.panel_start.1 + 3 * (self.relative.visible_buttons as int) <= 65536
    }

    /// The nine standard tools, in panel order.
    pub open spec fn standard_tools() -> Seq<Tool> {
        seq![
            Tool::Select,
            Tool::Move,
            Tool::Rectangle,
            Tool::Circle,
            Tool::Brush,
            Tool::Erase,
            Tool::Bucket,
            Tool::ColorPicker,
            Tool::Text,
        ]
    }

    pub fn new(area: Area) -> (p: RightPanel)
        ensures
            p.wf(),
            p.area == area,
            p.tools@ == RightPanel::standard_tools(),
            p.active_tool == 0,
            p.brush == (Cell { ch: 'X', fg: Color::Cyan, bg: Color::Reset }),
            p.relative == Relative::zero_spec(),
    {
        let mut tools: Vec<Tool> = Vec::new();
        tools.push(Tool::Select);
        tools.push(Tool::Move);
        tools.push(Tool::Rectangle);
        tools.push(Tool::Circle);
        tools.push(Tool::Brush);
        tools.push(Tool::Erase);
        tools.push(Tool::Bucket);
        tools.push(Tool::ColorPicker);
        tools.push(Tool::Text);
        proof {
            assert(tools@ =~= RightPanel::standard_tools());
        }

        RightPanel {
            area,
            tools,
            active_tool: 0,
            brush: Cell::new('X', Color::Cyan, Color::Reset),
            relative: Relative::zero(),
        }
    }

    pub fn get_tool(&self) -> (t: &Tool)
        requires
            self.wf(),
        ensures
            *t == self.tools@[self.active_tool as int],
    {
        &self.tools[self.active_tool]
    }

    /// Recompute the visible-button count, panel origin and clamped scroll
    /// for the current terminal size.
    pub fn set_relative(&mut self, t_size: (u16, u16))
        requires
            old(self).wf(),
            old(self).area.width(t_size) <= u16::MAX,
            old(self).area.height(t_size) <= u16::MAX,
        ensures
            final(self).wf(),
            final(self).area == old(self).area,
            final(self).tools == old(self).tools,
            final(self).active_tool == old(self).active_tool,
            final(self).brush == old(self).brush,
            ({
                let height = old(self).area.height(t_size);
                let total = old(self).tools@.len() as int;
                let visible = if height / 3 <= total {
                    height / 3
                } else {
                    total
                };
                let max_scroll = total - visible;
                &&& final(self).relative.visible_buttons == visible
                &&& final(self).relative.panel_start.0 == old(self).area.start.abs_x(t_size)
                &&& final(self).relative.panel_start.1 == old(self).area.start.abs_y(t_size)
                &&& final(self).relative.scroll == if old(self).relative.scroll <= max_scroll {
                    old(self).relative.scroll as int
                } else {
                    max_scroll
                }
            }),
    {
        let (_, height) = self.area.size(t_size);
        let total: u16 = self.tools.len() as u16;

        let visible_buttons: u16 = if height / 3 < total {
            height / 3
        } else {
            total
        };
        let panel_start = self.area.start.absolute_position(t_size);

        // Clamp the scroll to the maximum useful value: the difference
        // between the total and the visible button count.
        let max_scroll: u16 = total - visible_buttons;
        let scroll: u16 = if self.relative.scroll < max_scroll {
            self.relative.scroll
        } else {
            max_scroll
        };

        proof {
            let h = old(self).area.height(t_size);
            assert(h == 0 || old(self).area.start.abs_y(t_size) + h <= 65536);
            assert(3 * ((h / 3) as int) <= h);
        }

        self.relative = Relative::new(visible_buttons, panel_start, scroll);
    }

    /// Screen position and tool index of the i-th visible button: buttons
    /// stack downward, three rows apiece, offset by the scroll.
    pub fn button_layout(&self, i: u16) -> (b: (u16, u16, usize))
        requires
            self.wf(),
            i < self.relative.visible_buttons,
        ensures
            b.0 == self.relative.panel_start.0,
            b.1 == self.relative.panel_start.1 + 3 * (i as int),
            b.2 == i + self.relative.scroll,
            b.2 < self.tools@.len(),
    {
        let (start_x, start_y) = self.relative.panel_start;
        (start_x, start_y + i * 3, (i + self.relative.scroll) as usize)
    }

    /// The tool index a click at screen row y selects, if any: the third of
    /// the click's offset below the panel start, shifted by the scroll,
    /// when that lands on a visible button.
    pub open spec fn clicked_button(self, y: int) -> Option<int> {
        let sy = self.relative.panel_start.1 as int;
        if y < sy {
            None
        } else {
            let button = (y - sy) / 3;
            if button < self.relative.visible_buttons {
                Some(button + self.relative.scroll)
            } else {
                None
            }
        }
    }

    /// Select the tool under a click. Returns whether the selection changed
    /// the panel, i.e. whether it must be redrawn.
    pub fn click(&mut self, click_x: u16, click_y: u16) -> (changed: bool)
        requires
            old(self).wf(),
        ensures
            final(self).wf(),
            final(self).area == old(self).area,
            final(self).tools == old(self).tools,
            final(self).brush == old(self).brush,
            final(self).relative == old(self).relative,
            match old(self).clicked_button(click_y as int) {
                Some(idx) => final(self).active_tool == idx && changed,
                None => final(self).active_tool == old(self).active_tool && !changed,
            },
    {
        let (_, start_y) = self.relative.panel_start;
        let visible_buttons = self.relative.visible_buttons;
        let scroll = self.relative.scroll;

        // A click above the panel start selects nothing.
        if click_y < start_y {
            return false;
        }

        let clicked_button: u16 = (click_y - start_y) / 3;

        if clicked_button < visible_buttons {
            self.active_tool = (clicked_button + scroll) as usize;
            return true;
        }

        false
    }

    /// The scroll value after one wheel step: up floors at zero, down
    /// ceilings where the last tool is visible.
    pub open spec fn spec_scrolled(self, up: bool) -> int {
        if up {
            doz(self.relative.scroll as int, 1)
        } else if self.relative.visible_buttons + self.relative.scroll < self.tools@.len() {
            self.relative.scroll + 1
        } else {
            self.relative.scroll as int
        }
    }

    /// Apply one wheel step to the panel's scroll offset.
    pub fn scroll(&mut self, up: bool)
        requires
            old(self).wf(),
        ensures
            final(self).wf(),
            final(self).area == old(self).area,
            final(self).tools == old(self).tools,
            final(self).active_tool == old(self).active_tool,
            final(self).brush == old(self).brush,
            final(self).relative.visible_buttons == old(self).relative.visible_buttons,
            final(self).relative.panel_start == old(self).relative.panel_start,
            final(self).relative.scroll == old(self).spec_scrolled(up),
    {
        let visible_buttons = self.relative.visible_buttons;
        let total_buttons: u16 = self.tools.len() as u16;
        let scroll = self.relative.scroll;

        self.relative.scroll = if up {
            // Scrolling up reduces the scroll until it reaches zero.
            scroll.diff_or_zero(&1)
        } else if visible_buttons + scroll < total_buttons {
            // Scrolling down only while there is room left.
            scroll + 1
        } else {
            scroll
        };
    }

    /// React to a mouse action inside the panel. Returns whether the panel
    /// must be redrawn.
    pub fn mouse_event(&mut self, kind: MouseKind, column: u16, row: u16) -> (changed: bool)
        requires
            old(self).wf(),
        ensures
            final(self).wf(),
            final(self).area == old(self).area,
            final(self).tools == old(self).tools,
            final(self).brush == old(self).brush,
            kind == MouseKind::LeftDown ==> final(self).relative == old(self).relative && match old(
                self,
            ).clicked_button(row as int) {
                Some(idx) => final(self).active_tool == idx && changed,
                None => final(self).active_tool == old(self).active_tool && !changed,
            },
            kind == MouseKind::ScrollUp || kind == MouseKind::ScrollDown ==> {
                &&& final(self).active_tool == old(self).active_tool
                &&& final(self).relative.visible_buttons == old(self).relative.visible_buttons
                &&& final(self).relative.panel_start == old(self).relative.panel_start
                &&& final(self).relative.scroll == old(self).spec_scrolled(
                    kind == MouseKind::ScrollUp,
                )
                &&& changed
            },
            kind == MouseKind::LeftUp || kind == MouseKind::LeftDrag ==> *final(self) == *old(
                self,
            ) && !changed,
    {
        match kind {
            MouseKind::LeftDown => self.click(column, row),
            MouseKind::ScrollDown => {
                self.scroll(false);
                true
            },
            MouseKind::ScrollUp => {
                self.scroll(true);
                true
            },
            _ => false,
        }
    }
}

} // verus!
