use termpaint::area::{Area, Corner, Point};
use termpaint::canvas::{Cell, Color};
use termpaint::input::{route_mouse, MouseKind, MouseTarget};
use termpaint::panel::{RightPanel, Tool};

fn panel_area() -> Area {
    Area::new(Point::new(0, 0, Corner::TopLeft), Point::new(4, 0, Corner::BottomLeft))
}

#[test]
fn new_panel_selects_first_tool_with_cyan_brush() {
    let p = RightPanel::new(panel_area());
    assert_eq!(p.tools.len(), 9);
    assert_eq!(*p.get_tool(), Tool::Select);
    assert_eq!(p.brush, Cell::new('X', Color::Cyan, Color::Reset));
}

#[test]
fn visible_buttons_are_a_third_of_the_height() {
    let mut p = RightPanel::new(panel_area());
    // Height 24: room for 8 buttons of 3 rows each.
    p.set_relative((80, 24));
    assert_eq!(p.relative.visible_buttons, 8);
    assert_eq!(p.relative.panel_start, (0, 0));
    // A tall terminal caps at the number of tools.
    p.set_relative((80, 100));
    assert_eq!(p.relative.visible_buttons, 9);
}

#[test]
fn click_selects_the_tool_under_the_cursor() {
    let mut p = RightPanel::new(panel_area());
    p.set_relative((80, 24));
    // Button 4 spans rows 12..15; the brush sits at index 4.
    let changed = p.click(1, 13);
    assert!(changed);
    assert_eq!(*p.get_tool(), Tool::Brush);
}

#[test]
fn click_below_last_button_changes_nothing() {
    let mut p = RightPanel::new(panel_area());
    p.set_relative((80, 12));
    // 4 visible buttons cover rows 0..12; row 13 hits none.
    let changed = p.click(1, 13);
    assert!(!changed);
    assert_eq!(*p.get_tool(), Tool::Select);
}

#[test]
fn scroll_down_ceilings_at_total_minus_visible() {
    let mut p = RightPanel::new(panel_area());
    // Height 12: 4 visible of 9 tools, so scroll stops at 5.
    p.set_relative((80, 12));
    for _ in 0..20 {
        p.scroll(false);
    }
    assert_eq!(p.relative.scroll, 5);
}

#[test]
fn scroll_up_floors_at_zero() {
    let mut p = RightPanel::new(panel_area());
    p.set_relative((80, 12));
    p.scroll(false);
    p.scroll(false);
    for _ in 0..10 {
        p.scroll(true);
    }
    assert_eq!(p.relative.scroll, 0);
}

#[test]
fn scrolled_click_selects_shifted_tool() {
    let mut p = RightPanel::new(panel_area());
    p.set_relative((80, 12));
    p.mouse_event(MouseKind::ScrollDown, 1, 1);
    // First visible button is now tool index 1 (Move).
    let changed = p.mouse_event(MouseKind::LeftDown, 1, 1);
    assert!(changed);
    assert_eq!(*p.get_tool(), Tool::Move);
}

#[test]
fn resize_clamps_existing_scroll() {
    let mut p = RightPanel::new(panel_area());
    p.set_relative((80, 12));
    for _ in 0..5 {
        p.scroll(false);
    }
    assert_eq!(p.relative.scroll, 5);
    // A taller terminal shows more buttons; the scroll shrinks to fit.
    p.set_relative((80, 24));
    assert_eq!(p.relative.scroll, 1);
}

#[test]
fn button_layout_stacks_three_rows_apart() {
    let mut p = RightPanel::new(panel_area());
    p.set_relative((80, 24));
    p.scroll(false);
    let (x, y, idx) = p.button_layout(2);
    assert_eq!((x, y), (0, 6));
    assert_eq!(idx, 3);
}

#[test]
fn tool_icons_are_three_characters() {
    assert_eq!(Tool::Select.icon(), " S ");
    assert_eq!(Tool::Move.icon(), " M ");
    assert_eq!(Tool::Rectangle.icon(), " R ");
    assert_eq!(Tool::Circle.icon(), " C ");
    assert_eq!(Tool::Brush.icon(), " B ");
    assert_eq!(Tool::Erase.icon(), " E ");
    assert_eq!(Tool::Bucket.icon(), " K ");
    assert_eq!(Tool::ColorPicker.icon(), " P ");
    assert_eq!(Tool::Text.icon(), " T ");
}

#[test]
fn mouse_routing_prefers_panel_then_canvas() {
    let panel = panel_area();
    let canvas = Area::new(Point::new(6, 1, Corner::TopLeft), Point::new(0, 0, Corner::BottomRight));
    let t = (80u16, 24u16);
    assert_eq!(route_mouse(&panel, &canvas, 2, 5, t), MouseTarget::Panel);
    assert_eq!(route_mouse(&panel, &canvas, 10, 5, t), MouseTarget::Canvas);
    // The gap column between the two areas belongs to neither.
    assert_eq!(route_mouse(&panel, &canvas, 5, 5, t), MouseTarget::Outside);
    // Row 0 is above the canvas area.
    assert_eq!(route_mouse(&panel, &canvas, 10, 0, t), MouseTarget::Outside);
}

#[test]
fn zero_height_panel_has_no_buttons() {
    let mut p = RightPanel::new(panel_area());
    p.set_relative((80, 2));
    assert_eq!(p.relative.visible_buttons, 0);
    // With no visible button a click selects nothing.
    assert!(!p.click(1, 1));
    assert_eq!(*p.get_tool(), Tool::Select);
    // Scrolling is clamped in both directions.
    p.scroll(true);
    assert_eq!(p.relative.scroll, 0);
}
