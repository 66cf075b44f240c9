use termpaint::area::{Area, Corner, Point};
use termpaint::canvas::{Canvas, Cell, Color, Redraw};
use termpaint::input::MouseKind;
use termpaint::panel::Tool;

fn full_screen_area() -> Area {
    Area::new(Point::new(0, 0, Corner::TopLeft), Point::new(0, 0, Corner::BottomRight))
}

fn brush_cell() -> Cell {
    Cell::new('X', Color::Cyan, Color::Reset)
}

#[test]
fn viewport_smaller_than_buffer_anchors_at_origin() {
    // Buffer 50×20 shown through a 10×5 viewport at (0, 0): the view is
    // scrolled, not centered — content starts at the viewport origin.
    let area = Area::new(Point::new(0, 0, Corner::TopLeft), Point::new(9, 4, Corner::TopLeft));
    let mut cv = Canvas::new(area, 50, 20);
    cv.set_relative((10, 5));
    let rel = cv.relative();
    assert_eq!(rel.content_start, (0, 0));
    assert_eq!(rel.visible_content_size, (10, 5));
    assert_eq!(rel.transform, ((50 - 10) / 2, (20 - 5) / 2));
}

#[test]
fn viewport_larger_than_buffer_centers_it() {
    // Buffer 10×5 inside a 50×20 viewport at (0, 0): centered at
    // ((50-10)/2, (20-5)/2) = (20, 7).
    let area = Area::new(Point::new(0, 0, Corner::TopLeft), Point::new(49, 19, Corner::TopLeft));
    let mut cv = Canvas::new(area, 10, 5);
    cv.set_relative((50, 20));
    let rel = cv.relative();
    assert_eq!(rel.content_start, (20, 7));
    assert_eq!(rel.visible_content_size, (10, 5));
    assert_eq!(rel.transform, (-20, -7));
}

#[test]
fn odd_difference_truncates_downward() {
    // Buffer 9 wide in a 50-wide viewport: (50-9)/2 = 20 by truncation.
    let area = Area::new(Point::new(0, 0, Corner::TopLeft), Point::new(49, 19, Corner::TopLeft));
    let mut cv = Canvas::new(area, 9, 5);
    cv.set_relative((50, 20));
    assert_eq!(cv.relative().content_start.0, 20);
}

#[test]
fn transform_round_trips_inside_visible_region() {
    for (bw, bh, vw, vh) in [(50usize, 20usize, 10u16, 5u16), (10, 5, 50, 20), (10, 5, 10, 5)] {
        let area = Area::new(
            Point::new(0, 0, Corner::TopLeft),
            Point::new(vw - 1, vh - 1, Corner::TopLeft),
        );
        let mut cv = Canvas::new(area, bw, bh);
        cv.set_relative((vw, vh));
        let rel = cv.relative();
        let (sx, sy) = rel.content_start;
        let (visible_w, visible_h) = rel.visible_content_size;
        let (tx, ty) = rel.transform;
        for x in sx..sx + visible_w {
            for y in sy..sy + visible_h {
                let (col, row) = cv.apply_transform(x, y).unwrap();
                assert!(col < bw && row < bh);
                // Inverse placement returns the same screen coordinate,
                // which lies inside the visible region by construction.
                assert_eq!(col as i32 - tx, x as i32);
                assert_eq!(row as i32 - ty, y as i32);
            }
        }
    }
}

#[test]
fn transform_rejects_margin_coordinates() {
    // Buffer 10×5 centered in a 50×20 viewport: the margins map to None.
    let area = Area::new(Point::new(0, 0, Corner::TopLeft), Point::new(49, 19, Corner::TopLeft));
    let mut cv = Canvas::new(area, 10, 5);
    cv.set_relative((50, 20));
    assert_eq!(cv.apply_transform(0, 0), None);
    assert_eq!(cv.apply_transform(19, 7), None);
    assert_eq!(cv.apply_transform(30, 7), None);
    assert_eq!(cv.apply_transform(20, 6), None);
    assert_eq!(cv.apply_transform(20, 7), Some((0, 0)));
    assert_eq!(cv.apply_transform(29, 11), Some((9, 4)));
}

#[test]
fn paint_outside_visible_buffer_is_a_no_op() {
    // A click where the transform returns None must neither mutate the
    // buffer nor request any repaint.
    let area = Area::new(Point::new(0, 0, Corner::TopLeft), Point::new(49, 19, Corner::TopLeft));
    let mut cv = Canvas::new(area, 10, 5);
    cv.set_relative((50, 20));
    let before = cv.content.clone();
    let rd = cv.mouse_event(MouseKind::LeftDown, 0, 0, &Tool::Brush, &brush_cell());
    assert_eq!(rd, Redraw::Nothing);
    assert_eq!(cv.content, before);
}

#[test]
fn brush_paints_one_cell_and_requests_one_write() {
    let mut cv = Canvas::new(full_screen_area(), 50, 20);
    cv.set_relative((80, 24));
    let rel = cv.relative();
    let (sx, sy) = rel.content_start;
    let rd = cv.click(&Tool::Brush, &brush_cell(), sx + 3, sy + 2);
    assert_eq!(rd, Redraw::At(sx + 3, sy + 2, brush_cell()));
    let (col, row) = cv.apply_transform(sx + 3, sy + 2).unwrap();
    assert_eq!(cv.content[row][col], brush_cell());
}

#[test]
fn erase_restores_the_blank_cell() {
    let mut cv = Canvas::new(full_screen_area(), 50, 20);
    cv.set_relative((80, 24));
    let (sx, sy) = cv.relative().content_start;
    cv.click(&Tool::Brush, &brush_cell(), sx + 3, sy + 2);
    let rd = cv.click(&Tool::Erase, &brush_cell(), sx + 3, sy + 2);
    assert_eq!(rd, Redraw::At(sx + 3, sy + 2, Cell::empty()));
    let (col, row) = cv.apply_transform(sx + 3, sy + 2).unwrap();
    assert_eq!(cv.content[row][col], Cell::empty());
}

#[test]
fn erase_blank_cell_is_idempotent() {
    // Erasing an already-blank cell keeps the buffer content identical,
    // though it still asks for the (redundant) cell write.
    let mut cv = Canvas::new(full_screen_area(), 50, 20);
    cv.set_relative((80, 24));
    let (sx, sy) = cv.relative().content_start;
    let before = cv.content.clone();
    let rd = cv.click(&Tool::Erase, &brush_cell(), sx + 3, sy + 2);
    assert_eq!(rd, Redraw::At(sx + 3, sy + 2, Cell::empty()));
    assert_eq!(cv.content, before);
}

#[test]
fn inert_tools_do_nothing() {
    let mut cv = Canvas::new(full_screen_area(), 50, 20);
    cv.set_relative((80, 24));
    let (sx, sy) = cv.relative().content_start;
    let before = cv.content.clone();
    for tool in [Tool::Select, Tool::Move, Tool::Rectangle, Tool::Circle, Tool::ColorPicker,
        Tool::Text]
    {
        assert_eq!(cv.click(&tool, &brush_cell(), sx, sy), Redraw::Nothing);
    }
    // Dragging with the bucket is inert too.
    assert_eq!(cv.drag(&Tool::Bucket, &brush_cell(), sx, sy), Redraw::Nothing);
    // A left release is ignored by the canvas.
    assert_eq!(
        cv.mouse_event(MouseKind::LeftUp, sx, sy, &Tool::Brush, &brush_cell()),
        Redraw::Nothing
    );
    assert_eq!(cv.content, before);
}

#[test]
fn flood_fill_covers_blank_buffer_exactly_once() {
    // All-blank 5×5, filled from the middle: all 25 cells change, and the
    // fill terminates although every neighbor keeps matching.
    let mut cv = Canvas::new(full_screen_area(), 5, 5);
    cv.flood_fill(2, 2, brush_cell());
    for row in 0..5 {
        for col in 0..5 {
            assert_eq!(cv.content[row][col], brush_cell());
        }
    }
}

#[test]
fn flood_fill_bounded_by_border_ring() {
    // A 5×5 buffer whose border ring holds cell A and whose 3×3 interior is
    // blank: filling from (2,2) with B touches exactly the 9 interior cells.
    let a = Cell::new('A', Color::Red, Color::Reset);
    let b = Cell::new('B', Color::Blue, Color::Reset);
    let mut cv = Canvas::new(full_screen_area(), 5, 5);
    for i in 0..5 {
        cv.paint(i, 0, a);
        cv.paint(i, 4, a);
        cv.paint(0, i, a);
        cv.paint(4, i, a);
    }
    cv.flood_fill(2, 2, b);
    for row in 0..5 {
        for col in 0..5 {
            let on_ring = row == 0 || row == 4 || col == 0 || col == 4;
            if on_ring {
                assert_eq!(cv.content[row][col], a);
            } else {
                assert_eq!(cv.content[row][col], b);
            }
        }
    }
}

#[test]
fn flood_fill_restamping_same_value_terminates() {
    // new_cell == target: the fill degenerates to re-stamping the same
    // value; the visited set still guarantees termination.
    let mut cv = Canvas::new(full_screen_area(), 5, 5);
    let before = cv.content.clone();
    cv.flood_fill(2, 2, Cell::empty());
    assert_eq!(cv.content, before);
}

#[test]
fn flood_fill_respects_diagonal_gaps() {
    // 4-connectivity: a diagonal wall does not stop the fill, but a full
    // column does.
    let wall = Cell::new('#', Color::White, Color::Reset);
    let fill = Cell::new('o', Color::Green, Color::Reset);
    let mut cv = Canvas::new(full_screen_area(), 3, 3);
    // Vertical wall in the middle column.
    cv.paint(1, 0, wall);
    cv.paint(1, 1, wall);
    cv.paint(1, 2, wall);
    cv.flood_fill(0, 1, fill);
    for row in 0..3 {
        assert_eq!(cv.content[row][0], fill);
        assert_eq!(cv.content[row][1], wall);
        assert_eq!(cv.content[row][2], Cell::empty());
    }
}

#[test]
fn bucket_click_fills_and_requests_content_redraw() {
    let mut cv = Canvas::new(full_screen_area(), 5, 5);
    cv.set_relative((80, 24));
    let (sx, sy) = cv.relative().content_start;
    let rd = cv.click(&Tool::Bucket, &brush_cell(), sx, sy);
    assert_eq!(rd, Redraw::Content);
    assert_eq!(cv.content[4][4], brush_cell());
}

#[test]
fn visible_rows_clip_to_viewport() {
    // Buffer 50×20 through a 10×5 viewport at the origin: the offset is
    // ((50-10)/2, (20-5)/2) = (20, 7), so the window shows buffer columns
    // 20..30 and rows 7..12.
    let area = Area::new(Point::new(0, 0, Corner::TopLeft), Point::new(9, 4, Corner::TopLeft));
    let mut cv = Canvas::new(area, 50, 20);
    let mark = Cell::new('M', Color::Magenta, Color::Reset);
    cv.paint(20, 7, mark);
    cv.paint(25, 9, mark);
    cv.paint(3, 2, mark);
    cv.set_relative((10, 5));
    let rows = cv.visible_rows();
    assert_eq!(rows.len(), 5);
    for row in &rows {
        assert_eq!(row.len(), 10);
    }
    assert_eq!(rows[0][0], mark);
    assert_eq!(rows[2][5], mark);
    // The buffer's own origin region lies outside the window.
    assert_eq!(rows[1][1], Cell::empty());
}

#[test]
fn visible_rows_show_whole_small_buffer() {
    let area = Area::new(Point::new(0, 0, Corner::TopLeft), Point::new(49, 19, Corner::TopLeft));
    let mut cv = Canvas::new(area, 10, 5);
    let mark = Cell::new('M', Color::Magenta, Color::Reset);
    cv.paint(9, 4, mark);
    cv.set_relative((50, 20));
    let rows = cv.visible_rows();
    assert_eq!(rows.len(), 5);
    assert_eq!(rows[4].len(), 10);
    assert_eq!(rows[4][9], mark);
}

#[test]
fn border_box_sits_one_cell_outside() {
    let area = Area::new(Point::new(0, 0, Corner::TopLeft), Point::new(49, 19, Corner::TopLeft));
    let mut cv = Canvas::new(area, 10, 5);
    cv.set_relative((50, 20));
    // content starts at (20, 7), visible 10×5
    assert_eq!(cv.border_box(), Some((19, 6, 12, 7)));
}

#[test]
fn border_box_skipped_at_screen_edge() {
    let area = Area::new(Point::new(0, 0, Corner::TopLeft), Point::new(9, 4, Corner::TopLeft));
    let mut cv = Canvas::new(area, 50, 20);
    cv.set_relative((10, 5));
    // content starts at (0, 0): no room for a border
    assert_eq!(cv.border_box(), None);
}

#[test]
fn flood_fill_single_cell_buffer() {
    let mut cv = Canvas::new(full_screen_area(), 1, 1);
    cv.flood_fill(0, 0, brush_cell());
    assert_eq!(cv.content[0][0], brush_cell());
}

#[test]
fn drag_paints_like_click() {
    let mut cv = Canvas::new(full_screen_area(), 50, 20);
    cv.set_relative((80, 24));
    let (sx, sy) = cv.relative().content_start;
    let rd = cv.mouse_event(MouseKind::LeftDrag, sx + 1, sy + 1, &Tool::Brush, &brush_cell());
    assert_eq!(rd, Redraw::At(sx + 1, sy + 1, brush_cell()));
    let (col, row) = cv.apply_transform(sx + 1, sy + 1).unwrap();
    assert_eq!(cv.content[row][col], brush_cell());
}

#[test]
fn degenerate_viewport_shows_nothing() {
    // End before start: the area resolves to no cells, so nothing of the
    // buffer is visible — and nothing crashes.
    let area = Area::new(Point::new(10, 10, Corner::TopLeft), Point::new(2, 2, Corner::TopLeft));
    let mut cv = Canvas::new(area, 50, 20);
    cv.set_relative((80, 24));
    assert_eq!(cv.relative().visible_content_size, (0, 0));
    assert!(cv.visible_rows().is_empty());
}
