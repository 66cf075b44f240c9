use termpaint::boxes::box_segments;
use termpaint::canvas::frame_rect;

fn run_string(run: &[char]) -> String {
    run.iter().collect()
}

#[test]
fn full_box_layout() {
    let segs = box_segments(2, 1, 4, 3, false);
    assert_eq!(segs.len(), 4);
    assert_eq!((segs[0].0, segs[0].1, run_string(&segs[0].2)), (2, 1, "┌──┐".to_string()));
    assert_eq!((segs[1].0, segs[1].1, run_string(&segs[1].2)), (2, 2, "│".to_string()));
    assert_eq!((segs[2].0, segs[2].1, run_string(&segs[2].2)), (5, 2, "│".to_string()));
    assert_eq!((segs[3].0, segs[3].1, run_string(&segs[3].2)), (2, 3, "└──┘".to_string()));
}

#[test]
fn dashed_box_uses_dashed_glyphs() {
    let segs = box_segments(0, 0, 3, 3, true);
    assert_eq!(run_string(&segs[0].2), "┌╌┐");
    assert_eq!(run_string(&segs[1].2), "╎");
    assert_eq!(run_string(&segs[2].2), "╎");
    assert_eq!(run_string(&segs[3].2), "└╌┘");
}

#[test]
fn thin_boxes_become_filled_squares() {
    let segs = box_segments(5, 5, 1, 3, false);
    assert_eq!(segs.len(), 3);
    for (i, seg) in segs.iter().enumerate() {
        assert_eq!((seg.0, seg.1), (5, 5 + i as u16));
        assert_eq!(run_string(&seg.2), "■");
    }
    let segs = box_segments(5, 5, 3, 1, false);
    assert_eq!(segs.len(), 1);
    assert_eq!(run_string(&segs[0].2), "■■■");
}

#[test]
fn empty_boxes_have_no_segments() {
    assert!(box_segments(5, 5, 0, 3, false).is_empty());
    assert!(box_segments(5, 5, 3, 0, true).is_empty());
}

#[test]
fn frame_rect_grows_one_cell_outward() {
    assert_eq!(frame_rect(6, 1, 10, 5), Some((5, 0, 12, 7)));
}

#[test]
fn frame_rect_needs_room_above_and_left() {
    assert_eq!(frame_rect(0, 3, 10, 5), None);
    assert_eq!(frame_rect(3, 0, 10, 5), None);
}
