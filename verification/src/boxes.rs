//! Box outline layout: which glyphs a rectangular border consists of and
//! where each run of them starts.
//!
//! A box is laid out as segments: a contiguous run of characters written at
//! one screen position. A full box has a top row, two single-glyph side
//! segments per middle row, and a bottom row. A box only one cell wide or
//! tall degenerates to rows of filled squares. Writing the segments is the
//! renderer's business; this module only computes them.

use vstd::prelude::*;

verus! {

/// Number of segments a w × h box consists of.
pub open spec fn box_segment_count(width: int, height: int) -> int {
    if width == 0 || height == 0 {
        0
    } else if width == 1 || height == 1 {
        height
    } else {
        2 * height - 2
    }
}

/// The glyphs of the top or bottom row: a corner, a run of horizontals, a
/// corner.
pub open spec fn box_row(width: int, left: char, horizontal: char, right: char) -> Seq<char> {
    Seq::new(
        width as nat,
        |i: int|
            if i == 0 {
                left
            } else if i == width - 1 {
                right
            } else {
                horizontal
            },
    )
}

/// The j-th segment of a w × h box drawn at (x, y): its screen position and
/// its glyphs. Segments are ordered top row first, then the side glyphs row
/// by row (left before right), then the bottom row.
pub open spec fn box_segment(
    x: int,
    y: int,
    width: int,
    height: int,
    dashed: bool,
    j: int,
) -> (int, int, Seq<char>) {
    let horizontal = if dashed {
        '\u{254c}'
    } else {
        '\u{2500}'
    };
    let vertical = if dashed {
        '\u{254e}'
    } else {
        '\u{2502}'
    };
    if width == 1 || height == 1 {
        (x, y + j, Seq::new(width as nat, |i: int| '\u{25a0}'))
    } else if j == 0 {
        (x, y, box_row(width, '\u{250c}', horizontal, '\u{2510}'))
    } else if j == 2 * height - 3 {
        (x, y + height - 1, box_row(width, '\u{2514}', horizontal, '\u{2518}'))
    } else if j % 2 == 1 {
        (x, y + (j + 1) / 2, seq![vertical])
    } else {
        (x + width - 1, y + j / 2, seq![vertical])
    }
}

/// All segments of a w × h box outline at (x, y), in order. The returned
/// glyph runs are exactly `box_segment(j)` for each j.
pub fn box_segments(x: u16, y: u16, width: u16, height: u16, dashed: bool) -> (out: Vec<
    (u16, u16, Vec<char>),
>)
    requires
        x + width <= 65536,
        y + height <= 65536,
    ensures
        out@.len() == box_segment_count(width as int, height as int),
        forall|j: int|
            0 <= j < out@.len() ==> {
                let seg = box_segment(x as int, y as int, width as int, height as int, dashed, j);
                ((#[trigger] out@[j]).0 as int) == seg.0 && (out@[j].1 as int) == seg.1
                    && out@[j].2@ == seg.2
            },
{
    let mut out: Vec<(u16, u16, Vec<char>)> = Vec::new();

    if width == 0 || height == 0 {
        return out;
    }

    let (horizontal, vertical) = if dashed {
        ('\u{254c}', '\u{254e}')
    } else {
        ('\u{2500}', '\u{2502}')
    };

    if width == 1 || height == 1 {
        let mut iy: u16 = 0;
        while iy < height
            invariant
                x + width <= 65536,
                y + height <= 65536,
                width >= 1,
                iy <= height,
                out@.len() == iy,
                forall|j: int|
                    0 <= j < iy ==> {
                        let seg = box_segment(
                            x as int,
                            y as int,
                            width as int,
                            height as int,
                            dashed,
                            j,
                        );
                        ((#[trigger] out@[j]).0 as int) == seg.0 && (out@[j].1 as int) == seg.1
                            && out@[j].2@ == seg.2
                    },
                width == 1 || height == 1,
            decreases height - iy,
        {
            let mut run: Vec<char> = Vec::new();
            let mut ix: u16 = 0;
            while ix < width
                invariant
                    ix <= width,
                    run@.len() == ix,
                    forall|i: int| 0 <= i < ix ==> run@[i] == '\u{25a0}',
                decreases width - ix,
            {
                run.push('\u{25a0}');
                ix += 1;
            }
            proof {
                assert(run@ =~= Seq::new(width as nat, |i: int| '\u{25a0}'));
            }
            out.push((x, y + iy, run));
            iy += 1;
        }
        return out;
    }

    // Top row.
    let mut top: Vec<char> = Vec::new();
    top.push('\u{250c}');
    let mut ix: u16 = 1;
    while ix < width - 1
        invariant
            width >= 2,
            1 <= ix <= width - 1,
            top@.len() == ix,
            top@[0] == '\u{250c}',
            forall|i: int| 1 <= i < ix ==> top@[i] == horizontal,
        decreases width - ix,
    {
        top.push(horizontal);
        ix += 1;
    }
    top.push('\u{2510}');
    proof {
        assert(top@ =~= box_row(width as int, '\u{250c}', horizontal, '\u{2510}'));
    }
    out.push((x, y, top));

    // Side glyphs of the middle rows, left then right.
    let mut iy: u16 = 1;
    while iy < height - 1
        invariant
            x + width <= 65536,
            y + height <= 65536,
            width >= 2,
            height >= 2,
            vertical == (if dashed {
                '\u{254e}'
            } else {
                '\u{2502}'
            }),
            1 <= iy <= height - 1,
            out@.len() == 2 * iy - 1,
            forall|j: int|
                0 <= j < out@.len() ==> {
                    let seg = box_segment(
                        x as int,
                        y as int,
                        width as int,
                        height as int,
                        dashed,
                        j,
                    );
                    ((#[trigger] out@[j]).0 as int) == seg.0 && (out@[j].1 as int) == seg.1
                        && out@[j].2@ == seg.2
                },
        decreases height - iy,
    {
        let ghost pre = out@;
        let mut left_run: Vec<char> = Vec::new();
        left_run.push(vertical);
        proof {
            assert(left_run@ =~= seq![vertical]);
        }
        out.push((x, y + iy, left_run));

        let mut right_run: Vec<char> = Vec::new();
        right_run.push(vertical);
        proof {
            assert(right_run@ =~= seq![vertical]);
        }
        out.push((x + (width - 1), y + iy, right_run));

        proof {
            let j1 = 2 * (iy as int) - 1;
            let j2 = 2 * (iy as int);
            assert((j1 + 1) / 2 == iy as int);
            assert(j2 / 2 == iy as int);
            assert(j1 % 2 == 1);
            assert(j2 % 2 == 0);
            assert forall|j: int| 0 <= j < out@.len() implies {
                let seg = box_segment(x as int, y as int, width as int, height as int, dashed, j);
                ((#[trigger] out@[j]).0 as int) == seg.0 && (out@[j].1 as int) == seg.1
                    && out@[j].2@ == seg.2
            } by {
                if j < j1 {
                    assert(out@[j] == pre[j]);
                } else if j == j1 {
                    assert(out@[j].2@ == seq![vertical]);
                } else {
                    assert(out@[j].2@ == seq![vertical]);
                }
            }
        }

        iy += 1;
    }

    // Bottom row.
    let mut bottom: Vec<char> = Vec::new();
    bottom.push('\u{2514}');
    ix = 1;
    while ix < width - 1
        invariant
            width >= 2,
            1 <= ix <= width - 1,
            bottom@.len() == ix,
            bottom@[0] == '\u{2514}',
            forall|i: int| 1 <= i < ix ==> bottom@[i] == horizontal,
        decreases width - ix,
    {
        bottom.push(horizontal);
        ix += 1;
    }
    bottom.push('\u{2518}');
    proof {
        assert(bottom@ =~= box_row(width as int, '\u{2514}', horizontal, '\u{2518}'));
    }
    out.push((x, y + (height - 1), bottom));

    out
}

} // verus!
