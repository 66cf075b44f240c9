//! The drawing canvas: a fixed-size buffer of styled cells plus the
//! viewport transform that maps absolute screen coordinates onto buffer
//! indices.
//!
//! The buffer may be larger or smaller than the on-screen viewport. A single
//! offset-based transform covers both layouts: the screen coordinate plus the
//! offset is the buffer index. When the buffer is smaller than the viewport
//! it is drawn centered; when it is at least as large, the viewport shows the
//! region nearest the buffer origin.

use vstd::prelude::*;

use crate::area::Area;
use crate::input::MouseKind;
use crate::panel::Tool;

verus! {

/// A terminal color, as the canvas models it. `Reset` is the terminal's
/// default.
#[derive(Clone, Copy, PartialEq, Eq, Structural, Debug)]
pub enum Color {
    Reset,
    Black,
    Red,
    Green,
    Yellow,
    Blue,
    Magenta,
    Cyan,
    White,
}

/// One cell of the drawing buffer: a character with its colors.
#[derive(Clone, Copy, PartialEq, Eq, Structural, Debug)]
pub struct Cell {
    pub ch: char,
    pub fg: Color,
    pub bg: Color,
}

impl Cell {
    /// The blank cell: a plain space. New buffers hold it everywhere and the
    /// erase tool restores it.
    pub open spec fn blank() -> Cell {
        Cell { ch: ' ', fg: Color::Reset, bg: Color::Reset }
    }

    // Empty character. Used for creating a new Canvas and by the erase tool.
    pub fn empty() -> (c: Cell)
        ensures
            c == Cell::blank(),
    {
        Cell { ch: ' ', fg: Color::Reset, bg: Color::Reset }
    }

    pub fn new(ch: char, fg: Color, bg: Color) -> (c: Cell)
        ensures
            c == (Cell { ch, fg, bg }),
    {
        Cell { ch, fg, bg }
    }
}

/// Signed offset such that `buffer_index = screen_coordinate + offset`, for
/// one axis: half the surplus of the buffer over the viewport, shifted back
/// by the viewport's absolute start. Division truncates toward zero.
pub open spec fn axis_offset(content: int, view: int, vstart: int) -> int {
    if content >= view {
        (content - view) / 2 - vstart
    } else {
        -((view - content) / 2) - vstart
    }
}

/// How many buffer cells are visible on one axis: the smaller of buffer
/// extent and viewport extent.
pub open spec fn axis_visible(content: int, view: int) -> int {
    if content <= view {
        content
    } else {
        view
    }
}

/// Absolute screen coordinate at which the first visible buffer cell is
/// drawn, for one axis: the buffer is centered when smaller than the
/// viewport, otherwise it fills the viewport from its start.
pub open spec fn axis_content_start(content: int, view: int, vstart: int) -> int {
    if content < view {
        (view - content) / 2 + vstart
    } else {
        vstart
    }
}

// Fields that depend on the terminal window size.
#[derive(Clone, Copy, Debug)]
pub struct Relative {
    // Transforms an absolute position to its corresponding content position.
    pub transform: (i32, i32),
    // Visible content width and height.
    pub visible_content_size: (u16, u16),
    // Absolute position of the content starting point.
    pub content_start: (u16, u16),
}

impl Relative {
    /// The transform before any terminal size is known.
    pub open spec fn zero_spec() -> Relative {
        Relative { transform: (0, 0), visible_content_size: (0, 0), content_start: (0, 0) }
    }

    pub fn zero() -> (r: Relative)
        ensures
            r == Relative::zero_spec(),
    {
        Relative { transform: (0, 0), visible_content_size: (0, 0), content_start: (0, 0) }
    }

    pub fn new(transform: (i32, i32), visible_content_size: (u16, u16), content_start: (u16, u16))
        -> (r: Relative)
        ensures
            r == (Relative { transform, visible_content_size, content_start }),
    {
        Relative { transform, visible_content_size, content_start }
    }

    /// Internal consistency of a transform for a buffer of `cols` columns and
    /// `rows` rows: bounds that every computed transform satisfies, strong
    /// enough that transforming the visible region never leaves the buffer
    /// and screen coordinates of visible cells fit in `u16`.
    pub open spec fn wf(self, cols: int, rows: int) -> bool {
        &&& -131070 <= self.transform.0 <= 65535
        &&& -131070 <= self.transform.1 <= 65535
        &&& self.visible_content_size.0 <= cols
        &&& self.visible_content_size.1 <= rows
        &&& self.content_start.0 + self.visible_content_size.0 <= 65536
        &&& self.content_start.1 + self.visible_content_size.1 <= 65536
        &&& 0 <= self.content_start.0 + self.transform.0
        &&& self.content_start.0 + self.transform.0 + self.visible_content_size.0 <= cols
        &&& 0 <= self.content_start.1 + self.transform.1
        &&& self.content_start.1 + self.transform.1 + self.visible_content_size.1 <= rows
    }
}

/// The drawing canvas: a widget area plus the content buffer it displays.
pub struct Canvas {
    pub area: Area,
    pub content: Vec<Vec<Cell>>,
    // Fields that depend on the current terminal window size.
    pub relative: Relative,
}

impl Canvas {
    /// Number of rows in the content buffer.
    pub open spec fn rows(&self) -> int {
        self.content@.len() as int
    }

    /// Number of columns in the content buffer.
    pub open spec fn cols(&self) -> int {
        self.content@[0].len() as int
    }

    /// The content buffer as a sequence of rows.
    pub open spec fn grid(&self) -> Seq<Seq<Cell>> {
        self.content@.map_values(|r: Vec<Cell>| r@)
    }

    /// The cell stored at buffer position (col, row).
    pub open spec fn cell_at(&self, col: int, row: int) -> Cell {
        self.grid()[row][col]
    }

    /// The current viewport transform.
    pub open spec fn spec_relative(&self) -> Relative {
        self.relative
    }

    /// Well-formedness: the buffer is a non-empty rectangle with `u16`-sized
    /// dimensions, and the stored transform is consistent with it.
    pub open spec fn wf(&self) -> bool {
        &&& 1 <= self.rows() <= 65535
        &&& 1 <= self.cols() <= 65535
        &&& forall|r: int|
            0 <= r < self.rows() ==> (#[trigger] self.content@[r]).len() == self.cols()
        &&& self.relative.wf(self.cols(), self.rows())
    }

    pub fn relative(&self) -> (r: Relative)
        ensures
            r == self.spec_relative(),
    {
        self.relative
    }

    // {content_width} and {content_height} are the size of the drawing area,
    // which is different from {area}, the size of the Canvas widget.
    pub fn new(area: Area, content_width: usize, content_height: usize) -> (c: Canvas)
        requires
            1 <= content_width <= 65535,
            1 <= content_height <= 65535,
        ensures
            c.wf(),
            c.area == area,
            c.cols() == content_width,
            c.rows() == content_height,
            c.grid() == blank_grid(content_width as int, content_height as int),
            forall|col: int, row: int|
                0 <= col < content_width && 0 <= row < content_height ==> c.cell_at(col, row)
                    == Cell::blank(),
            c.spec_relative() == Relative::zero_spec(),
    {
        let mut content: Vec<Vec<Cell>> = Vec::new();
        let mut r: usize = 0;
        while r < content_height
            invariant
                r <= content_height,
                content@.len() == r,
                forall|i: int| 0 <= i < r ==> (#[trigger] content@[i]).len() == content_width,
                forall|i: int, j: int|
                    0 <= i < r && 0 <= j < content_width ==> content@[i]@[j] == Cell::blank(),
            decreases content_height - r,
        {
            let mut row: Vec<Cell> = Vec::new();
            let mut cidx: usize = 0;
            while cidx < content_width
                invariant
                    cidx <= content_width,
                    row@.len() == cidx,
                    forall|j: int| 0 <= j < cidx ==> row@[j] == Cell::blank(),
                decreases content_width - cidx,
            {
                row.push(Cell::empty());
                cidx += 1;
            }
            content.push(row);
            r += 1;
        }

        let result = Canvas { area, content, relative: Relative::zero() };
        proof {
            assert(result.grid() =~~= blank_grid(content_width as int, content_height as int));
        }
        result
    }

    /// Recompute the viewport transform for the current terminal size.
    pub fn set_relative(&mut self, t_size: (u16, u16))
        requires
            old(self).wf(),
            old(self).area.width(t_size) <= u16::MAX,
            old(self).area.height(t_size) <= u16::MAX,
        ensures
            final(self).wf(),
            final(self).area == old(self).area,
            final(self).grid() == old(self).grid(),
            final(self).cols() == old(self).cols(),
            final(self).rows() == old(self).rows(),
            ({
                let vx = old(self).area.start.abs_x(t_size);
                let vy = old(self).area.start.abs_y(t_size);
                let vw = old(self).area.width(t_size);
                let vh = old(self).area.height(t_size);
                let rel = final(self).spec_relative();
                let cols = old(self).cols();
                let rows = old(self).rows();
                &&& rel.transform.0 == axis_offset(cols, vw, vx)
                &&& rel.transform.1 == axis_offset(rows, vh, vy)
                &&& rel.visible_content_size.0 == axis_visible(cols, vw)
                &&& rel.visible_content_size.1 == axis_visible(rows, vh)
                &&& rel.content_start.0 == axis_content_start(cols, vw, vx)
                &&& rel.content_start.1 == axis_content_start(rows, vh, vy)
            }),
    {
        let (x, y) = self.area.start.absolute_position(t_size);
        let (width, height) = self.area.size(t_size);
        let content_width: u16 = self.content[0].len() as u16;
        let content_height: u16 = self.content.len() as u16;

        let transform_x: i32 = if content_width >= width {
            (((content_width - width) / 2) as i32) - (x as i32)
        } else {
            -((((width - content_width) / 2)) as i32) - (x as i32)
        };
        let transform_y: i32 = if content_height >= height {
            (((content_height - height) / 2) as i32) - (y as i32)
        } else {
            -((((height - content_height) / 2)) as i32) - (y as i32)
        };

        let visible_content_width: u16 = if content_width < width {
            content_width
        } else {
            width
        };
        let visible_content_height: u16 = if content_height < height {
            content_height
        } else {
            height
        };

        let content_start_x: u16 = if content_width < width {
            (width - content_width) / 2 + x
        } else {
            x
        };
        let content_start_y: u16 = if content_height < height {
            (height - content_height) / 2 + y
        } else {
            y
        };

        self.relative = Relative::new(
            (transform_x, transform_y),
            (visible_content_width, visible_content_height),
            (content_start_x, content_start_y),
        );
    }

    /// The transform as a mathematical partial function: the buffer index
    /// for an absolute screen position, or nothing when the position lies
    /// outside the paintable buffer.
    pub open spec fn spec_transform(&self, x: int, y: int) -> Option<(int, int)> {
        let cx = x + self.relative.transform.0;
        let cy = y + self.relative.transform.1;
        if 0 <= cx < self.cols() && 0 <= cy < self.rows() {
            Some((cx, cy))
        } else {
            None
        }
    }

    // Transforms an absolute position to a content position.
    // Returns None if the parameters cannot be converted
    // (the result would be negative or beyond the content size).
    pub fn apply_transform(&self, x: u16, y: u16) -> (r: Option<(usize, usize)>)
        requires
            self.wf(),
        ensures
            match r {
                Some(p) => self.spec_transform(x as int, y as int) == Some(
                    (p.0 as int, p.1 as int),
                ),
                None => self.spec_transform(x as int, y as int) is None,
            },
    {
        let content_width = self.content[0].len();
        let content_height = self.content.len();
        let (transform_x, transform_y) = self.relative.transform;

        let result_x = (x as i32) + transform_x;
        let result_y = (y as i32) + transform_y;

        if result_x < 0 || result_y < 0 {
            return None;
        }

        let rx = result_x as usize;
        let ry = result_y as usize;

        if rx >= content_width || ry >= content_height {
            return None;
        }

        Some((rx, ry))
    }

    /// Sets buffer[row][col] = cell. The caller must have validated the
    /// indices through the transform; out-of-range indices are a caller
    /// defect, ruled out here rather than clamped.
    pub fn paint(&mut self, col: usize, row: usize, cell: Cell)
        requires
            old(self).wf(),
            col < old(self).cols(),
            row < old(self).rows(),
        ensures
            final(self).wf(),
            final(self).area == old(self).area,
            final(self).relative == old(self).relative,
            final(self).cols() == old(self).cols(),
            final(self).rows() == old(self).rows(),
            final(self).grid() == grid_update(old(self).grid(), col as int, row as int, cell),
    {
        let row_ref = &mut self.content[row];
        row_ref[col] = cell;

        proof {
            assert(self.grid() =~~= grid_update(old(self).grid(), col as int, row as int, cell));
        }
    }

    /// Restores buffer[row][col] to the blank cell.
    pub fn erase(&mut self, col: usize, row: usize)
        requires
            old(self).wf(),
            col < old(self).cols(),
            row < old(self).rows(),
        ensures
            final(self).wf(),
            final(self).area == old(self).area,
            final(self).relative == old(self).relative,
            final(self).cols() == old(self).cols(),
            final(self).rows() == old(self).rows(),
            final(self).grid() == grid_update(
                old(self).grid(),
                col as int,
                row as int,
                Cell::blank(),
            ),
    {
        self.paint(col, row, Cell::empty())
    }

    /// Classic 4-connected bucket fill: repaints with `cell` exactly the
    /// maximal connected region of cells equal to the cell under (col, row).
    /// Uses an explicit work list and a per-fill visited map, so it
    /// terminates — and touches each position once — even when `cell` equals
    /// the clicked cell's value.
    pub fn flood_fill(&mut self, col: usize, row: usize, cell: Cell)
        requires
            old(self).wf(),
            col < old(self).cols(),
            row < old(self).rows(),
        ensures
            final(self).wf(),
            final(self).area == old(self).area,
            final(self).relative == old(self).relative,
            final(self).cols() == old(self).cols(),
            final(self).rows() == old(self).rows(),
            final(self).grid() == flood_result(
                old(self).grid(),
                old(self).cols(),
                old(self).rows(),
                (col as int, row as int),
                cell,
            ),
    {
        let cols_n: usize = self.content[0].len();
        let rows_n: usize = self.content.len();
        let target: Cell = self.content[row][col];
        let ghost g0 = self.grid();
        let ghost cols = cols_n as int;
        let ghost rows = rows_n as int;
        let ghost start_p = (col as int, row as int);

        proof {
            assert(g0.len() == rows);
            assert(forall|r: int| 0 <= r < rows ==> (#[trigger] g0[r]).len() == cols);
            assert(grid_at(g0, start_p) == target);
        }

        // Per-fill visited map, initially all false.
        let mut visited: Vec<Vec<bool>> = Vec::new();
        let mut vr: usize = 0;
        while vr < rows_n
            invariant
                vr <= rows_n,
                visited@.len() == vr,
                forall|i: int| 0 <= i < vr ==> (#[trigger] visited@[i])@.len() == cols_n,
                forall|i: int, j: int| 0 <= i < vr && 0 <= j < cols_n ==> !visited@[i]@[j],
            decreases rows_n - vr,
        {
            let mut vrow: Vec<bool> = Vec::new();
            let mut vc: usize = 0;
            while vc < cols_n
                invariant
                    vc <= cols_n,
                    vrow@.len() == vc,
                    forall|j: int| 0 <= j < vc ==> !vrow@[j],
                decreases cols_n - vc,
            {
                vrow.push(false);
                vc += 1;
            }
            visited.push(vrow);
            vr += 1;
        }

        let mut stack: Vec<(usize, usize)> = Vec::new();
        stack.push((col, row));

        let ghost mut vset: Set<int> = Set::empty();

        proof {
            assert(stack@[0] == (col, row));
            lemma_reach_self(g0, target, cols, rows, start_p);
            assert forall|i: int| 0 <= i < stack@.len() implies {
                let q = (((#[trigger] stack@[i]).0 as int), (stack@[i].1 as int));
                in_grid(cols, rows, q) && (grid_at(g0, q) == target ==> fill_reaches(
                    g0,
                    target,
                    cols,
                    rows,
                    start_p,
                    q,
                ))
            } by {
                assert(stack@[i] == (col, row));
            }
        }

        while stack.len() > 0
            invariant
                self.wf(),
                cols == cols_n as int,
                rows == rows_n as int,
                start_p == (col as int, row as int),
                self.cols() == cols,
                self.rows() == rows,
                self.area == old(self).area,
                self.relative == old(self).relative,
                g0 == old(self).grid(),
                g0.len() == rows,
                forall|r: int| 0 <= r < rows ==> (#[trigger] g0[r]).len() == cols,
                in_grid(cols, rows, start_p),
                grid_at(g0, start_p) == target,
                visited@.len() == rows,
                forall|r: int| 0 <= r < rows ==> (#[trigger] visited@[r])@.len() == cols,
                vset.finite(),
                forall|k: int| vset.contains(k) ==> 0 <= k < rows * cols,
                forall|p: (int, int)| #[trigger] in_grid(cols, rows, p) ==> (visited_at(
                    visited@,
                    p,
                ) <==> vset.contains(p.1 * cols + p.0)),
                forall|p: (int, int)| #[trigger] in_grid(cols, rows, p) ==> grid_at(
                    self.grid(),
                    p,
                ) == if visited_at(visited@, p) && grid_at(g0, p) == target {
                    cell
                } else {
                    grid_at(g0, p)
                },
                stack_ok(g0, target, cols, rows, start_p, stack@),
                forall|p: (int, int)|
                    #[trigger] in_grid(cols, rows, p) && visited_at(visited@, p) && grid_at(g0, p)
                        == target ==> fill_reaches(g0, target, cols, rows, start_p, p),
                visited_at(visited@, start_p) || stack_has(stack@, start_p),
                forall|p: (int, int), q: (int, int)|
                    in_grid(cols, rows, p) && visited_at(visited@, p) && grid_at(g0, p) == target
                        && in_grid(cols, rows, q) && #[trigger] adjacent(p, q) ==> visited_at(
                        visited@,
                        q,
                    ) || stack_has(stack@, q),
            decreases rows * cols - vset.len(), stack@.len(),
        {
            let ghost stk0 = stack@;
            let popped = stack.pop();
            let (c, r) = popped.unwrap();
            let ghost p0 = (c as int, r as int);
            let ghost s_pop = stack@;

            proof {
                assert(stk0[stk0.len() - 1] == (c, r));
                assert(in_grid(cols, rows, p0));
                assert(grid_at(g0, p0) == target ==> fill_reaches(
                    g0,
                    target,
                    cols,
                    rows,
                    start_p,
                    p0,
                ));
            }

            let row_probe = &visited[r];
            let already: bool = row_probe[c];

            if !already {
                proof {
                    assert(!visited_at(visited@, p0));
                    assert(grid_at(self.grid(), p0) == grid_at(g0, p0));
                }
                let ghost vis0 = visited@;
                let vrow_ref = &mut visited[r];
                vrow_ref[c] = true;

                proof {
                    assert(visited@ == vis0.update(p0.1, visited@[p0.1]));
                    assert(visited@[p0.1]@ == vis0[p0.1]@.update(p0.0, true));
                    assert(visited_at(visited@, p0));
                    assert forall|p: (int, int)|
                        in_grid(cols, rows, p) && p != p0 implies visited_at(visited@, p)
                        == visited_at(vis0, p) by {
                        if p.1 == p0.1 {
                            assert(p.0 != p0.0);
                        }
                    }

                    let k = p0.1 * cols + p0.0;
                    lemma_row_major_bounds(cols, rows, p0);
                    assert(!vset.contains(k));
                    vstd::set::axiom_set_insert_len(vset, k);
                    vset = vset.insert(k);
                    vstd::set_lib::lemma_int_range(0, rows * cols);
                    assert(vset.subset_of(vstd::set_lib::set_int_range(0, rows * cols)));
                    vstd::set_lib::lemma_len_subset(
                        vset,
                        vstd::set_lib::set_int_range(0, rows * cols),
                    );
                    assert forall|p: (int, int)| #[trigger] in_grid(cols, rows, p) implies (
                    visited_at(visited@, p) <==> vset.contains(p.1 * cols + p.0)) by {
                        if p != p0 && p.1 * cols + p.0 == k {
                            lemma_row_major_injective(cols, p, p0);
                        }
                    }
                }

                let probe = &self.content[r];
                let current: Cell = probe[c];

                proof {
                    assert(current == grid_at(self.grid(), p0));
                }

                if current == target {
                    proof {
                        assert(grid_at(g0, p0) == target);
                        assert(fill_reaches(g0, target, cols, rows, start_p, p0));
                    }
                    self.paint(c, r, cell);

                    if c + 1 < cols_n {
                        let ghost pre = stack@;
                        stack.push((c + 1, r));
                        proof {
                            assert(stack@[stack@.len() - 1] == ((c + 1) as usize, r));
                            assert(stack_has(stack@, (p0.0 + 1, p0.1)));
                            if grid_at(g0, (p0.0 + 1, p0.1)) == target {
                                lemma_reach_extend(
                                    g0,
                                    target,
                                    cols,
                                    rows,
                                    start_p,
                                    p0,
                                    (p0.0 + 1, p0.1),
                                );
                            }
                            lemma_stack_ok_push(g0, target, cols, rows, start_p, pre, ((c + 1) as usize, r));
                            assert(forall|i: int|
                                0 <= i < s_pop.len() ==> stack@[i] == s_pop[i]);
                        }
                    }
                    if c > 0 {
                        let ghost pre = stack@;
                        stack.push((c - 1, r));
                        proof {
                            assert(stack@[stack@.len() - 1] == ((c - 1) as usize, r));
                            assert(stack_has(stack@, (p0.0 - 1, p0.1)));
                            if grid_at(g0, (p0.0 - 1, p0.1)) == target {
                                lemma_reach_extend(
                                    g0,
                                    target,
                                    cols,
                                    rows,
                                    start_p,
                                    p0,
                                    (p0.0 - 1, p0.1),
                                );
                            }
                            lemma_stack_ok_push(g0, target, cols, rows, start_p, pre, ((c - 1) as usize, r));
                            if p0.0 + 1 < cols {
                                lemma_stack_has_push(pre, ((c - 1) as usize, r), (p0.0 + 1, p0.1));
                            }
                            assert(forall|i: int|
                                0 <= i < s_pop.len() ==> stack@[i] == s_pop[i]);
                        }
                    }
                    if r + 1 < rows_n {
                        let ghost pre = stack@;
                        stack.push((c, r + 1));
                        proof {
                            assert(stack@[stack@.len() - 1] == (c, (r + 1) as usize));
                            assert(stack_has(stack@, (p0.0, p0.1 + 1)));
                            if grid_at(g0, (p0.0, p0.1 + 1)) == target {
                                lemma_reach_extend(
                                    g0,
                                    target,
                                    cols,
                                    rows,
                                    start_p,
                                    p0,
                                    (p0.0, p0.1 + 1),
                                );
                            }
                            lemma_stack_ok_push(g0, target, cols, rows, start_p, pre, (c, (r + 1) as usize));
                            if p0.0 + 1 < cols {
                                lemma_stack_has_push(pre, (c, (r + 1) as usize), (p0.0 + 1, p0.1));
                            }
                            if p0.0 > 0 {
                                lemma_stack_has_push(pre, (c, (r + 1) as usize), (p0.0 - 1, p0.1));
                            }
                            assert(forall|i: int|
                                0 <= i < s_pop.len() ==> stack@[i] == s_pop[i]);
                        }
                    }
                    if r > 0 {
                        let ghost pre = stack@;
                        stack.push((c, r - 1));
                        proof {
                            assert(stack@[stack@.len() - 1] == (c, (r - 1) as usize));
                            assert(stack_has(stack@, (p0.0, p0.1 - 1)));
                            if grid_at(g0, (p0.0, p0.1 - 1)) == target {
                                lemma_reach_extend(
                                    g0,
                                    target,
                                    cols,
                                    rows,
                                    start_p,
                                    p0,
                                    (p0.0, p0.1 - 1),
                                );
                            }
                            lemma_stack_ok_push(g0, target, cols, rows, start_p, pre, (c, (r - 1) as usize));
                            if p0.0 + 1 < cols {
                                lemma_stack_has_push(pre, (c, (r - 1) as usize), (p0.0 + 1, p0.1));
                            }
                            if p0.0 > 0 {
                                lemma_stack_has_push(pre, (c, (r - 1) as usize), (p0.0 - 1, p0.1));
                            }
                            if p0.1 + 1 < rows {
                                lemma_stack_has_push(pre, (c, (r - 1) as usize), (p0.0, p0.1 + 1));
                            }
                            assert(forall|i: int|
                                0 <= i < s_pop.len() ==> stack@[i] == s_pop[i]);
                        }
                    }

                    proof {
                        lemma_flood_loop_closure(
                            g0,
                            target,
                            cols,
                            rows,
                            start_p,
                            vis0,
                            visited@,
                            stk0,
                            s_pop,
                            stack@,
                            p0,
                            true,
                        );
                    }
                } else {
                    proof {
                        lemma_flood_loop_closure(
                            g0,
                            target,
                            cols,
                            rows,
                            start_p,
                            vis0,
                            visited@,
                            stk0,
                            s_pop,
                            stack@,
                            p0,
                            false,
                        );
                    }
                }
            } else {
                proof {
                    assert(visited_at(visited@, p0));
                    lemma_flood_loop_closure(
                        g0,
                        target,
                        cols,
                        rows,
                        start_p,
                        visited@,
                        visited@,
                        stk0,
                        s_pop,
                        stack@,
                        p0,
                        false,
                    );
                }
            }
        }

        proof {
            let vfin = visited@;
            let v = |p: (int, int)| in_grid(cols, rows, p) && visited_at(vfin, p);
            assert forall|p: (int, int)| #[trigger] in_grid(cols, rows, p) implies grid_at(
                self.grid(),
                p,
            ) == (if fill_reaches(g0, target, cols, rows, start_p, p) {
                cell
            } else {
                grid_at(g0, p)
            }) by {
                if fill_reaches(g0, target, cols, rows, start_p, p) {
                    let path = choose|path: Seq<(int, int)>|
                        is_fill_path(g0, target, cols, rows, path) && path.first() == start_p
                            && path.last() == p;
                    assert(v(start_p));
                    assert forall|a: (int, int), b: (int, int)|
                        v(a) && grid_at(g0, a) == target && in_grid(cols, rows, b)
                            && #[trigger] adjacent(a, b) implies v(b) by {
                        assert(!stack_has(stack@, b));
                    }
                    lemma_reach_in_closed(g0, target, cols, rows, v, path);
                    assert(v(p));
                    assert(path[path.len() - 1] == p);
                    assert(grid_at(g0, p) == target);
                } else {
                    if visited_at(vfin, p) && grid_at(g0, p) == target {
                        assert(fill_reaches(g0, target, cols, rows, start_p, p));
                    }
                }
            }
            assert forall|rr: int|
                0 <= rr < rows implies self.grid()[rr] =~= flood_result(
                g0,
                cols,
                rows,
                start_p,
                cell,
            )[rr] by {
                assert forall|cc: int|
                    0 <= cc < cols implies self.grid()[rr][cc] == flood_result(
                    g0,
                    cols,
                    rows,
                    start_p,
                    cell,
                )[rr][cc] by {
                    assert(in_grid(cols, rows, (cc, rr)));
                    assert(grid_at(self.grid(), (cc, rr)) == self.grid()[rr][cc]);
                }
            }
            assert(self.grid() =~~= flood_result(g0, cols, rows, start_p, cell));
        }
    }
}

/// A cols × rows grid holding the blank cell everywhere.
pub open spec fn blank_grid(cols: int, rows: int) -> Seq<Seq<Cell>> {
    Seq::new(rows as nat, |r: int| Seq::new(cols as nat, |c: int| Cell::blank()))
}

/// The grid with the cell at (col, row) replaced.
pub open spec fn grid_update(g: Seq<Seq<Cell>>, col: int, row: int, cell: Cell) -> Seq<
    Seq<Cell>,
> {
    g.update(row, g[row].update(col, cell))
}

/// Position p = (col, row) lies inside a cols × rows buffer.
pub open spec fn in_grid(cols: int, rows: int, p: (int, int)) -> bool {
    0 <= p.0 < cols && 0 <= p.1 < rows
}

/// p and q are 4-connected (axis) neighbors.
pub open spec fn adjacent(p: (int, int), q: (int, int)) -> bool {
    ||| q.0 == p.0 && q.1 == p.1 + 1
    ||| q.0 == p.0 && q.1 == p.1 - 1
    ||| q.1 == p.1 && q.0 == p.0 + 1
    ||| q.1 == p.1 && q.0 == p.0 - 1
}

/// The cell of grid g at position p = (col, row).
pub open spec fn grid_at(g: Seq<Seq<Cell>>, p: (int, int)) -> Cell {
    g[p.1][p.0]
}

/// A chain of in-bounds, target-valued, consecutively adjacent positions.
pub open spec fn is_fill_path(
    g: Seq<Seq<Cell>>,
    target: Cell,
    cols: int,
    rows: int,
    path: Seq<(int, int)>,
) -> bool {
    &&& path.len() >= 1
    &&& forall|i: int|
        0 <= i < path.len() ==> in_grid(cols, rows, #[trigger] path[i]) && grid_at(g, path[i])
            == target
    &&& forall|i: int| 0 <= i < path.len() - 1 ==> adjacent(#[trigger] path[i], path[i + 1])
}

/// p belongs to the maximal 4-connected region of `start` among cells whose
/// value equals `target`: some path of such cells joins them.
pub open spec fn fill_reaches(
    g: Seq<Seq<Cell>>,
    target: Cell,
    cols: int,
    rows: int,
    start: (int, int),
    p: (int, int),
) -> bool {
    exists|path: Seq<(int, int)>|
        is_fill_path(g, target, cols, rows, path) && path.first() == start && path.last() == p
}

/// The grid after a bucket fill at `start`: every position 4-connected to
/// `start` through cells equal to the clicked cell's value holds `cell`;
/// every other position is untouched.
pub open spec fn flood_result(
    g: Seq<Seq<Cell>>,
    cols: int,
    rows: int,
    start: (int, int),
    cell: Cell,
) -> Seq<Seq<Cell>> {
    Seq::new(
        rows as nat,
        |r: int|
            Seq::new(
                cols as nat,
                |c: int|
                    if fill_reaches(g, grid_at(g, start), cols, rows, start, (c, r)) {
                        cell
                    } else {
                        g[r][c]
                    },
            ),
    )
}

/// The fill region always holds its own starting position.
proof fn lemma_reach_self(g: Seq<Seq<Cell>>, target: Cell, cols: int, rows: int, start: (int, int))
    requires
        in_grid(cols, rows, start),
        grid_at(g, start) == target,
    ensures
        fill_reaches(g, target, cols, rows, start, start),
{
    let path = seq![start];
    assert(path[0] == start);
    assert(is_fill_path(g, target, cols, rows, path));
    assert(path.first() == start && path.last() == start);
}

/// A target-valued in-bounds neighbor of a reached position is reached.
proof fn lemma_reach_extend(
    g: Seq<Seq<Cell>>,
    target: Cell,
    cols: int,
    rows: int,
    start: (int, int),
    p: (int, int),
    q: (int, int),
)
    requires
        fill_reaches(g, target, cols, rows, start, p),
        adjacent(p, q),
        in_grid(cols, rows, q),
        grid_at(g, q) == target,
    ensures
        fill_reaches(g, target, cols, rows, start, q),
{
    let path = choose|path: Seq<(int, int)>|
        is_fill_path(g, target, cols, rows, path) && path.first() == start && path.last() == p;
    let path2 = path.push(q);
    assert forall|i: int|
        0 <= i < path2.len() implies in_grid(cols, rows, #[trigger] path2[i]) && grid_at(
        g,
        path2[i],
    ) == target by {
        if i < path.len() {
            assert(path2[i] == path[i]);
        } else {
            assert(path2[i] == q);
        }
    }
    assert forall|i: int|
        0 <= i < path2.len() - 1 implies adjacent(#[trigger] path2[i], path2[i + 1]) by {
        if i < path.len() - 1 {
            assert(path2[i] == path[i] && path2[i + 1] == path[i + 1]);
        } else {
            assert(path2[i] == path[path.len() - 1] && path2[i + 1] == q);
        }
    }
    assert(is_fill_path(g, target, cols, rows, path2));
    assert(path2.first() == start);
    assert(path2.last() == q);
}

/// Any set of positions that contains the head of a fill path and is closed
/// under stepping to in-bounds neighbors of target-valued members contains
/// the path's end. Induction over the path length.
proof fn lemma_reach_in_closed(
    g: Seq<Seq<Cell>>,
    target: Cell,
    cols: int,
    rows: int,
    v: spec_fn((int, int)) -> bool,
    path: Seq<(int, int)>,
)
    requires
        is_fill_path(g, target, cols, rows, path),
        v(path.first()),
        forall|p: (int, int), q: (int, int)|
            v(p) && grid_at(g, p) == target && in_grid(cols, rows, q) && #[trigger] adjacent(
                p,
                q,
            ) ==> v(q),
    ensures
        v(path.last()),
    decreases path.len(),
{
    if path.len() > 1 {
        let pre = path.drop_last();
        assert forall|i: int|
            0 <= i < pre.len() implies in_grid(cols, rows, #[trigger] pre[i]) && grid_at(
            g,
            pre[i],
        ) == target by {
            assert(pre[i] == path[i]);
        }
        assert forall|i: int|
            0 <= i < pre.len() - 1 implies adjacent(#[trigger] pre[i], pre[i + 1]) by {
            assert(pre[i] == path[i] && pre[i + 1] == path[i + 1]);
        }
        assert(is_fill_path(g, target, cols, rows, pre));
        assert(pre.first() == path.first());
        lemma_reach_in_closed(g, target, cols, rows, v, pre);
        let a = path[path.len() - 2];
        let b = path[path.len() - 1];
        assert(pre.last() == a);
        assert(grid_at(g, a) == target);
        assert(adjacent(a, b));
        assert(in_grid(cols, rows, b));
        assert(v(b));
    }
}

/// Row-major index of an in-bounds position is within the buffer's extent.
proof fn lemma_row_major_bounds(cols: int, rows: int, p: (int, int))
    requires
        cols > 0,
        in_grid(cols, rows, p),
    ensures
        0 <= p.1 * cols + p.0 < rows * cols,
{
    assert(p.1 * cols + p.0 < rows * cols) by (nonlinear_arith)
        requires
            0 <= p.0 < cols,
            0 <= p.1 < rows,
    ;
    assert(0 <= p.1 * cols) by (nonlinear_arith)
        requires
            p.1 >= 0,
            cols > 0,
    ;
}

/// Distinct in-bounds positions have distinct row-major indices.
proof fn lemma_row_major_injective(cols: int, a: (int, int), b: (int, int))
    requires
        cols > 0,
        0 <= a.0 < cols,
        0 <= b.0 < cols,
        a.1 * cols + a.0 == b.1 * cols + b.0,
    ensures
        a.0 == b.0,
        a.1 == b.1,
{
    assert(a.1 == b.1) by (nonlinear_arith)
        requires
            cols > 0,
            0 <= a.0 < cols,
            0 <= b.0 < cols,
            a.1 * cols + a.0 == b.1 * cols + b.0,
    ;
}

/// Whether position p = (col, row) is marked in the visited map.
spec fn visited_at(v: Seq<Vec<bool>>, p: (int, int)) -> bool {
    v[p.1]@[p.0]
}

/// Whether the work list holds position p.
spec fn stack_has(s: Seq<(usize, usize)>, p: (int, int)) -> bool {
    exists|i: int|
        0 <= i < s.len() && ((#[trigger] s[i]).0 as int) == p.0 && (s[i].1 as int) == p.1
}

/// Every work-list entry lies in the buffer, and — when its original value
/// equals the target — belongs to the fill region.
spec fn stack_ok(
    g0: Seq<Seq<Cell>>,
    target: Cell,
    cols: int,
    rows: int,
    start: (int, int),
    s: Seq<(usize, usize)>,
) -> bool {
    forall|i: int|
        0 <= i < s.len() ==> {
            let q = (((#[trigger] s[i]).0 as int), (s[i].1 as int));
            in_grid(cols, rows, q) && (grid_at(g0, q) == target ==> fill_reaches(
                g0,
                target,
                cols,
                rows,
                start,
                q,
            ))
        }
}

/// Work-list membership survives a push, and the pushed entry is a member.
proof fn lemma_stack_has_push(s: Seq<(usize, usize)>, e: (usize, usize), p: (int, int))
    requires
        stack_has(s, p) || ((e.0 as int) == p.0 && (e.1 as int) == p.1),
    ensures
        stack_has(s.push(e), p),
{
    if stack_has(s, p) {
        let i = choose|i: int|
            0 <= i < s.len() && ((#[trigger] s[i]).0 as int) == p.0 && (s[i].1 as int) == p.1;
        assert(s.push(e)[i] == s[i]);
    } else {
        assert(s.push(e)[s.len() as int] == e);
    }
}

/// Work-list well-formedness survives pushing a well-formed entry.
proof fn lemma_stack_ok_push(
    g0: Seq<Seq<Cell>>,
    target: Cell,
    cols: int,
    rows: int,
    start: (int, int),
    s: Seq<(usize, usize)>,
    e: (usize, usize),
)
    requires
        stack_ok(g0, target, cols, rows, start, s),
        in_grid(cols, rows, (e.0 as int, e.1 as int)),
        grid_at(g0, (e.0 as int, e.1 as int)) == target ==> fill_reaches(
            g0,
            target,
            cols,
            rows,
            start,
            (e.0 as int, e.1 as int),
        ),
    ensures
        stack_ok(g0, target, cols, rows, start, s.push(e)),
{
    let s2 = s.push(e);
    assert forall|i: int|
        0 <= i < s2.len() implies {
        let q = (((#[trigger] s2[i]).0 as int), (s2[i].1 as int));
        in_grid(cols, rows, q) && (grid_at(g0, q) == target ==> fill_reaches(
            g0,
            target,
            cols,
            rows,
            start,
            q,
        ))
    } by {
        if i < s.len() {
            assert(s2[i] == s[i]);
        } else {
            assert(s2[i] == e);
        }
    }
}

/// One iteration of the fill loop preserves the two covering invariants:
/// the start position, and each in-bounds neighbor of a visited target
/// cell, stays visited or on the work list.
///
/// `vis_pre`/`stk0` are the maps at the iteration's start, `vis_post`/`s_fin`
/// at its end; `s_pop` is the work list right after popping `p0`. When
/// `pushed` is set the iteration pushed every in-bounds neighbor of `p0`;
/// otherwise `p0` was already visited or its original value missed the
/// target, so no new obligations arise.
proof fn lemma_flood_loop_closure(
    g0: Seq<Seq<Cell>>,
    target: Cell,
    cols: int,
    rows: int,
    start: (int, int),
    vis_pre: Seq<Vec<bool>>,
    vis_post: Seq<Vec<bool>>,
    stk0: Seq<(usize, usize)>,
    s_pop: Seq<(usize, usize)>,
    s_fin: Seq<(usize, usize)>,
    p0: (int, int),
    pushed: bool,
)
    requires
        in_grid(cols, rows, p0),
        in_grid(cols, rows, start),
        stk0.len() >= 1,
        (stk0[stk0.len() - 1].0 as int) == p0.0,
        (stk0[stk0.len() - 1].1 as int) == p0.1,
        s_pop == stk0.drop_last(),
        s_pop.len() <= s_fin.len(),
        forall|i: int| 0 <= i < s_pop.len() ==> s_fin[i] == s_pop[i],
        visited_at(vis_post, p0),
        forall|p: (int, int)|
            #[trigger] in_grid(cols, rows, p) && visited_at(vis_pre, p) ==> visited_at(
                vis_post,
                p,
            ),
        forall|p: (int, int)|
            #[trigger] in_grid(cols, rows, p) && p != p0 ==> visited_at(vis_post, p)
                == visited_at(vis_pre, p),
        visited_at(vis_pre, start) || stack_has(stk0, start),
        forall|p: (int, int), q: (int, int)|
            in_grid(cols, rows, p) && visited_at(vis_pre, p) && grid_at(g0, p) == target
                && in_grid(cols, rows, q) && #[trigger] adjacent(p, q) ==> visited_at(vis_pre, q)
                || stack_has(stk0, q),
        pushed ==> {
            &&& in_grid(cols, rows, (p0.0 + 1, p0.1)) ==> stack_has(s_fin, (p0.0 + 1, p0.1))
            &&& in_grid(cols, rows, (p0.0 - 1, p0.1)) ==> stack_has(s_fin, (p0.0 - 1, p0.1))
            &&& in_grid(cols, rows, (p0.0, p0.1 + 1)) ==> stack_has(s_fin, (p0.0, p0.1 + 1))
            &&& in_grid(cols, rows, (p0.0, p0.1 - 1)) ==> stack_has(s_fin, (p0.0, p0.1 - 1))
        },
        !pushed ==> vis_post == vis_pre || grid_at(g0, p0) != target,
    ensures
        visited_at(vis_post, start) || stack_has(s_fin, start),
        forall|p: (int, int), q: (int, int)|
            in_grid(cols, rows, p) && visited_at(vis_post, p) && grid_at(g0, p) == target
                && in_grid(cols, rows, q) && #[trigger] adjacent(p, q) ==> visited_at(vis_post, q)
                || stack_has(s_fin, q),
{
    if visited_at(vis_pre, start) {
        assert(visited_at(vis_post, start) || start == p0);
    } else {
        let i = choose|i: int|
            0 <= i < stk0.len() && ((#[trigger] stk0[i]).0 as int) == start.0 && (stk0[i].1
                as int) == start.1;
        if i == stk0.len() - 1 {
            assert(start == p0);
        } else {
            assert(s_pop[i] == stk0[i]);
            assert(s_fin[i] == s_pop[i]);
            assert(stack_has(s_fin, start));
        }
    }

    assert forall|p: (int, int), q: (int, int)|
        in_grid(cols, rows, p) && visited_at(vis_post, p) && grid_at(g0, p) == target && in_grid(
            cols,
            rows,
            q,
        ) && #[trigger] adjacent(p, q) implies visited_at(vis_post, q) || stack_has(
        s_fin,
        q,
    ) by {
        if p == p0 && !visited_at(vis_pre, p0) {
            // newly visited: only possible when the iteration pushed
            assert(pushed);
            assert(q == (p0.0 + 1, p0.1) || q == (p0.0 - 1, p0.1) || q == (p0.0, p0.1 + 1) || q
                == (p0.0, p0.1 - 1));
        } else {
            assert(visited_at(vis_pre, p));
            assert(visited_at(vis_pre, q) || stack_has(stk0, q));
            if !visited_at(vis_pre, q) {
                let i = choose|i: int|
                    0 <= i < stk0.len() && ((#[trigger] stk0[i]).0 as int) == q.0 && (stk0[i].1
                        as int) == q.1;
                if i == stk0.len() - 1 {
                    assert(q == p0);
                } else {
                    assert(s_pop[i] == stk0[i]);
                    assert(s_fin[i] == s_pop[i]);
                    assert(stack_has(s_fin, q));
                }
            }
        }
    }
}

/// Round trip through the transform: a screen coordinate inside the visible
/// region always maps to a buffer index (never `None`), the index lies
/// within the buffer, and placing it back on screen by subtracting the
/// offset returns the same coordinate — which is inside the visible region
/// by assumption.
pub proof fn lemma_transform_round_trip(c: &Canvas, x: int, y: int)
    requires
        c.wf(),
        c.relative.content_start.0 <= x < c.relative.content_start.0
            + c.relative.visible_content_size.0,
        c.relative.content_start.1 <= y < c.relative.content_start.1
            + c.relative.visible_content_size.1,
    ensures
        ({
            let r = c.spec_transform(x, y);
            &&& r is Some
            &&& 0 <= r->Some_0.0 < c.cols()
            &&& 0 <= r->Some_0.1 < c.rows()
            &&& r->Some_0.0 - c.relative.transform.0 == x
            &&& r->Some_0.1 - c.relative.transform.1 == y
        }),
{
}

/// Erasing an already-blank cell is a no-op: the buffer reads back equal.
pub proof fn lemma_erase_blank_noop(g: Seq<Seq<Cell>>, col: int, row: int)
    requires
        0 <= row < g.len(),
        0 <= col < g[row].len(),
        g[row][col] == Cell::blank(),
    ensures
        grid_update(g, col, row, Cell::blank()) == g,
{
    assert(grid_update(g, col, row, Cell::blank()) =~~= g);
}

/// What a mouse action asks the renderer to repaint: nothing, a single
/// cell at an absolute screen position, or the whole visible content.
#[derive(Clone, Copy, PartialEq, Eq, Structural, Debug)]
pub enum Redraw {
    Nothing,
    At(u16, u16, Cell),
    Content,
}

/// What a click with a tool does to a canvas. Where the transform rejects
/// the position, the buffer is untouched and nothing is repainted.
pub open spec fn click_effect(
    pre: Canvas,
    post: Canvas,
    tool: Tool,
    brush: Cell,
    x: u16,
    y: u16,
    rd: Redraw,
) -> bool {
    &&& post.area == pre.area
    &&& post.relative == pre.relative
    &&& post.cols() == pre.cols()
    &&& post.rows() == pre.rows()
    &&& match pre.spec_transform(x as int, y as int) {
        Some(p) => if tool == Tool::Brush {
            post.grid() == grid_update(pre.grid(), p.0, p.1, brush) && rd == Redraw::At(
                x,
                y,
                brush,
            )
        } else if tool == Tool::Erase {
            post.grid() == grid_update(pre.grid(), p.0, p.1, Cell::blank()) && rd == Redraw::At(
                x,
                y,
                Cell::blank(),
            )
        } else if tool == Tool::Bucket {
            post.grid() == flood_result(pre.grid(), pre.cols(), pre.rows(), p, brush) && rd
                == Redraw::Content
        } else {
            post.grid() == pre.grid() && rd == Redraw::Nothing
        },
        None => post.grid() == pre.grid() && rd == Redraw::Nothing,
    }
}

/// What a drag with a tool does to a canvas: as a click, except that the
/// bucket does not act while dragging.
pub open spec fn drag_effect(
    pre: Canvas,
    post: Canvas,
    tool: Tool,
    brush: Cell,
    x: u16,
    y: u16,
    rd: Redraw,
) -> bool {
    &&& post.area == pre.area
    &&& post.relative == pre.relative
    &&& post.cols() == pre.cols()
    &&& post.rows() == pre.rows()
    &&& match pre.spec_transform(x as int, y as int) {
        Some(p) => if tool == Tool::Brush {
            post.grid() == grid_update(pre.grid(), p.0, p.1, brush) && rd == Redraw::At(
                x,
                y,
                brush,
            )
        } else if tool == Tool::Erase {
            post.grid() == grid_update(pre.grid(), p.0, p.1, Cell::blank()) && rd == Redraw::At(
                x,
                y,
                Cell::blank(),
            )
        } else {
            post.grid() == pre.grid() && rd == Redraw::Nothing
        },
        None => post.grid() == pre.grid() && rd == Redraw::Nothing,
    }
}

/// The rectangle of a one-cell border drawn around a region at (x, y) of
/// size w × h: one step up and left, two cells wider and taller. None when
/// the region touches the screen's top or left edge — there is no room for
/// a border there — or when the enlarged rectangle would not fit a `u16`.
pub fn frame_rect(x: u16, y: u16, w: u16, h: u16) -> (r: Option<(u16, u16, u16, u16)>)
    ensures
        r is Some <==> x > 0 && y > 0 && w + 2 <= u16::MAX && h + 2 <= u16::MAX,
        r is Some ==> r->Some_0 == ((x - 1) as u16, (y - 1) as u16, (w + 2) as u16, (h
            + 2) as u16),
{
    if x == 0 || y == 0 {
        return None;
    }
    if w > 65533 || h > 65533 {
        return None;
    }
    Some((x - 1, y - 1, w + 2, h + 2))
}

impl Canvas {
    /// The visible part of the buffer, one sequence of cells per visible
    /// screen row, in screen order: row iy of the result is drawn at
    /// absolute position (content_start.0, content_start.1 + iy).
    pub fn visible_rows(&self) -> (out: Vec<Vec<Cell>>)
        requires
            self.wf(),
        ensures
            out@.len() == self.relative.visible_content_size.1 as int,
            forall|iy: int|
                0 <= iy < out@.len() ==> (#[trigger] out@[iy])@.len()
                    == self.relative.visible_content_size.0 as int,
            forall|iy: int, ix: int|
                0 <= iy < out@.len() && 0 <= ix < self.relative.visible_content_size.0
                    ==> #[trigger] out@[iy]@[ix] == self.cell_at(
                    self.relative.content_start.0 + self.relative.transform.0 + ix,
                    self.relative.content_start.1 + self.relative.transform.1 + iy,
                ),
    {
        let (start_x, start_y) = self.relative.content_start;
        let (visible_width, visible_height) = self.relative.visible_content_size;
        let (transform_x, transform_y) = self.relative.transform;

        // Buffer position of the first visible cell; in bounds by the
        // transform's well-formedness.
        let content_x: usize = ((start_x as i32) + transform_x) as usize;
        let content_y: usize = ((start_y as i32) + transform_y) as usize;

        let mut out: Vec<Vec<Cell>> = Vec::new();
        let mut iy: usize = 0;
        while iy < visible_height as usize
            invariant
                self.wf(),
                visible_width == self.relative.visible_content_size.0,
                visible_height == self.relative.visible_content_size.1,
                iy <= self.relative.visible_content_size.1,
                content_x == self.relative.content_start.0 + self.relative.transform.0,
                content_y == self.relative.content_start.1 + self.relative.transform.1,
                out@.len() == iy,
                forall|i: int|
                    0 <= i < iy ==> (#[trigger] out@[i])@.len()
                        == self.relative.visible_content_size.0 as int,
                forall|i: int, j: int|
                    0 <= i < iy && 0 <= j < self.relative.visible_content_size.0
                        ==> #[trigger] out@[i]@[j] == self.cell_at(
                        content_x + j,
                        content_y + i,
                    ),
            decreases self.relative.visible_content_size.1 - iy,
        {
            let source = &self.content[content_y + iy];
            let mut line: Vec<Cell> = Vec::new();
            let mut ix: usize = 0;
            while ix < visible_width as usize
                invariant
                    self.wf(),
                    visible_width == self.relative.visible_content_size.0,
                    iy < self.relative.visible_content_size.1,
                    ix <= self.relative.visible_content_size.0,
                    content_x == self.relative.content_start.0 + self.relative.transform.0,
                    content_y == self.relative.content_start.1 + self.relative.transform.1,
                    source@ == self.content@[content_y + iy as int]@,
                    line@.len() == ix,
                    forall|j: int|
                        0 <= j < ix ==> #[trigger] line@[j] == self.cell_at(
                            content_x + j,
                            content_y + iy as int,
                        ),
                decreases self.relative.visible_content_size.0 - ix,
            {
                line.push(source[content_x + ix]);
                ix += 1;
            }
            out.push(line);
            iy += 1;
        }
        out
    }

    /// The border box around the visible content, as (x, y, width, height):
    /// one cell outside the content on every side. None when the content
    /// starts at the screen's top or left edge.
    pub fn border_box(&self) -> (r: Option<(u16, u16, u16, u16)>)
        requires
            self.wf(),
        ensures
            ({
                let (sx, sy) = self.relative.content_start;
                let (vw, vh) = self.relative.visible_content_size;
                &&& r is Some <==> sx > 0 && sy > 0 && vw + 2 <= u16::MAX && vh + 2 <= u16::MAX
                &&& r is Some ==> r->Some_0 == ((sx - 1) as u16, (sy - 1) as u16, (vw
                    + 2) as u16, (vh + 2) as u16)
            }),
    {
        let (start_x, start_y) = self.relative.content_start;
        let (visible_width, visible_height) = self.relative.visible_content_size;
        frame_rect(start_x, start_y, visible_width, visible_height)
    }

    /// Apply a click at an absolute screen position. Painting outside the
    /// visible buffer — where the transform returns nothing — leaves the
    /// buffer untouched and requests no repaint.
    pub fn click(&mut self, tool: &Tool, brush: &Cell, click_x: u16, click_y: u16) -> (rd: Redraw)
        requires
            old(self).wf(),
        ensures
            final(self).wf(),
            click_effect(*old(self), *final(self), *tool, *brush, click_x, click_y, rd),
    {
        match self.apply_transform(click_x, click_y) {
            Some((content_x, content_y)) => match tool {
                Tool::Brush => {
                    self.paint(content_x, content_y, *brush);
                    Redraw::At(click_x, click_y, *brush)
                },
                Tool::Erase => {
                    self.erase(content_x, content_y);
                    Redraw::At(click_x, click_y, Cell::empty())
                },
                Tool::Bucket => {
                    self.flood_fill(content_x, content_y, *brush);
                    Redraw::Content
                },
                _ => Redraw::Nothing,
            },
            None => Redraw::Nothing,
        }
    }

    /// Apply a drag step at an absolute screen position: like a click, but
    /// the bucket tool does not act while dragging.
    pub fn drag(&mut self, tool: &Tool, brush: &Cell, click_x: u16, click_y: u16) -> (rd: Redraw)
        requires
            old(self).wf(),
        ensures
            final(self).wf(),
            drag_effect(*old(self), *final(self), *tool, *brush, click_x, click_y, rd),
    {
        match self.apply_transform(click_x, click_y) {
            Some((content_x, content_y)) => match tool {
                Tool::Brush => {
                    self.paint(content_x, content_y, *brush);
                    Redraw::At(click_x, click_y, *brush)
                },
                Tool::Erase => {
                    self.erase(content_x, content_y);
                    Redraw::At(click_x, click_y, Cell::empty())
                },
                _ => Redraw::Nothing,
            },
            None => Redraw::Nothing,
        }
    }

    /// React to a mouse action inside the canvas: a left press clicks, a
    /// left drag drags, everything else is ignored.
    pub fn mouse_event(&mut self, kind: MouseKind, column: u16, row: u16, tool: &Tool, brush: &Cell)
        -> (rd: Redraw)
        requires
            old(self).wf(),
        ensures
            final(self).wf(),
            kind == MouseKind::LeftDown ==> click_effect(
                *old(self),
                *final(self),
                *tool,
                *brush,
                column,
                row,
                rd,
            ),
            kind == MouseKind::LeftDrag ==> drag_effect(
                *old(self),
                *final(self),
                *tool,
                *brush,
                column,
                row,
                rd,
            ),
            kind != MouseKind::LeftDown && kind != MouseKind::LeftDrag ==> *final(self) == *old(
                self,
            ) && rd == Redraw::Nothing,
    {
        match kind {
            MouseKind::LeftDown => self.click(tool, brush, column, row),
            MouseKind::LeftDrag => self.drag(tool, brush, column, row),
            _ => Redraw::Nothing,
        }
    }
}

} // verus!
