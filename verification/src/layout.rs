//! Where things stand on the screen.

use ratatui::layout::{Constraint, Direction, Layout};
use vstd::prelude::*;

verus! {

/// A rectangle of screen cells.
#[derive(Clone, Copy, Debug, PartialEq, Eq, Structural)]
pub struct Rect {
    pub x: u16,
    pub y: u16,
    pub width: u16,
    pub height: u16,
}

impl Rect {
    /// The column behind the last one, as far as columns can be counted.
    pub open spec fn right_edge(self) -> int {
        if self.x + self.width > u16::MAX {
            u16::MAX as int
        } else {
            self.x + self.width
        }
    }

    /// The row below the last one, as far as rows can be counted.
    pub open spec fn bottom_edge(self) -> int {
        if self.y + self.height > u16::MAX {
            u16::MAX as int
        } else {
            self.y + self.height
        }
    }

    /// All columns and rows can be counted.
    pub open spec fn fits(self) -> bool {
        self.x + self.width <= u16::MAX && self.y + self.height <= u16::MAX
    }

    /// Every cell of this rectangle lies in another.
    pub open spec fn within(self, outer: Rect) -> bool {
        &&& outer.x <= self.x
        &&& outer.y <= self.y
        &&& self.right_edge() <= outer.right_edge()
        &&& self.bottom_edge() <= outer.bottom_edge()
    }

    /// No cell lies in both of two rectangles.
    pub open spec fn apart_from(self, other: Rect) -> bool {
        ||| self.right_edge() <= other.x
        ||| other.right_edge() <= self.x
        ||| self.bottom_edge() <= other.y
        ||| other.bottom_edge() <= self.y
    }

    /// The column behind the last one, as far as columns can be counted.
    pub fn right(&self) -> (r: u16)
        ensures
            r == self.right_edge(),
    {
        if self.width > u16::MAX - self.x {
            u16::MAX
        } else {
            self.x + self.width
        }
    }

    /// The row below the last one, as far as rows can be counted.
    pub fn bottom(&self) -> (r: u16)
        ensures
            r == self.bottom_edge(),
    {
        if self.height > u16::MAX - self.y {
            u16::MAX
        } else {
            self.y + self.height
        }
    }
}

/// The direction in which parts follow each other.
#[derive(Clone, Copy, Debug, PartialEq, Eq, Structural)]
pub enum Axis {
    Horizontal,
    Vertical,
}

/// How much of an area one of its parts wants.
#[derive(Clone, Copy, Debug, PartialEq, Eq, Structural)]
pub enum Part {
    /// At least so many cells.
    Min(u16),
    /// So many cells.
    Length(u16),
    /// So many hundredths of the area.
    Percentage(u16),
    /// The first number divided by the second, of the area.
    Ratio(u32, u32),
}

/// Where an area begins along an axis.
pub open spec fn near(axis: Axis, area: Rect) -> int {
    match axis {
        Axis::Horizontal => area.x as int,
        Axis::Vertical => area.y as int,
    }
}

/// Where an area ends along an axis.
pub open spec fn far(axis: Axis, area: Rect) -> int {
    match axis {
        Axis::Horizontal => area.right_edge(),
        Axis::Vertical => area.bottom_edge(),
    }
}

/// The part of an area between two points of an axis.
pub open spec fn piece(axis: Axis, area: Rect, from: int, to: int) -> Rect {
    match axis {
        Axis::Horizontal => Rect {
            x: from as u16,
            y: area.y,
            width: (to - from) as u16,
            height: area.height,
        },
        Axis::Vertical => Rect {
            x: area.x,
            y: from as u16,
            width: area.width,
            height: (to - from) as u16,
        },
    }
}

/// The cell nearest to the point that lies `num / den` of the way from one point to another, the
/// farther one where two are equally near.
pub open spec fn cut(from: int, to: int, num: int, den: int) -> int {
    (2 * (from * den + (to - from) * num) + den) / (2 * den)
}

/// The part of an area between two fractions of its extent.
pub open spec fn share(axis: Axis, area: Rect, first: int, last: int, den: int) -> Rect {
    piece(
        axis,
        area,
        cut(near(axis, area), far(axis, area), first, den),
        cut(near(axis, area), far(axis, area), last, den),
    )
}

/// All parts want the same, and together the whole area.
pub open spec fn is_even(parts: Seq<Part>) -> bool {
    &&& parts.len() <= u32::MAX
    &&& forall|i: int|
        0 <= i < parts.len() ==> #[trigger] parts[i] == Part::Ratio(1, parts.len() as u32)
}

/// The hundredths that the first `k` parts want together.
pub open spec fn percent_before(parts: Seq<Part>, k: int) -> int
    decreases k,
{
    if k <= 0 {
        0
    } else {
        percent_before(parts, k - 1) + parts[k - 1]->Percentage_0
    }
}

/// All parts want hundredths, and together no more than the whole area.
pub open spec fn is_percent(parts: Seq<Part>) -> bool {
    &&& forall|i: int| 0 <= i < parts.len() ==> #[trigger] parts[i] is Percentage
    &&& percent_before(parts, parts.len() as int) <= 100
}

/// A rectangle takes up a part of an area along an axis, and all of it across.
pub open spec fn lies_along(axis: Axis, area: Rect, r: Rect) -> bool {
    match axis {
        Axis::Horizontal => {
            &&& r.y == area.y
            &&& r.height == area.height
            &&& area.x <= r.x
            &&& r.x + r.width <= area.right_edge()
        },
        Axis::Vertical => {
            &&& r.x == area.x
            &&& r.width == area.width
            &&& area.y <= r.y
            &&& r.y + r.height <= area.bottom_edge()
        },
    }
}

/// Rectangles take up an area along an axis: the first begins where the area begins, each other
/// one where the one before it ends, and the last ends where the area ends.
pub open spec fn fills(axis: Axis, area: Rect, out: Seq<Rect>) -> bool {
    &&& forall|i: int| 0 <= i < out.len() ==> lies_along(axis, area, #[trigger] out[i])
    &&& out.len() > 0 ==> near(axis, out[0]) == near(axis, area)
    &&& out.len() > 0 ==> far(axis, out.last()) == far(axis, area)
    &&& forall|i: int, j: int|
        0 <= i && j == i + 1 && j < out.len() ==> far(axis, #[trigger] out[i]) == near(
            axis,
            #[trigger] out[j],
        )
}

/// What is known of an area that was split into parts.
///
/// There is one rectangle for each part, and all of them lie in the area. Even parts take up the
/// whole area, one behind the other, and up to a hundred of them are cut at the nearest cells.
/// Parts in hundredths follow each other from the beginning of the area, cut at the nearest cells.
/// Before one part of a fixed size that fits, a part without a size takes the rest.
pub open spec fn is_split(axis: Axis, parts: Seq<Part>, area: Rect, out: Seq<Rect>) -> bool {
    &&& out.len() == parts.len()
    &&& forall|i: int| 0 <= i < out.len() ==> lies_along(axis, area, #[trigger] out[i])
    &&& is_even(parts) ==> fills(axis, area, out)
    &&& is_even(parts) && parts.len() <= 100 ==> forall|i: int|
        0 <= i < out.len() ==> #[trigger] out[i] == share(
            axis,
            area,
            i,
            i + 1,
            parts.len() as int,
        )
    &&& is_percent(parts) ==> forall|i: int|
        0 <= i < out.len() ==> #[trigger] out[i] == share(
            axis,
            area,
            percent_before(parts, i),
            percent_before(parts, i + 1),
            100,
        )
    &&& parts.len() == 2 && parts[0] == Part::Min(0) && parts[1] is Length
        && parts[1]->Length_0 <= far(axis, area) - near(axis, area) ==> {
        let middle = far(axis, area) - parts[1]->Length_0;
        &&& out[0] == piece(axis, area, near(axis, area), middle)
        &&& out[1] == piece(axis, area, middle, far(axis, area))
    }
}

/// `ratatui::layout::Layout::split` splits an area along an axis into parts, here without
/// margins or gaps. Its solver keeps every part inside the area, lets each part begin at the very
/// point where the one before it ends, and meets the sizes that the parts want where they can all
/// be met; it computes in hundredths of a cell and rounds each point to a cell. `is_split` says
/// what follows. How parts whose wants cannot all be met share the area, and at which cells more
/// than a hundred even parts are cut, is not claimed.
#[verifier::external_body]
fn split(axis: Axis, parts: &Vec<Part>, area: Rect) -> (r: Vec<Rect>)
    ensures
        is_split(axis, parts@, area, r@),
{
    let direction = match axis {
        Axis::Horizontal => Direction::Horizontal,
        Axis::Vertical => Direction::Vertical,
    };
    let constraints = parts.iter().map(|p| match *p {
        Part::Min(n) => Constraint::Min(n),
        Part::Length(n) => Constraint::Length(n),
        Part::Percentage(n) => Constraint::Percentage(n),
        Part::Ratio(n, d) => Constraint::Ratio(n, d),
    });
    let Rect { x, y, width, height } = area;
    let area = ratatui::layout::Rect { x, y, width, height };
    let areas = Layout::new(direction, constraints).split(area);
    areas.iter().map(|a| Rect { x: a.x, y: a.y, width: a.width, height: a.height }).collect()
}

/// The area inside a border of one cell on each side.
pub open spec fn inside_border(area: Rect) -> Rect {
    Rect {
        x: (if area.x < area.right_edge() {
            area.x + 1
        } else {
            area.right_edge()
        }) as u16,
        y: (if area.y < area.bottom_edge() {
            area.y + 1
        } else {
            area.bottom_edge()
        }) as u16,
        width: (if area.width >= 2 {
            area.width - 2
        } else {
            0
        }) as u16,
        height: (if area.height >= 2 {
            area.height - 2
        } else {
            0
        }) as u16,
    }
}

/// `ratatui::widgets::Block::inner`, of a block with borders on all four sides and no padding,
/// takes one cell off each side of an area, as far as there are any.
#[verifier::external_body]
fn block_inner(area: Rect) -> (r: Rect)
    ensures
        r == inside_border(area),
{
    let Rect { x, y, width, height } = area;
    let block = ratatui::widgets::Block::default().borders(ratatui::widgets::Borders::ALL);
    let a = block.inner(ratatui::layout::Rect { x, y, width, height });
    Rect { x: a.x, y: a.y, width: a.width, height: a.height }
}

/// The area inside a border of one cell on each side.
pub fn bordered_inner(area: Rect) -> (r: Rect)
    ensures
        r == inside_border(area),
        area.fits() ==> r.fits() && r.within(area),
{
    block_inner(area)
}

/// Split off the last rows of an area, where it has as many.
pub fn split_off_bottom(area: Rect, rows: u16) -> (r: (Rect, Rect))
    requires
        rows <= area.bottom_edge() - area.y,
    ensures
        r.0 == piece(Axis::Vertical, area, area.y as int, area.bottom_edge() - rows),
        r.1 == piece(Axis::Vertical, area, area.bottom_edge() - rows, area.bottom_edge()),
{
    let mut parts: Vec<Part> = Vec::new();
    parts.push(Part::Min(0));
    parts.push(Part::Length(rows));
    let out = split(Axis::Vertical, &parts, area);
    (out[0], out[1])
}

/// The smallest number whose square is at least `n`.
pub open spec fn side(n: nat) -> nat
    decreases n,
{
    if n == 0 {
        0
    } else {
        let s = side((n - 1) as nat);
        if s * s >= n {
            s
        } else {
            s + 1
        }
    }
}

/// `side` is the square root, rounded up.
pub proof fn lemma_side(n: nat)
    requires
        n > 0,
    ensures
        1 <= side(n) <= n,
        side(n) * side(n) >= n,
        (side(n) - 1) * (side(n) - 1) < n,
    decreases n,
{
    let s = side((n - 1) as nat);
    if n > 1 {
        lemma_side((n - 1) as nat);
        assert((s + 1) * (s + 1) == s * s + 2 * s + 1) by (nonlinear_arith);
        if s == n {
            assert(n * n > n) by (nonlinear_arith)
                requires
                    n > 1,
            ;
        }
    }
}

/// A number whose square is at least `n`, while that of the one before is not, is `side`.
proof fn lemma_side_is(n: nat, c: int)
    requires
        n > 0,
        c > 0,
        c * c >= n,
        (c - 1) * (c - 1) < n,
    ensures
        c == side(n),
{
    lemma_side(n);
    let s = side(n) as int;
    if c < s {
        assert(c * c <= (s - 1) * (s - 1)) by (nonlinear_arith)
            requires
                0 < c <= s - 1,
        ;
    }
    if s < c {
        assert(s * s <= (c - 1) * (c - 1)) by (nonlinear_arith)
            requires
                0 < s <= c - 1,
        ;
    }
}

/// The number of rows that `n` panels take in a grid.
pub open spec fn grid_rows(n: nat) -> int {
    (n + side(n) - 1) / (side(n) as int)
}

/// The number of panels in a row of a grid: every row but the last is full.
pub open spec fn panels_in_row(n: nat, row: int) -> int {
    if row < grid_rows(n) - 1 {
        side(n) as int
    } else {
        n - (grid_rows(n) - 1) * side(n)
    }
}

/// There are no more rows than columns, and the last row is neither empty nor overfull.
pub proof fn lemma_grid(n: nat)
    requires
        n > 0,
    ensures
        1 <= grid_rows(n) <= side(n),
        (grid_rows(n) - 1) * side(n) < n <= grid_rows(n) * side(n),
        forall|row: int| 1 <= #[trigger] panels_in_row(n, row) <= side(n),
{
    lemma_side(n);
    let c = side(n) as int;
    let rows = grid_rows(n);
    let total = n + c - 1;
    vstd::arithmetic::div_mod::lemma_fundamental_div_mod(total, c);
    assert(rows * c <= total < rows * c + c) by (nonlinear_arith)
        requires
            total == c * rows + total % c,
            0 <= total % c < c,
    ;
    assert((rows - 1) * c == rows * c - c) by (nonlinear_arith);
    assert(rows >= 1) by (nonlinear_arith)
        requires
            rows * c >= n,
            n > 0,
            c > 0,
    ;
    assert(rows <= c) by (nonlinear_arith)
        requires
            (rows - 1) * c < n,
            n <= c * c,
            c > 0,
    ;
}

/// The area of one of `n` panels: the whole for one, two of them below each other, and more in
/// a grid, row by row.
pub open spec fn grid_cell(area: Rect, n: nat, i: int) -> Rect {
    if n == 1 {
        area
    } else if n == 2 {
        share(Axis::Vertical, area, i, i + 1, 2)
    } else {
        let row = i / (side(n) as int);
        let col = i % (side(n) as int);
        share(
            Axis::Horizontal,
            share(Axis::Vertical, area, row, row + 1, grid_rows(n)),
            col,
            col + 1,
            panels_in_row(n, row),
        )
    }
}

/// The cells of one row of a grid.
pub open spec fn cells_in_row(cells: Seq<Rect>, row: int) -> Seq<Rect> {
    let first = row * side(cells.len());
    cells.subrange(first, first + panels_in_row(cells.len(), row))
}

/// Cells stand in a grid with these rows: the rows take up the area from top to bottom, and the
/// cells of each row take up the row from left to right.
pub open spec fn is_grid(area: Rect, cells: Seq<Rect>, rows: Seq<Rect>) -> bool {
    &&& rows.len() == grid_rows(cells.len())
    &&& fills(Axis::Vertical, area, rows)
    &&& forall|row: int|
        0 <= row < rows.len() ==> fills(
            Axis::Horizontal,
            #[trigger] rows[row],
            cells_in_row(cells, row),
        )
}

/// How any number of panels is laid out: one takes the whole area, two stand below each other,
/// and more stand in a grid, row by row.
pub open spec fn is_layout(area: Rect, cells: Seq<Rect>) -> bool {
    &&& cells.len() == 1 ==> cells[0] == area
    &&& cells.len() == 2 ==> fills(Axis::Vertical, area, cells)
    &&& cells.len() > 2 ==> exists|rows: Seq<Rect>| is_grid(area, cells, rows)
}

/// Parts that each want the same share of an area.
fn even_parts(n: usize) -> (r: Vec<Part>)
    requires
        n <= u32::MAX,
    ensures
        r@.len() == n,
        is_even(r@),
{
    let mut r: Vec<Part> = Vec::new();
    while r.len() < n
        invariant
            n <= u32::MAX,
            r@.len() <= n,
            forall|i: int| 0 <= i < r@.len() ==> #[trigger] r@[i] == Part::Ratio(1, n as u32),
        decreases n - r@.len(),
    {
        r.push(Part::Ratio(1, n as u32));
    }
    r
}

/// The square root, rounded up.
fn columns_for(n: usize) -> (r: usize)
    requires
        0 < n < 0x10_0000_0000_0000,
    ensures
        r == side(n as nat),
        r <= u32::MAX,
{
    let mut c: u64 = 1;
    while c * c < n as u64
        invariant
            1 <= c <= 0x400_0000,
            0 < n < 0x10_0000_0000_0000,
            (c - 1) * (c - 1) < n,
            c <= n,
            c * c <= u64::MAX,
        decreases n - c,
    {
        proof {
            assert(c < 0x400_0000) by (nonlinear_arith)
                requires
                    c * c < 0x10_0000_0000_0000,
                    c <= 0x400_0000,
            ;
            assert(c < n) by (nonlinear_arith)
                requires
                    c * c < n,
                    1 <= c,
            ;
            assert((c + 1) * (c + 1) <= 0x10_0000_0000_0000) by (nonlinear_arith)
                requires
                    c + 1 <= 0x400_0000,
            ;
        }
        c += 1;
    }
    proof {
        lemma_side_is(n as nat, c as int);
    }
    c as usize
}

/// Compute the areas of `n` panels in a grid.
pub fn compute_grid(area: Rect, n: usize) -> (r: Vec<Rect>)
    requires
        n < 0x10_0000_0000_0000,
    ensures
        r@.len() == n,
        is_layout(area, r@),
        forall|i: int| 0 <= i < n ==> (#[trigger] r@[i]).within(area),
        area.fits() ==> forall|i: int| 0 <= i < n ==> (#[trigger] r@[i]).fits(),
        n <= 10_000 ==> forall|i: int|
            0 <= i < n ==> #[trigger] r@[i] == grid_cell(area, n as nat, i),
{
    let mut panels: Vec<Rect> = Vec::new();
    if n == 0 {
        return panels;
    }
    if n == 1 {
        panels.push(area);
        return panels;
    }
    if n == 2 {
        let parts = even_parts(2);
        return split(Axis::Vertical, &parts, area);
    }
    let cols: usize = columns_for(n);
    proof {
        lemma_side(n as nat);
        lemma_grid(n as nat);
        vstd::arithmetic::div_mod::lemma_div_plus_one(n - 1, cols as int);
        if n <= 10_000 {
            assert(cols <= 100) by (nonlinear_arith)
                requires
                    (cols - 1) * (cols - 1) < 10_000,
            ;
        }
    }
    let rows: usize = (n - 1) / cols + 1;
    let row_parts = even_parts(rows);
    let row_areas = split(Axis::Vertical, &row_parts, area);
    let mut row: usize = 0;
    while row < rows
        invariant
            2 < n < 0x10_0000_0000_0000,
            cols == side(n as nat),
            rows == grid_rows(n as nat),
            1 <= rows <= cols <= u32::MAX,
            (rows - 1) * cols < n <= rows * cols,
            row <= rows,
            n <= 10_000 ==> cols <= 100,
            is_split(Axis::Vertical, row_parts@, area, row_areas@),
            row_parts@.len() == rows,
            is_even(row_parts@),
            panels@.len() == if row < rows {
                row * cols
            } else {
                n as int
            },
            forall|r: int|
                0 <= r < row ==> fills(
                    Axis::Horizontal,
                    #[trigger] row_areas@[r],
                    panels@.subrange(
                        r * cols,
                        r * cols + panels_in_row(n as nat, r),
                    ),
                ),
            forall|i: int| 0 <= i < panels@.len() ==> (#[trigger] panels@[i]).within(area),
            area.fits() ==> forall|i: int|
                0 <= i < panels@.len() ==> (#[trigger] panels@[i]).fits(),
            n <= 10_000 ==> forall|i: int|
                0 <= i < panels@.len() ==> #[trigger] panels@[i] == grid_cell(area, n as nat, i),
        decreases rows - row,
    {
        proof {
            lemma_grid(n as nat);
            assert((row + 1) * cols == row * cols + cols) by (nonlinear_arith);
            assert(row < rows - 1 ==> (row + 1) * cols <= (rows - 1) * cols) by (nonlinear_arith)
                requires
                    0 < cols,
            ;
        }
        let count: usize = if row < rows - 1 {
            cols
        } else {
            n - panels.len()
        };
        assert(count == panels_in_row(n as nat, row as int));
        let col_parts = even_parts(count);
        let mut col_areas = split(Axis::Horizontal, &col_parts, row_areas[row]);
        let ghost before = panels@;
        let ghost cells = col_areas@;
        panels.append(&mut col_areas);
        proof {
            assert forall|i: int| 0 <= i < panels@.len() implies (#[trigger] panels@[i]).within(
                area,
            ) && (area.fits() ==> panels@[i].fits()) by {
                if i >= before.len() {
                    assert(lies_along(Axis::Vertical, area, row_areas@[row as int]));
                    assert(lies_along(
                        Axis::Horizontal,
                        row_areas@[row as int],
                        cells[i - before.len()],
                    ));
                }
            }
            assert forall|r: int| 0 <= r < row + 1 implies fills(
                Axis::Horizontal,
                #[trigger] row_areas@[r],
                panels@.subrange(r * cols, r * cols + panels_in_row(n as nat, r)),
            ) by {
                let count = panels_in_row(n as nat, r);
                if r < row {
                    assert(0 <= r * cols && r * cols + cols <= row * cols) by (nonlinear_arith)
                        requires
                            0 <= r < row,
                            0 < cols,
                    ;
                    assert(panels@.subrange(r * cols, r * cols + count) == before.subrange(
                        r * cols,
                        r * cols + count,
                    ));
                } else {
                    assert(panels@.subrange(r * cols, r * cols + count) == cells);
                }
            }
            if n <= 10_000 {
                assert forall|i: int| 0 <= i < panels@.len() implies #[trigger] panels@[i]
                    == grid_cell(area, n as nat, i) by {
                    if i >= before.len() {
                        let col = i - row * cols;
                        assert(panels@[i] == cells[col]);
                        vstd::arithmetic::div_mod::lemma_fundamental_div_mod_converse(
                            i,
                            cols as int,
                            row as int,
                            col,
                        );
                    }
                }
            }
        }
        row += 1;
    }
    assert(is_grid(area, panels@, row_areas@));
    panels
}

/// The rectangle in the middle of another that takes up so many hundredths of it.
pub open spec fn centered(percent_x: int, percent_y: int, r: Rect) -> Rect {
    let above = (100 - percent_y) / 2;
    let left = (100 - percent_x) / 2;
    share(
        Axis::Horizontal,
        share(Axis::Vertical, r, above, above + percent_y, 100),
        left,
        left + percent_x,
        100,
    )
}

/// The middle one of three parts of an area.
fn middle(axis: Axis, percent: u16, area: Rect) -> (r: Rect)
    requires
        percent <= 100,
    ensures
        lies_along(axis, area, r),
        r == share(
            axis,
            area,
            (100 - percent) / 2,
            (100 - percent) / 2 + percent,
            100,
        ),
{
    let mut parts: Vec<Part> = Vec::new();
    parts.push(Part::Percentage((100 - percent) / 2));
    parts.push(Part::Percentage(percent));
    parts.push(Part::Percentage((100 - percent) / 2));
    proof {
        reveal_with_fuel(percent_before, 4);
        assert(is_percent(parts@));
    }
    let out = split(axis, &parts, area);
    out[1]
}

/// The rectangle in the middle of another that takes up so many hundredths of it.
pub fn centered_rect(percent_x: u16, percent_y: u16, r: Rect) -> (out: Rect)
    requires
        percent_x <= 100,
        percent_y <= 100,
    ensures
        out == centered(percent_x as int, percent_y as int, r),
        out.within(r),
{
    middle(Axis::Horizontal, percent_x, middle(Axis::Vertical, percent_y, r))
}

/// The row and the column of a panel in a grid.
proof fn lemma_grid_place(n: nat, i: int)
    requires
        0 <= i < n,
    ensures
        0 <= i / (side(n) as int) < grid_rows(n),
        0 <= i % (side(n) as int) < panels_in_row(n, i / (side(n) as int)),
        i == i / (side(n) as int) * side(n) + i % (side(n) as int),
{
    lemma_grid(n);
    lemma_side(n);
    let c = side(n) as int;
    let rows = grid_rows(n);
    let row = i / c;
    let col = i % c;
    vstd::arithmetic::div_mod::lemma_fundamental_div_mod(i, c);
    assert(i == row * c + col) by (nonlinear_arith)
        requires
            i == c * row + col,
    ;
    assert(row >= 0) by (nonlinear_arith)
        requires
            i == row * c + col,
            0 <= i,
            col < c,
            c > 0,
    ;
    assert(row < rows) by (nonlinear_arith)
        requires
            i == row * c + col,
            i < n,
            n <= rows * c,
            0 <= col,
            c > 0,
    ;
}

/// Where the panels of a row lie among all panels.
proof fn lemma_row_lies_in_grid(n: nat, row: int)
    requires
        n > 0,
        0 <= row < grid_rows(n),
    ensures
        0 <= row * side(n),
        row * side(n) + panels_in_row(n, row) <= n,
{
    lemma_grid(n);
    lemma_side(n);
    let c = side(n) as int;
    let last = grid_rows(n) - 1;
    assert(0 <= row * c) by (nonlinear_arith)
        requires
            0 <= row,
            0 < c,
    ;
    assert(row < last ==> row * c + c <= last * c) by (nonlinear_arith)
        requires
            0 < c,
    ;
}

/// Of rectangles that take up an area, an earlier one ends before a later one begins.
proof fn lemma_fills_in_order(axis: Axis, area: Rect, out: Seq<Rect>, i: int, j: int)
    requires
        fills(axis, area, out),
        0 <= i < j < out.len(),
    ensures
        far(axis, out[i]) <= near(axis, out[j]),
    decreases j - i,
{
    assert(far(axis, out[j - 1]) == near(axis, out[j]));
    if i < j - 1 {
        lemma_fills_in_order(axis, area, out, i, j - 1);
        assert(lies_along(axis, area, out[j - 1]));
    }
}

/// No two panels share a cell of the screen.
pub proof fn law_panels_do_not_overlap(area: Rect, cells: Seq<Rect>, i: int, j: int)
    requires
        is_layout(area, cells),
        0 <= i < j < cells.len(),
    ensures
        cells[i].apart_from(cells[j]),
{
    let n = cells.len();
    if n == 2 {
        lemma_fills_in_order(Axis::Vertical, area, cells, i, j);
    } else {
        let rows = choose|rows: Seq<Rect>| is_grid(area, cells, rows);
        lemma_grid(n);
        lemma_grid_place(n, i);
        lemma_grid_place(n, j);
        let c = side(n) as int;
        let (ri, ci) = (i / c, i % c);
        let (rj, cj) = (j / c, j % c);
        lemma_row_lies_in_grid(n, ri);
        lemma_row_lies_in_grid(n, rj);
        assert(fills(Axis::Horizontal, rows[ri], cells_in_row(cells, ri)));
        assert(fills(Axis::Horizontal, rows[rj], cells_in_row(cells, rj)));
        assert(cells_in_row(cells, ri)[ci] == cells[i]);
        assert(cells_in_row(cells, rj)[cj] == cells[j]);
        assert(lies_along(Axis::Vertical, area, rows[ri]));
        assert(lies_along(Axis::Vertical, area, rows[rj]));
        assert(ri <= rj) by (nonlinear_arith)
            requires
                ri * c + ci < rj * c + cj,
                0 <= ci,
                cj < c,
                c > 0,
        ;
        if ri < rj {
            lemma_fills_in_order(Axis::Vertical, area, rows, ri, rj);
        } else {
            assert(ci < cj);
            lemma_fills_in_order(Axis::Horizontal, rows[ri], cells_in_row(cells, ri), ci, cj);
        }
    }
}

/// A cell of the screen lies in a rectangle.
pub open spec fn covers(r: Rect, x: int, y: int) -> bool {
    r.x <= x < r.right_edge() && r.y <= y < r.bottom_edge()
}

/// Of rectangles that take up an area, one of the first `k` holds a point before their end.
proof fn lemma_fills_around(axis: Axis, area: Rect, out: Seq<Rect>, p: int, k: int) -> (r: int)
    requires
        fills(axis, area, out),
        0 < k <= out.len(),
        near(axis, area) <= p < far(axis, out[k - 1]),
    ensures
        0 <= r < k,
        near(axis, out[r]) <= p < far(axis, out[r]),
    decreases k,
{
    if near(axis, out[k - 1]) <= p {
        k - 1
    } else {
        assert(far(axis, out[k - 2]) == near(axis, out[k - 1]));
        lemma_fills_around(axis, area, out, p, k - 1)
    }
}

/// Every cell of the screen lies in a panel.
pub proof fn law_panels_cover_the_screen(area: Rect, cells: Seq<Rect>, x: int, y: int) -> (i: int)
    requires
        is_layout(area, cells),
        0 < cells.len(),
        covers(area, x, y),
    ensures
        0 <= i < cells.len(),
        covers(cells[i], x, y),
{
    let n = cells.len();
    if n == 1 {
        0
    } else if n == 2 {
        let row = lemma_fills_around(Axis::Vertical, area, cells, y, 2);
        assert(lies_along(Axis::Vertical, area, cells[row]));
        row
    } else {
        let rows = choose|rows: Seq<Rect>| is_grid(area, cells, rows);
        lemma_grid(n);
        let row = lemma_fills_around(Axis::Vertical, area, rows, y, rows.len() as int);
        assert(lies_along(Axis::Vertical, area, rows[row]));
        let across = cells_in_row(cells, row);
        let count = panels_in_row(n, row);
        let first = row * side(n);
        lemma_row_lies_in_grid(n, row);
        assert(fills(Axis::Horizontal, rows[row], across));
        let col = lemma_fills_around(Axis::Horizontal, rows[row], across, x, count);
        assert(lies_along(Axis::Horizontal, rows[row], across[col]));
        assert(across[col] == cells[first + col]);
        first + col
    }
}

/// One panel takes the whole screen. Two stand one below the other over its whole width. More stand
/// in rows of as many panels as the square root of their number, rounded up: panels of one row
/// stand beside each other at the same height, and panels of later rows below.
pub proof fn law_panels_are_arranged(area: Rect, cells: Seq<Rect>, per_row: int, i: int, j: int)
    requires
        is_layout(area, cells),
        0 <= i < j < cells.len(),
        per_row > 0,
        per_row * per_row >= cells.len(),
        (per_row - 1) * (per_row - 1) < cells.len(),
    ensures
        ({
            let (p, q) = (cells[i], cells[j]);
            &&& cells.len() == 2 ==> {
                &&& p.x == area.x && q.x == area.x
                &&& p.width == area.width && q.width == area.width
                &&& p.y == area.y && q.y == p.y + p.height
            }
            &&& cells.len() > 2 && i / per_row == j / per_row ==> p.y == q.y && p.height == q.height
                && p.right_edge() <= q.x
            &&& cells.len() > 2 && i / per_row != j / per_row ==> p.bottom_edge() <= q.y
        }),
{
    let n = cells.len();
    lemma_side_is(n, per_row);
    if n == 2 {
        assert(lies_along(Axis::Vertical, area, cells[i]));
        assert(lies_along(Axis::Vertical, area, cells[j]));
        assert(far(Axis::Vertical, cells[i]) == near(Axis::Vertical, cells[j]));
    } else {
        let rows = choose|rows: Seq<Rect>| is_grid(area, cells, rows);
        lemma_grid(n);
        lemma_grid_place(n, i);
        lemma_grid_place(n, j);
        let c = side(n) as int;
        let (ri, ci) = (i / c, i % c);
        let (rj, cj) = (j / c, j % c);
        lemma_row_lies_in_grid(n, ri);
        lemma_row_lies_in_grid(n, rj);
        assert(fills(Axis::Horizontal, rows[ri], cells_in_row(cells, ri)));
        assert(fills(Axis::Horizontal, rows[rj], cells_in_row(cells, rj)));
        assert(cells_in_row(cells, ri)[ci] == cells[i]);
        assert(cells_in_row(cells, rj)[cj] == cells[j]);
        assert(lies_along(Axis::Vertical, area, rows[ri]));
        assert(ri <= rj) by (nonlinear_arith)
            requires
                ri * c + ci < rj * c + cj,
                0 <= ci,
                cj < c,
                c > 0,
        ;
        if ri < rj {
            lemma_fills_in_order(Axis::Vertical, area, rows, ri, rj);
        } else {
            lemma_fills_in_order(Axis::Horizontal, rows[ri], cells_in_row(cells, ri), ci, cj);
        }
    }
}

/// An area is cut at the cell nearest to the exact place, and at the next one where two are as
/// near; nothing is cut off at its beginning, and everything at its end.
pub proof fn law_cuts_are_rounded(from: int, to: int, num: int, den: int)
    requires
        from <= to,
        0 <= num <= den,
        0 < den,
    ensures
        ({
            let at = cut(from, to, num, den);
            let exact = from * den + (to - from) * num;
            &&& 2 * exact - den < 2 * (at * den) <= 2 * exact + den
            &&& from <= at <= to
            &&& num == 0 ==> at == from
            &&& num == den ==> at == to
        }),
{
    let exact = from * den + (to - from) * num;
    let at = cut(from, to, num, den);
    vstd::arithmetic::div_mod::lemma_fundamental_div_mod(2 * exact + den, 2 * den);
    assert(2 * den * at == 2 * (at * den)) by (nonlinear_arith);
    assert(from * den <= exact <= to * den) by (nonlinear_arith)
        requires
            exact == from * den + (to - from) * num,
            from <= to,
            0 <= num <= den,
    ;
    assert(num == 0 ==> exact == from * den) by (nonlinear_arith)
        requires
            exact == from * den + (to - from) * num,
    ;
    assert(num == den ==> exact == to * den) by (nonlinear_arith)
        requires
            exact == from * den + (to - from) * num,
    ;
    assert(from <= at <= to && (exact == from * den ==> at == from) && (exact == to * den ==> at
        == to)) by (nonlinear_arith)
        requires
            2 * exact - den < 2 * (at * den) <= 2 * exact + den,
            from * den <= exact <= to * den,
            0 < den,
    ;
}

/// One of several even shares is as large as the exact share, to within a cell.
proof fn lemma_even_share(axis: Axis, area: Rect, i: int, den: int)
    requires
        area.fits(),
        0 <= i < den,
    ensures
        ({
            let r = share(axis, area, i, i + 1, den);
            let (size, all) = (far(axis, r) - near(axis, r), far(axis, area) - near(axis, area));
            &&& r.fits()
            &&& lies_along(axis, area, r)
            &&& -den < size * den - all < den
        }),
{
    let (from, to) = (near(axis, area), far(axis, area));
    law_cuts_are_rounded(from, to, i, den);
    law_cuts_are_rounded(from, to, i + 1, den);
    let (p, q) = (cut(from, to, i, den), cut(from, to, i + 1, den));
    assert((to - from) * (i + 1) == (to - from) * i + (to - from)) by (nonlinear_arith);
    assert((q - p) * den == q * den - p * den) by (nonlinear_arith);
    assert(p <= q) by (nonlinear_arith)
        requires
            -den < (q - p) * den - (to - from),
            from <= to,
            0 < den,
    ;
}

/// The panels of a row are as wide as each other, and the rows as high as each other, to within a
/// cell: each takes its share of the screen.
pub proof fn law_panels_are_even(area: Rect, n: nat, per_row: int, rows: int, i: int)
    requires
        area.fits(),
        0 <= i < n,
        0 < per_row,
        n <= per_row * per_row,
        (per_row - 1) * (per_row - 1) < n,
        (rows - 1) * per_row < n <= rows * per_row,
    ensures
        ({
            let cell = grid_cell(area, n, i);
            let beside = if i / per_row < rows - 1 {
                per_row
            } else {
                n - (rows - 1) * per_row
            };
            &&& n == 1 ==> cell == area
            &&& n == 2 ==> cell.width == area.width && -1 <= 2 * cell.height - area.height <= 1
            &&& n > 2 ==> -rows < cell.height * rows - area.height < rows
            &&& n > 2 ==> -beside < cell.width * beside - area.width < beside
        }),
{
    lemma_side_is(n, per_row);
    lemma_grid(n);
    lemma_grid_place(n, i);
    let g = grid_rows(n);
    assert(rows == g) by (nonlinear_arith)
        requires
            (rows - 1) * per_row < n <= rows * per_row,
            (g - 1) * per_row < n <= g * per_row,
            0 < per_row,
    ;
    if n == 2 {
        lemma_even_share(Axis::Vertical, area, i, 2);
    } else if n > 2 {
        let (row, col) = (i / per_row, i % per_row);
        let band = share(Axis::Vertical, area, row, row + 1, g);
        lemma_even_share(Axis::Vertical, area, row, g);
        lemma_even_share(Axis::Horizontal, band, col, panels_in_row(n, row));
    }
}

/// The help stands in the middle of the screen: a fifth of its width is left free on either side,
/// and of its height fifteen hundredths above and below, each to the nearest cell.
pub proof fn law_help_stands_in_the_middle(area: Rect)
    requires
        area.fits(),
    ensures
        ({
            let help = centered(60, 70, area);
            &&& -50 <= 100 * (help.x - area.x) - 20 * area.width <= 50
            &&& -50 <= 100 * (help.x + help.width - area.x) - 80 * area.width <= 50
            &&& -50 <= 100 * (help.y - area.y) - 15 * area.height <= 50
            &&& -50 <= 100 * (help.y + help.height - area.y) - 85 * area.height <= 50
        }),
{
    let (left, right) = (near(Axis::Horizontal, area), far(Axis::Horizontal, area));
    let (top, bottom) = (near(Axis::Vertical, area), far(Axis::Vertical, area));
    law_cuts_are_rounded(left, right, 20, 100);
    law_cuts_are_rounded(left, right, 80, 100);
    law_cuts_are_rounded(top, bottom, 15, 100);
    law_cuts_are_rounded(top, bottom, 85, 100);
}

} // verus!
