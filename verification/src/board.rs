//! The playfield: a grid of cells that pieces are tested against, locked into
//! and cleared from.

use crate::piece::{
    as_cells, filled, filled_cells, lemma_filled_cells, Color, Grid, Piece, PieceView,
};
use vstd::prelude::*;

verus! {

/// The largest width and the largest height that a board can have.
pub const MAX_SIDE: usize = 65536;

/// The width of the standard board.
pub const BOARD_WIDTH: usize = 10;

/// The number of rows at the top of a board in which pieces enter, and
/// beside which no wall is drawn.
pub const HIDDEN_ROWS: usize = 2;

/// The number of rows of the standard board below the hidden ones.
pub const VISIBLE_ROWS: usize = 20;

/// The height of the standard board: the hidden rows and the visible ones.
pub const BOARD_HEIGHT: usize = 22;

/// A position on the board: `x` counts columns from the left, `y` counts rows
/// from the top.
#[derive(Clone, Copy, Debug, PartialEq, Eq, Structural)]
pub struct Point {
    pub x: i32,
    pub y: i32,
}

/// One row of cells: `None` is empty, `Some(c)` holds a locked block of color `c`.
pub type Row = Seq<Option<Color>>;

/// No cell of `row` is empty.
pub open spec fn is_full(row: Row) -> bool {
    forall|x: int| 0 <= x < row.len() ==> (#[trigger] row[x]).is_some()
}

/// A row of `width` empty cells.
pub open spec fn blank_row(width: int) -> Row {
    Seq::new(width as nat, |x: int| None)
}

/// `count` rows of `width` empty cells.
pub open spec fn blank_rows(count: int, width: int) -> Seq<Row> {
    Seq::new(count as nat, |y: int| blank_row(width))
}

/// The test that a row has an empty cell.
pub open spec fn has_gap() -> spec_fn(Row) -> bool {
    |row: Row| !is_full(row)
}

/// The rows of `rows` that have an empty cell, in their order.
pub open spec fn open_rows(rows: Seq<Row>) -> Seq<Row> {
    rows.filter(has_gap())
}

/// The mathematical value of a board.
pub struct BoardView {
    pub width: int,
    pub rows: Seq<Row>,
}

impl BoardView {
    /// The number of rows.
    pub open spec fn height(self) -> int {
        self.rows.len() as int
    }

    /// Every row has `width` cells, and both sides are within `MAX_SIDE`.
    pub open spec fn wf(self) -> bool {
        &&& 0 <= self.width <= MAX_SIDE
        &&& self.rows.len() <= MAX_SIDE
        &&& forall|y: int|
            0 <= y < self.rows.len() ==> (#[trigger] self.rows[y]).len() == self.width
    }

    /// The cell in column `x`, row `y` lies on the board and is empty.
    pub open spec fn free(self, x: int, y: int) -> bool {
        0 <= x < self.width && 0 <= y < self.height() && self.rows[y][x].is_none()
    }

    /// A piece with occupancy matrix `piece`, its top left corner in column
    /// `x`, row `y`, has an occupied cell that lies off the board or on a
    /// cell that is not empty.
    pub open spec fn collides(self, piece: Grid, x: int, y: int) -> bool {
        exists|r: int, c: int| filled(piece, r, c) && !self.free(x + c, y + r)
    }

    /// The board once `piece`, its top left corner in column `x`, row `y`, has
    /// written its color into the cells that it covers.
    pub open spec fn locked(self, piece: PieceView, x: int, y: int) -> BoardView {
        BoardView {
            width: self.width,
            rows: Seq::new(
                self.rows.len(),
                |j: int|
                    Seq::new(
                        self.width as nat,
                        |i: int|
                            if filled(piece.grid, j - y, i - x) {
                                Some(piece.color)
                            } else {
                                self.rows[j][i]
                            },
                    ),
            ),
        }
    }

    /// The number of rows without an empty cell.
    pub open spec fn full_rows(self) -> int {
        self.rows.len() - open_rows(self.rows).len()
    }

    /// The board once its full rows are removed: the other rows keep their
    /// order and sink to the bottom, and empty rows fill the top.
    pub open spec fn cleared(self) -> BoardView {
        BoardView {
            width: self.width,
            rows: blank_rows(self.full_rows(), self.width) + open_rows(self.rows),
        }
    }
}

/// Why a piece could not be locked.
#[derive(Clone, Copy, Debug, PartialEq, Eq, Structural)]
pub enum LockError {
    /// The piece reaches off the board or covers a cell that is not empty.
    Collision,
}

/// The playfield.
#[derive(Debug)]
pub struct Board {
    width: usize,
    cells: Vec<Vec<Option<Color>>>,
}

impl View for Board {
    type V = BoardView;

    closed spec fn view(&self) -> BoardView {
        BoardView {
            width: self.width as int,
            rows: Seq::new(self.cells@.len(), |y: int| self.cells@[y]@),
        }
    }
}

/// A fresh row of `width` empty cells.
fn new_row(width: usize) -> (row: Vec<Option<Color>>)
    ensures
        row@ == blank_row(width as int),
{
    let mut row: Vec<Option<Color>> = Vec::with_capacity(width);
    let mut x: usize = 0;
    while x < width
        invariant
            x <= width,
            row@ == blank_row(x as int),
        decreases width - x,
    {
        row.push(None);
        assert(row@ =~= blank_row(x + 1));
        x += 1;
    }
    row
}

impl Board {
    /// An empty board of the given size.
    pub fn new(width: usize, height: usize) -> (b: Board)
        requires
            width <= MAX_SIDE,
            height <= MAX_SIDE,
        ensures
            b@.wf(),
            b@.width == width,
            b@.rows == blank_rows(height as int, width as int),
    {
        let mut cells: Vec<Vec<Option<Color>>> = Vec::with_capacity(height);
        let mut y: usize = 0;
        while y < height
            invariant
                y <= height,
                cells@.len() == y,
                forall|j: int| 0 <= j < y ==> (#[trigger] cells@[j])@ == blank_row(width as int),
            decreases height - y,
        {
            cells.push(new_row(width));
            y += 1;
        }
        let b = Board { width, cells };
        assert(b@.rows =~= blank_rows(height as int, width as int));
        b
    }

    /// The number of columns.
    pub fn width(&self) -> (w: usize)
        ensures
            w == self@.width,
    {
        self.width
    }

    /// The number of rows.
    pub fn height(&self) -> (h: usize)
        ensures
            h == self@.height(),
    {
        self.cells.len()
    }

    /// The content of the cell in row `row`, column `col`.
    pub fn cell(&self, row: usize, col: usize) -> (c: Option<Color>)
        requires
            self@.wf(),
            row < self@.height(),
            col < self@.width,
        ensures
            c == self@.rows[row as int][col as int],
    {
        assert(self@.rows[row as int].len() == self@.width);
        self.cells[row][col]
    }

    /// Whether `piece`, its top left corner at `origin`, reaches off the board
    /// or onto a cell that is not empty.
    pub fn collision_test(&self, piece: &Piece, origin: Point) -> (hit: bool)
        requires
            self@.wf(),
            piece@.wf(),
        ensures
            hit == self@.collides(piece@.grid, origin.x as int, origin.y as int),
    {
        let cells = piece.each_point();
        let ghost listed = filled_cells(piece@.grid);
        proof {
            lemma_filled_cells(piece@.grid);
        }
        let mut i: usize = 0;
        while i < cells.len()
            invariant
                self@.wf(),
                i <= cells@.len(),
                as_cells(cells@) == listed,
                forall|r: int, c: int|
                    #[trigger] listed.contains((r, c)) <==> filled(piece@.grid, r, c),
                forall|j: int|
                    0 <= j < i ==> self@.free(
                        origin.x + (#[trigger] listed[j]).1,
                        origin.y + listed[j].0,
                    ),
            decreases cells@.len() - i,
        {
            let (row, col) = cells[i];
            assert(listed[i as int] == (row as int, col as int));
            let x: i64 = origin.x as i64 + col as i64;
            let y: i64 = origin.y as i64 + row as i64;
            if x < 0 || x >= self.width as i64 || y < 0 || y >= self.cells.len() as i64 {
                assert(listed.contains((row as int, col as int)));
                return true;
            }
            assert(self@.rows[y as int].len() == self@.width);
            if self.cells[y as usize][x as usize].is_some() {
                assert(listed.contains((row as int, col as int)));
                return true;
            }
            i += 1;
        }
        assert forall|r: int, c: int| filled(piece@.grid, r, c) implies self@.free(
            origin.x + c,
            origin.y + r,
        ) by {
            assert(listed.contains((r, c)));
            let j = choose|j: int| 0 <= j < listed.len() && listed[j] == (r, c);
            assert(self@.free(origin.x + listed[j].1, origin.y + listed[j].0));
        }
        false
    }

    /// Writes `v` into the cell in row `row`, column `col`.
    fn set_cell(&mut self, row: usize, col: usize, v: Option<Color>)
        requires
            old(self)@.wf(),
            row < old(self)@.height(),
            col < old(self)@.width,
        ensures
            final(self)@.wf(),
            final(self)@.width == old(self)@.width,
            final(self)@.rows == with_cell(old(self)@.rows, col as int, row as int, v),
    {
        assert(self@.rows[row as int].len() == self@.width);
        self.cells[row][col] = v;
        assert(self@.rows =~= with_cell(old(self)@.rows, col as int, row as int, v));
    }

    /// Writes the color of `piece`, its top left corner at `origin`, into the
    /// cells that it covers. A piece that collides is refused, and the board
    /// stays as it is.
    pub fn lock_piece(&mut self, piece: &Piece, origin: Point) -> (res: Result<(), LockError>)
        requires
            old(self)@.wf(),
            piece@.wf(),
        ensures
            final(self)@.wf(),
            old(self)@.collides(piece@.grid, origin.x as int, origin.y as int) ==> res == Err::<
                (),
                LockError,
            >(LockError::Collision) && final(self)@ == old(self)@,
            !old(self)@.collides(piece@.grid, origin.x as int, origin.y as int) ==> res.is_ok()
                && final(self)@ == old(self)@.locked(piece@, origin.x as int, origin.y as int),
    {
        if self.collision_test(piece, origin) {
            return Err(LockError::Collision);
        }
        let color = piece.color();
        let cells = piece.each_point();
        let ghost listed = filled_cells(piece@.grid);
        let ghost (ox, oy) = (origin.x as int, origin.y as int);
        proof {
            lemma_filled_cells(piece@.grid);
            assert(self@.rows =~~= partly_locked(old(self)@, listed, 0, color, ox, oy).rows);
        }
        let mut i: usize = 0;
        while i < cells.len()
            invariant
                old(self)@.wf(),
                self@.wf(),
                i <= cells@.len(),
                as_cells(cells@) == listed,
                ox == origin.x,
                oy == origin.y,
                forall|r: int, c: int|
                    #[trigger] listed.contains((r, c)) <==> filled(piece@.grid, r, c),
                !old(self)@.collides(piece@.grid, ox, oy),
                self@ == partly_locked(old(self)@, listed, i as int, color, ox, oy),
            decreases cells@.len() - i,
        {
            let (row, col) = cells[i];
            assert(listed[i as int] == (row as int, col as int));
            assert(listed.contains((row as int, col as int)));
            assert(old(self)@.free(ox + col, oy + row));
            let x: usize = (origin.x as i64 + col as i64) as usize;
            let y: usize = (origin.y as i64 + row as i64) as usize;
            let ghost before = self@;
            self.set_cell(y, x, Some(color));
            proof {
                let next = partly_locked(old(self)@, listed, i + 1, color, ox, oy);
                assert forall|j: int| 0 <= j < self@.rows.len() implies #[trigger] self@.rows[j]
                    =~= next.rows[j] by {
                    assert(before.rows[j].len() == before.width);
                    assert forall|k: int| 0 <= k < self@.width implies self@.rows[j][k]
                        == next.rows[j][k] by {
                        if j == y && k == x {
                            assert(listed[i as int] == (j - oy, k - ox));
                        } else {
                            assert(self@.rows[j][k] == before.rows[j][k]);
                        }
                    }
                }
                assert(self@.rows =~= next.rows);
            }
            i += 1;
        }
        proof {
            let done = old(self)@.locked(piece@, ox, oy);
            assert forall|j: int| 0 <= j < self@.rows.len() implies #[trigger] self@.rows[j]
                =~= done.rows[j] by {
                assert forall|k: int| 0 <= k < self@.width implies self@.rows[j][k]
                    == done.rows[j][k] by {
                    let (r, c) = (j - oy, k - ox);
                    assert(filled(piece@.grid, r, c) <==> listed.contains((r, c)));
                }
            }
            assert(self@.rows =~= done.rows);
        }
        Ok(())
    }

    /// Whether row `y` has no empty cell.
    fn row_is_full(&self, y: usize) -> (full: bool)
        requires
            self@.wf(),
            y < self@.height(),
        ensures
            full == is_full(self@.rows[y as int]),
    {
        let row = &self.cells[y];
        assert(row@ == self@.rows[y as int]);
        let mut x: usize = 0;
        while x < row.len()
            invariant
                y < self@.rows.len(),
                row@ == self@.rows[y as int],
                x <= row@.len(),
                forall|i: int| 0 <= i < x ==> (#[trigger] row@[i]).is_some(),
            decreases row@.len() - x,
        {
            if row[x].is_none() {
                assert(!row@[x as int].is_some());
                return false;
            }
            x += 1;
        }
        true
    }

    /// Copies row `src` over row `dst`, cell by cell.
    fn copy_row(&mut self, src: usize, dst: usize)
        requires
            old(self)@.wf(),
            src < old(self)@.height(),
            dst < old(self)@.height(),
            src != dst,
        ensures
            final(self)@.wf(),
            final(self)@.width == old(self)@.width,
            final(self)@.rows == old(self)@.rows.update(dst as int, old(self)@.rows[src as int]),
    {
        let ghost from = self@.rows[src as int];
        assert(from.len() == self@.width);
        let mut x: usize = 0;
        while x < self.width
            invariant
                self@.wf(),
                self@.width == old(self)@.width,
                self@.rows.len() == old(self)@.rows.len(),
                src < self@.rows.len(),
                dst < self@.rows.len(),
                src != dst,
                x <= self@.width,
                from.len() == self@.width,
                forall|j: int|
                    0 <= j < self@.rows.len() && j != dst ==> self@.rows[j] == old(self)@.rows[j],
                self@.rows[src as int] == from,
                self@.rows[dst as int].take(x as int) == from.take(x as int),
            decreases self@.width - x,
        {
            let v = self.cell(src, x);
            let ghost before = self@.rows[dst as int];
            self.set_cell(dst, x, v);
            assert(self@.rows[dst as int].take(x + 1) =~= before.take(x as int).push(v));
            assert(from.take(x + 1) =~= from.take(x as int).push(v));
            x += 1;
        }
        assert(self@.rows[dst as int] =~= from) by {
            assert(self@.rows[dst as int].len() == self@.width);
            assert(self@.rows[dst as int].take(self@.width) =~= self@.rows[dst as int]);
            assert(from.take(self@.width) =~= from);
        }
        assert(self@.rows =~= old(self)@.rows.update(dst as int, from));
    }

    /// Empties row `y`.
    fn blank(&mut self, y: usize)
        requires
            old(self)@.wf(),
            y < old(self)@.height(),
        ensures
            final(self)@.wf(),
            final(self)@.width == old(self)@.width,
            final(self)@.rows == old(self)@.rows.update(y as int, blank_row(old(self)@.width)),
    {
        let row = new_row(self.width);
        self.cells[y] = row;
        assert(self@.rows =~= old(self)@.rows.update(y as int, blank_row(old(self)@.width)));
    }

    /// Removes every row that has no empty cell. The rows above a removed row
    /// sink, keeping their order, and empty rows enter at the top. Returns the
    /// number of rows removed.
    ///
    /// On a board without columns no row has an empty cell, so every row
    /// counts as full, every time.
    pub fn clear_lines(&mut self) -> (count: u32)
        requires
            old(self)@.wf(),
        ensures
            final(self)@.wf(),
            final(self)@ == old(self)@.cleared(),
            count == old(self)@.full_rows(),
    {
        let height = self.cells.len();
        let ghost start = self@.rows;
        let mut src: usize = height;
        let mut dst: usize = height;
        proof {
            assert(start.skip(height as int) =~= Seq::<Row>::empty());
            assert(self@.rows.skip(height as int) =~= Seq::<Row>::empty());
            reveal(Seq::filter);
            assert(open_rows(Seq::<Row>::empty()) =~= Seq::<Row>::empty());
        }
        while src > 0
            invariant
                start == old(self)@.rows,
                height == start.len(),
                self@.wf(),
                self@.width == old(self)@.width,
                self@.rows.len() == height,
                src <= dst <= height,
                forall|y: int| 0 <= y < src ==> self@.rows[y] == start[y],
                self@.rows.skip(dst as int) == open_rows(start.skip(src as int)),
            decreases src,
        {
            src -= 1;
            let ghost row = start[src as int];
            let ghost below = self@.rows.skip(dst as int);
            proof {
                assert(start.skip(src as int) =~= seq![row] + start.skip(src + 1));
                start.skip(src + 1).lemma_filter_prepend(row, has_gap());
            }
            if !self.row_is_full(src) {
                dst -= 1;
                if dst != src {
                    self.copy_row(src, dst);
                }
                assert(self@.rows.skip(dst as int) =~= seq![row] + below);
            } else {
                assert(open_rows(start.skip(src as int)) =~= open_rows(start.skip(src + 1)));
            }
        }
        let ghost kept = open_rows(start);
        assert(start.skip(0) =~= start);
        assert(kept.len() == height - dst);
        let mut y: usize = 0;
        while y < dst
            invariant
                self@.wf(),
                self@.width == old(self)@.width,
                self@.rows.len() == height,
                y <= dst <= height,
                self@.rows.skip(dst as int) == kept,
                forall|j: int| 0 <= j < y ==> self@.rows[j] == blank_row(self@.width),
            decreases dst - y,
        {
            let ghost below = self@.rows.skip(dst as int);
            self.blank(y);
            assert(self@.rows.skip(dst as int) =~= below);
            y += 1;
        }
        assert(self@.rows =~= blank_rows(dst as int, self@.width) + kept) by {
            let want = blank_rows(dst as int, self@.width) + kept;
            assert forall|j: int| 0 <= j < height implies self@.rows[j] == want[j] by {
                if j >= dst {
                    assert(self@.rows.skip(dst as int)[j - dst] == self@.rows[j]);
                }
            }
        }
        dst as u32
    }
}

/// Clearing a board keeps its size, and leaves no full row unless the board
/// has no columns.
pub proof fn lemma_cleared_wf(b: BoardView)
    requires
        b.wf(),
    ensures
        b.cleared().wf(),
        b.cleared().height() == b.height(),
        0 <= b.full_rows() <= b.height(),
        forall|y: int|
            0 <= y < b.height() ==> b.width > 0 ==> !is_full(#[trigger] b.cleared().rows[y]),
{
    broadcast use Seq::lemma_filter_len, Seq::lemma_filter_pred;

    let kept = open_rows(b.rows);
    let k = b.full_rows();
    let after = b.cleared().rows;
    assert forall|y: int| 0 <= y < after.len() implies (#[trigger] after[y]).len() == b.width && (b.width
        > 0 ==> !is_full(after[y])) by {
        if y < k {
            assert(after[y] == blank_row(b.width));
            if b.width > 0 {
                assert(!after[y][0].is_some());
            }
        } else {
            let row = kept[y - k];
            assert(after[y] == row);
            assert(has_gap()(row));
            assert(kept.contains(row));
            b.rows.lemma_filter_contains_rev(has_gap(), row);
            let j = choose|j: int| 0 <= j < b.rows.len() && b.rows[j] == row;
            assert(b.rows[j].len() == b.width);
        }
    }
}

/// On a board that has a column, clearing leaves nothing to clear: a second
/// clearing removes no row and changes nothing.
pub proof fn lemma_clear_twice(b: BoardView)
    requires
        b.wf(),
        b.width > 0,
    ensures
        b.cleared().full_rows() == 0,
        b.cleared().cleared() == b.cleared(),
{
    lemma_cleared_wf(b);
    lemma_clear_nothing(b.cleared());
}

/// Clearing a board that has no full row changes nothing.
pub proof fn lemma_clear_nothing(b: BoardView)
    requires
        forall|y: int| 0 <= y < b.height() ==> !is_full(#[trigger] b.rows[y]),
    ensures
        b.full_rows() == 0,
        b.cleared() == b,
{
    lemma_filter_uniform(b.rows, has_gap());
    assert(b.cleared().rows =~= b.rows);
}

/// Clearing a board whose rows are all full leaves the board empty.
pub proof fn lemma_clear_everything(b: BoardView)
    requires
        forall|y: int| 0 <= y < b.height() ==> is_full(#[trigger] b.rows[y]),
    ensures
        b.full_rows() == b.height(),
        b.cleared().rows == blank_rows(b.height(), b.width),
{
    lemma_filter_uniform(b.rows, has_gap());
    assert(b.cleared().rows =~= blank_rows(b.height(), b.width));
}

/// Filtering keeps a list of rows that all pass, and empties one of rows that
/// all fail.
proof fn lemma_filter_uniform(rows: Seq<Row>, pass: spec_fn(Row) -> bool)
    ensures
        (forall|y: int| 0 <= y < rows.len() ==> pass(#[trigger] rows[y])) ==> rows.filter(pass)
            == rows,
        (forall|y: int| 0 <= y < rows.len() ==> !pass(#[trigger] rows[y])) ==> rows.filter(
            pass,
        ).len() == 0,
    decreases rows.len(),
{
    if rows.len() == 0 {
        reveal(Seq::filter);
    } else {
        let front = rows.drop_last();
        lemma_filter_uniform(front, pass);
        front.lemma_filter_push(rows.last(), pass);
        assert(front.push(rows.last()) =~= rows);
        if forall|y: int| 0 <= y < rows.len() ==> pass(#[trigger] rows[y]) {
            assert forall|y: int| 0 <= y < front.len() implies pass(#[trigger] front[y]) by {
                assert(front[y] == rows[y]);
            }
            assert(pass(rows[rows.len() - 1]));
        }
        if forall|y: int| 0 <= y < rows.len() ==> !pass(#[trigger] rows[y]) {
            assert forall|y: int| 0 <= y < front.len() implies !pass(#[trigger] front[y]) by {
                assert(front[y] == rows[y]);
            }
            assert(!pass(rows[rows.len() - 1]));
        }
    }
}

/// `rows` with the cell in row `y`, column `x` replaced by `v`.
spec fn with_cell(rows: Seq<Row>, x: int, y: int, v: Option<Color>) -> Seq<Row> {
    rows.update(y, rows[y].update(x, v))
}

/// The board on which the first `upto` of the listed cells of a piece with
/// its top left corner in column `x`, row `y` carry `color`.
spec fn partly_locked(
    b: BoardView,
    listed: Seq<(int, int)>,
    upto: int,
    color: Color,
    x: int,
    y: int,
) -> BoardView {
    BoardView {
        width: b.width,
        rows: Seq::new(
            b.rows.len(),
            |j: int|
                Seq::new(
                    b.width as nat,
                    |i: int|
                        if exists|k: int| 0 <= k < upto && #[trigger] listed[k] == (j - y, i - x) {
                            Some(color)
                        } else {
                            b.rows[j][i]
                        },
                ),
        ),
    }
}

} // verus!
