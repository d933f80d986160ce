//! Tetromino pieces: a square occupancy matrix together with a color.

use vstd::prelude::*;
use vstd::relations::injective_on;
use vstd::seq_lib::{lemma_no_dup_in_concat, seq_to_set_is_finite};
use vstd::set_lib::lemma_map_size;

verus! {

/// Colors that a locked cell or a piece can carry.
#[derive(Clone, Copy, Debug, PartialEq, Eq, Structural)]
pub enum Color {
    Black,
    Red,
    Green,
    Blue,
    Cyan,
    Purple,
    Orange,
}

/// Direction of a quarter turn: `Left` is counter-clockwise, `Right` is clockwise.
#[derive(Clone, Copy, Debug, PartialEq, Eq, Structural)]
pub enum Direction {
    Left,
    Right,
}

/// The seven standard tetromino shapes.
#[derive(Clone, Copy, Debug, PartialEq, Eq, Structural)]
pub enum PieceKind {
    O,
    L,
    J,
    T,
    S,
    Z,
    I,
}

/// An occupancy matrix as a mathematical value: rows of flags, zero meaning empty.
pub type Grid = Seq<Seq<u8>>;

/// Every row of `g` is as long as `g` has rows.
pub open spec fn is_square(g: Grid) -> bool {
    forall|r: int| 0 <= r < g.len() ==> (#[trigger] g[r]).len() == g.len()
}

/// Every cell of `g` holds 0 or 1.
pub open spec fn is_binary(g: Grid) -> bool {
    forall|r: int, c: int| 0 <= r < g.len() && 0 <= c < g[r].len() ==> #[trigger] g[r][c] <= 1
}

/// The cell at row `r`, column `c` lies inside `g` and is occupied.
pub open spec fn filled(g: Grid, r: int, c: int) -> bool {
    0 <= r < g.len() && 0 <= c < g[r].len() && g[r][c] != 0
}

/// The other direction.
pub open spec fn opposite(d: Direction) -> Direction {
    match d {
        Direction::Left => Direction::Right,
        Direction::Right => Direction::Left,
    }
}

/// `g` after a quarter turn in direction `d`.
///
/// Turning right sends the left column to the top row; turning left sends the
/// top row to the left column.
pub open spec fn turned(g: Grid, d: Direction) -> Grid {
    let n = g.len() as int;
    Seq::new(
        g.len(),
        |r: int|
            Seq::new(
                g.len(),
                |c: int|
                    match d {
                        Direction::Right => g[n - 1 - c][r],
                        Direction::Left => g[c][n - 1 - r],
                    },
            ),
    )
}

/// The columns of the occupied cells among the first `upto` cells of `row`,
/// in ascending order, each paired with the row number `r`.
pub open spec fn row_cells(row: Seq<u8>, r: int, upto: int) -> Seq<(int, int)>
    decreases upto,
{
    if upto <= 0 {
        Seq::empty()
    } else if row[upto - 1] != 0 {
        row_cells(row, r, upto - 1).push((r, upto - 1))
    } else {
        row_cells(row, r, upto - 1)
    }
}

/// The occupied cells in the first `upto` rows of `g` as `(row, column)` pairs,
/// in row-major order.
pub open spec fn grid_cells(g: Grid, upto: int) -> Seq<(int, int)>
    decreases upto,
{
    if upto <= 0 {
        Seq::empty()
    } else {
        grid_cells(g, upto - 1) + row_cells(g[upto - 1], upto - 1, g[upto - 1].len() as int)
    }
}

/// All occupied cells of `g` as `(row, column)` pairs, in row-major order.
pub open spec fn filled_cells(g: Grid) -> Seq<(int, int)> {
    grid_cells(g, g.len() as int)
}

/// A list of machine-integer `(row, column)` pairs as mathematical pairs.
pub open spec fn as_cells(v: Seq<(i32, i32)>) -> Seq<(int, int)> {
    Seq::new(v.len(), |i: int| (v[i].0 as int, v[i].1 as int))
}

/// The mathematical value of a piece.
pub struct PieceView {
    pub kind: PieceKind,
    pub color: Color,
    pub grid: Grid,
}

impl PieceView {
    /// The side length of the occupancy matrix.
    pub open spec fn size(self) -> int {
        self.grid.len() as int
    }

    /// The matrix is square with side 2, 3 or 4, holds only the flags 0 and
    /// 1, and has an occupied cell.
    pub open spec fn wf(self) -> bool {
        &&& 2 <= self.grid.len() <= 4
        &&& is_square(self.grid)
        &&& is_binary(self.grid)
        &&& exists|r: int, c: int| filled(self.grid, r, c)
    }

    /// The piece after a quarter turn.
    pub open spec fn turned(self, d: Direction) -> PieceView {
        PieceView { kind: self.kind, color: self.color, grid: turned(self.grid, d) }
    }

    /// The piece of the given kind as it leaves the factory.
    pub open spec fn standard(kind: PieceKind) -> PieceView {
        match kind {
            PieceKind::O => PieceView {
                kind,
                color: Color::Cyan,
                grid: seq![seq![1u8, 1u8], seq![1u8, 1u8]],
            },
            PieceKind::L => PieceView {
                kind,
                color: Color::Orange,
                grid: seq![seq![0u8, 0u8, 1u8], seq![1u8, 1u8, 1u8], seq![0u8, 0u8, 0u8]],
            },
            PieceKind::J => PieceView {
                kind,
                color: Color::Blue,
                grid: seq![seq![1u8, 0u8, 0u8], seq![1u8, 1u8, 1u8], seq![0u8, 0u8, 0u8]],
            },
            PieceKind::T => PieceView {
                kind,
                color: Color::Purple,
                grid: seq![seq![0u8, 1u8, 0u8], seq![1u8, 1u8, 1u8], seq![0u8, 0u8, 0u8]],
            },
            PieceKind::S => PieceView {
                kind,
                color: Color::Green,
                grid: seq![seq![0u8, 1u8, 1u8], seq![1u8, 1u8, 0u8], seq![0u8, 0u8, 0u8]],
            },
            PieceKind::Z => PieceView {
                kind,
                color: Color::Red,
                grid: seq![seq![1u8, 1u8, 0u8], seq![0u8, 1u8, 1u8], seq![0u8, 0u8, 0u8]],
            },
            PieceKind::I => PieceView {
                kind,
                color: Color::Cyan,
                grid: seq![
                    seq![0u8, 0u8, 0u8, 0u8],
                    seq![1u8, 1u8, 1u8, 1u8],
                    seq![0u8, 0u8, 0u8, 0u8],
                    seq![0u8, 0u8, 0u8, 0u8],
                ],
            },
        }
    }
}

/// A tetromino: an occupancy matrix, its color and the kind it was made as.
#[derive(Debug)]
pub struct Piece {
    kind: PieceKind,
    color: Color,
    shape: Vec<Vec<u8>>,
}

impl View for Piece {
    type V = PieceView;

    closed spec fn view(&self) -> PieceView {
        PieceView {
            kind: self.kind,
            color: self.color,
            grid: Seq::new(self.shape@.len(), |r: int| self.shape@[r]@),
        }
    }
}

impl Piece {
    /// The square piece.
    pub fn new_o() -> (p: Piece)
        ensures
            p@ == PieceView::standard(PieceKind::O),
            p@.wf(),
    {
        let p = Piece {
            kind: PieceKind::O,
            color: Color::Cyan,
            shape: vec![vec![1, 1], vec![1, 1]],
        };
        proof {
            assert(p@.grid =~~= PieceView::standard(PieceKind::O).grid);
            assert(filled(p@.grid, 0, 0));
        }
        p
    }

    /// The L-shaped piece.
    pub fn new_l() -> (p: Piece)
        ensures
            p@ == PieceView::standard(PieceKind::L),
            p@.wf(),
    {
        let p = Piece {
            kind: PieceKind::L,
            color: Color::Orange,
            shape: vec![vec![0, 0, 1], vec![1, 1, 1], vec![0, 0, 0]],
        };
        proof {
            assert(p@.grid =~~= PieceView::standard(PieceKind::L).grid);
            assert(filled(p@.grid, 1, 0));
        }
        p
    }

    /// The mirrored L-shaped piece.
    pub fn new_j() -> (p: Piece)
        ensures
            p@ == PieceView::standard(PieceKind::J),
            p@.wf(),
    {
        let p = Piece {
            kind: PieceKind::J,
            color: Color::Blue,
            shape: vec![vec![1, 0, 0], vec![1, 1, 1], vec![0, 0, 0]],
        };
        proof {
            assert(p@.grid =~~= PieceView::standard(PieceKind::J).grid);
            assert(filled(p@.grid, 1, 0));
        }
        p
    }

    /// The T-shaped piece.
    pub fn new_t() -> (p: Piece)
        ensures
            p@ == PieceView::standard(PieceKind::T),
            p@.wf(),
    {
        let p = Piece {
            kind: PieceKind::T,
            color: Color::Purple,
            shape: vec![vec![0, 1, 0], vec![1, 1, 1], vec![0, 0, 0]],
        };
        proof {
            assert(p@.grid =~~= PieceView::standard(PieceKind::T).grid);
            assert(filled(p@.grid, 1, 0));
        }
        p
    }

    /// The S-shaped piece.
    pub fn new_s() -> (p: Piece)
        ensures
            p@ == PieceView::standard(PieceKind::S),
            p@.wf(),
    {
        let p = Piece {
            kind: PieceKind::S,
            color: Color::Green,
            shape: vec![vec![0, 1, 1], vec![1, 1, 0], vec![0, 0, 0]],
        };
        proof {
            assert(p@.grid =~~= PieceView::standard(PieceKind::S).grid);
            assert(filled(p@.grid, 1, 0));
        }
        p
    }

    /// The Z-shaped piece.
    pub fn new_z() -> (p: Piece)
        ensures
            p@ == PieceView::standard(PieceKind::Z),
            p@.wf(),
    {
        let p = Piece {
            kind: PieceKind::Z,
            color: Color::Red,
            shape: vec![vec![1, 1, 0], vec![0, 1, 1], vec![0, 0, 0]],
        };
        proof {
            assert(p@.grid =~~= PieceView::standard(PieceKind::Z).grid);
            assert(filled(p@.grid, 0, 0));
        }
        p
    }

    /// The straight piece.
    pub fn new_i() -> (p: Piece)
        ensures
            p@ == PieceView::standard(PieceKind::I),
            p@.wf(),
    {
        let p = Piece {
            kind: PieceKind::I,
            color: Color::Cyan,
            shape: vec![vec![0, 0, 0, 0], vec![1, 1, 1, 1], vec![0, 0, 0, 0], vec![0, 0, 0, 0]],
        };
        proof {
            assert(p@.grid =~~= PieceView::standard(PieceKind::I).grid);
            assert(filled(p@.grid, 1, 0));
        }
        p
    }

    /// The kind the piece was made as; turning does not change it.
    pub fn kind(&self) -> (k: PieceKind)
        ensures
            k == self@.kind,
    {
        self.kind
    }

    /// The color of every cell of the piece.
    pub fn color(&self) -> (c: Color)
        ensures
            c == self@.color,
    {
        self.color
    }

    /// The side length of the occupancy matrix.
    pub fn size(&self) -> (n: usize)
        ensures
            n == self@.size(),
    {
        self.shape.len()
    }

    /// Whether the cell at row `r`, column `c` is occupied; cells outside the
    /// matrix are not.
    pub fn is_filled(&self, r: usize, c: usize) -> (b: bool)
        ensures
            b == filled(self@.grid, r as int, c as int),
    {
        r < self.shape.len() && c < self.shape[r].len() && self.shape[r][c] != 0
    }

    /// The occupancy matrix, row by row.
    pub fn shape(&self) -> (rows: &Vec<Vec<u8>>)
        ensures
            rows@.len() == self@.grid.len(),
            forall|r: int| 0 <= r < rows@.len() ==> (#[trigger] rows@[r])@ == self@.grid[r],
    {
        &self.shape
    }

    /// The flag in row `r`, column `c`.
    fn get(&self, r: usize, c: usize) -> (v: u8)
        requires
            is_square(self@.grid),
            r < self@.grid.len(),
            c < self@.grid.len(),
        ensures
            v == self@.grid[r as int][c as int],
    {
        assert(self@.grid[r as int].len() == self@.grid.len());
        self.shape[r][c]
    }

    /// Writes the flag `v` into row `r`, column `c`.
    fn set(&mut self, r: usize, c: usize, v: u8)
        requires
            is_square(old(self)@.grid),
            r < old(self)@.grid.len(),
            c < old(self)@.grid.len(),
        ensures
            final(self)@ == (PieceView {
                grid: put(old(self)@.grid, r as int, c as int, v),
                ..old(self)@
            }),
    {
        assert(self@.grid[r as int].len() == self@.grid.len());
        self.shape[r][c] = v;
        assert(self@.grid =~= put(old(self)@.grid, r as int, c as int, v));
    }

    /// Turns the occupancy matrix by a quarter turn, in place: ring by ring,
    /// cycling the four cells of each orbit.
    pub fn rotate(&mut self, direction: Direction)
        requires
            old(self)@.wf(),
        ensures
            final(self)@ == old(self)@.turned(direction),
            final(self)@.wf(),
            filled_cells(final(self)@.grid).len() == filled_cells(old(self)@.grid).len(),
    {
        let size = self.shape.len();
        let ghost g = self@.grid;
        let ghost n = size as int;
        assert(self@.grid =~~= partly_turned(g, direction, 0, 0)) by {
            assert forall|r: int| 0 <= r < n implies #[trigger] self@.grid[r] =~= partly_turned(
                g,
                direction,
                0,
                0,
            )[r] by {
                assert(g[r].len() == n);
            }
        }
        let mut row: usize = 0;
        while row < size / 2
            invariant
                n == size,
                g.len() == n,
                is_square(g),
                row <= size / 2,
                self@.kind == old(self)@.kind,
                self@.color == old(self)@.color,
                self@.grid == partly_turned(g, direction, row as int, row as int),
            decreases size - row,
        {
            let mut col: usize = row;
            while col < size - row - 1
                invariant
                    n == size,
                    g.len() == n,
                    is_square(g),
                    row < size / 2,
                    row <= col <= size - row - 1,
                    self@.kind == old(self)@.kind,
                    self@.color == old(self)@.color,
                    self@.grid == partly_turned(g, direction, row as int, col as int),
                decreases size - col,
            {
                let ghost before = self@.grid;
                assert(is_square(before));
                let (a, b) = (size - row - 1, size - col - 1);
                let t = self.get(row, col);
                match direction {
                    Direction::Left => {
                        let v = self.get(col, a);
                        self.set(row, col, v);
                        assert(is_square(self@.grid));
                        let v = self.get(a, b);
                        self.set(col, a, v);
                        assert(is_square(self@.grid));
                        let v = self.get(b, row);
                        self.set(a, b, v);
                        assert(is_square(self@.grid));
                        self.set(b, row, t);
                    },
                    Direction::Right => {
                        let v = self.get(b, row);
                        self.set(row, col, v);
                        assert(is_square(self@.grid));
                        let v = self.get(a, b);
                        self.set(b, row, v);
                        assert(is_square(self@.grid));
                        let v = self.get(col, a);
                        self.set(a, b, v);
                        assert(is_square(self@.grid));
                        self.set(col, a, t);
                    },
                }
                proof {
                    assert(is_square(self@.grid));
                    lemma_cycle(g, direction, row as int, col as int, self@.grid);
                }
                col += 1;
            }
            assert(self@.grid =~~= partly_turned(g, direction, row + 1, row + 1));
            row += 1;
        }
        assert(self@.grid =~~= turned(g, direction));
        proof {
            lemma_turned_wf(old(self)@, direction);
            lemma_turn_keeps_count(g, direction);
        }
    }

    /// The occupied cells as `(row, column)` pairs, in row-major order.
    pub fn each_point(&self) -> (cells: Vec<(i32, i32)>)
        requires
            self@.wf(),
        ensures
            as_cells(cells@) == filled_cells(self@.grid),
    {
        let size = self.shape.len();
        let ghost g = self@.grid;
        let mut cells: Vec<(i32, i32)> = Vec::new();
        let mut row: usize = 0;
        assert(as_cells(cells@) =~= grid_cells(g, 0));
        while row < size
            invariant
                g == self@.grid,
                self@.wf(),
                size == g.len(),
                row <= size,
                as_cells(cells@) == grid_cells(g, row as int),
            decreases size - row,
        {
            let ghost above = as_cells(cells@);
            assert(g[row as int].len() == size);
            let mut col: usize = 0;
            assert(as_cells(cells@) =~= above + row_cells(g[row as int], row as int, 0));
            while col < size
                invariant
                    g == self@.grid,
                    self@.wf(),
                    size == g.len(),
                    row < size,
                    col <= size,
                    g[row as int].len() == size,
                    as_cells(cells@) == above + row_cells(g[row as int], row as int, col as int),
                decreases size - col,
            {
                let ghost sofar = as_cells(cells@);
                if self.get(row, col) != 0 {
                    cells.push((row as i32, col as i32));
                    assert(as_cells(cells@) =~= sofar.push((row as int, col as int)));
                    assert(sofar.push((row as int, col as int)) =~= above + row_cells(
                        g[row as int],
                        row as int,
                        col + 1,
                    ));
                }
                col += 1;
            }
            row += 1;
        }
        cells
    }
}

impl Clone for Piece {
    fn clone(&self) -> (p: Piece)
        ensures
            p@ == self@,
    {
        let mut shape: Vec<Vec<u8>> = Vec::with_capacity(self.shape.len());
        let mut r: usize = 0;
        while r < self.shape.len()
            invariant
                r <= self.shape@.len(),
                shape@.len() == r,
                forall|i: int| 0 <= i < r ==> (#[trigger] shape@[i])@ == self.shape@[i]@,
            decreases self.shape@.len() - r,
        {
            let src = &self.shape[r];
            let mut row: Vec<u8> = Vec::with_capacity(src.len());
            let mut c: usize = 0;
            while c < src.len()
                invariant
                    c <= src@.len(),
                    row@ == src@.take(c as int),
                decreases src@.len() - c,
            {
                row.push(src[c]);
                assert(src@.take(c as int).push(src@[c as int]) =~= src@.take(c + 1));
                c += 1;
            }
            assert(row@ =~= src@);
            shape.push(row);
            r += 1;
        }
        let p = Piece { kind: self.kind, color: self.color, shape };
        assert(p@.grid =~= self@.grid);
        p
    }
}

/// Every piece is well-formed as its factory makes it.
pub proof fn lemma_standard_wf(kind: PieceKind)
    ensures
        PieceView::standard(kind).wf(),
{
    let g = PieceView::standard(kind).grid;
    match kind {
        PieceKind::O | PieceKind::Z | PieceKind::J => assert(filled(g, 0, 0)),
        _ => assert(filled(g, 1, 0)),
    }
}

/// A quarter turn keeps a well-formed piece well-formed.
pub proof fn lemma_turned_wf(p: PieceView, d: Direction)
    requires
        p.wf(),
    ensures
        p.turned(d).wf(),
{
    let n = p.grid.len() as int;
    let (r, c) = choose|r: int, c: int| filled(p.grid, r, c);
    assert(p.grid[r].len() == n);
    let t = p.turned(d).grid;
    assert(t.len() == n);
    assert forall|i: int| 0 <= i < t.len() implies (#[trigger] t[i]).len() == t.len() by {}
    assert forall|i: int, j: int| 0 <= i < t.len() && 0 <= j < t[i].len() implies #[trigger] t[i][j]
        <= 1 by {
        match d {
            Direction::Right => {
                assert(p.grid[n - 1 - j].len() == n);
                assert(t[i][j] == p.grid[n - 1 - j][i]);
            },
            Direction::Left => {
                assert(p.grid[j].len() == n);
                assert(t[i][j] == p.grid[j][n - 1 - i]);
            },
        }
    }
    match d {
        Direction::Right => {
            assert(t[c].len() == n);
            assert(t[c][n - 1 - r] == p.grid[r][c]);
            assert(filled(t, c, n - 1 - r));
        },
        Direction::Left => {
            assert(t[n - 1 - c].len() == n);
            assert(t[n - 1 - c][r] == p.grid[r][c]);
            assert(filled(t, n - 1 - c, r));
        },
    }
}

/// A cell is listed among the occupied cells of a matrix exactly if it lies
/// inside the matrix and is occupied.
pub proof fn lemma_filled_cells(g: Grid)
    ensures
        forall|r: int, c: int| #[trigger] filled_cells(g).contains((r, c)) <==> filled(g, r, c),
{
    lemma_grid_cells(g, g.len() as int);
}

/// A quarter turn keeps the number of occupied cells.
pub proof fn lemma_turn_keeps_count(g: Grid, d: Direction)
    requires
        is_square(g),
    ensures
        filled_cells(turned(g, d)).len() == filled_cells(g).len(),
{
    let n = g.len() as int;
    let t = turned(g, d);
    let a = filled_cells(g);
    let b = filled_cells(t);
    lemma_filled_cells(g);
    lemma_filled_cells(t);
    lemma_grid_cells_distinct(g, n);
    lemma_grid_cells_distinct(t, n);
    a.unique_seq_to_set();
    b.unique_seq_to_set();
    // where a cell of `g` lies after the turn
    let f = |p: (int, int)|
        match d {
            Direction::Right => (p.1, n - 1 - p.0),
            Direction::Left => (n - 1 - p.1, p.0),
        };
    assert forall|q: (int, int)| a.to_set().map(f).contains(q) == b.to_set().contains(q) by {
        if a.to_set().map(f).contains(q) {
            let p = choose|p: (int, int)| a.to_set().contains(p) && f(p) == q;
            assert(a.contains((p.0, p.1)));
            assert(g[p.0].len() == n);
            assert(t[q.0].len() == n);
            assert(t[q.0][q.1] == g[p.0][p.1]);
            assert(filled(t, q.0, q.1));
            assert(b.contains((q.0, q.1)));
        }
        if b.to_set().contains(q) {
            assert(b.contains((q.0, q.1)));
            assert(t[q.0].len() == n);
            let p = match d {
                Direction::Right => (n - 1 - q.1, q.0),
                Direction::Left => (q.1, n - 1 - q.0),
            };
            assert(g[p.0].len() == n);
            assert(t[q.0][q.1] == g[p.0][p.1]);
            assert(filled(g, p.0, p.1));
            assert(a.contains((p.0, p.1)));
            assert(a.to_set().contains(p) && f(p) == q);
        }
    }
    assert(a.to_set().map(f) =~= b.to_set());
    assert(injective_on(f, a.to_set()));
    seq_to_set_is_finite(a);
    lemma_map_size(a.to_set(), b.to_set(), f);
}

/// Four quarter turns in one direction give back the matrix that was turned.
pub proof fn lemma_four_turns(g: Grid, d: Direction)
    requires
        is_square(g),
    ensures
        turned(turned(turned(turned(g, d), d), d), d) == g,
{
    let n = g.len() as int;
    let g1 = turned(g, d);
    let g2 = turned(g1, d);
    let g3 = turned(g2, d);
    let g4 = turned(g3, d);
    assert forall|r: int| 0 <= r < n implies #[trigger] g4[r] =~= g[r] by {
        assert(g[r].len() == n);
        assert forall|c: int| 0 <= c < n implies g4[r][c] == g[r][c] by {
            match d {
                Direction::Right => {
                    assert(g4[r][c] == g3[n - 1 - c][r]);
                    assert(g3[n - 1 - c][r] == g2[n - 1 - r][n - 1 - c]);
                    assert(g2[n - 1 - r][n - 1 - c] == g1[c][n - 1 - r]);
                    assert(g1[c][n - 1 - r] == g[r][c]);
                },
                Direction::Left => {
                    assert(g4[r][c] == g3[c][n - 1 - r]);
                    assert(g3[c][n - 1 - r] == g2[n - 1 - r][n - 1 - c]);
                    assert(g2[n - 1 - r][n - 1 - c] == g1[n - 1 - c][r]);
                    assert(g1[n - 1 - c][r] == g[r][c]);
                },
            }
        }
    }
    assert(g4 =~= g);
}

/// A turn to the left undoes a turn to the right, and the other way round.
pub proof fn lemma_turn_back(g: Grid, d: Direction)
    requires
        is_square(g),
    ensures
        turned(turned(g, d), opposite(d)) == g,
{
    let n = g.len() as int;
    let g1 = turned(g, d);
    let g2 = turned(g1, opposite(d));
    assert forall|r: int| 0 <= r < n implies #[trigger] g2[r] =~= g[r] by {
        assert(g[r].len() == n);
        assert forall|c: int| 0 <= c < n implies g2[r][c] == g[r][c] by {
            match d {
                Direction::Right => {
                    assert(g2[r][c] == g1[c][n - 1 - r]);
                },
                Direction::Left => {
                    assert(g2[r][c] == g1[n - 1 - c][r]);
                },
            }
        }
    }
    assert(g2 =~= g);
}

/// Distance of the cell in row `r`, column `c` from the nearest edge of an
/// `n` by `n` matrix: the ring that the cell lies on.
spec fn ring(n: int, r: int, c: int) -> int {
    let a = if r <= n - 1 - r { r } else { n - 1 - r };
    let b = if c <= n - 1 - c { c } else { n - 1 - c };
    if a <= b { a } else { b }
}

/// The column, on the top edge of its ring, of the cell that shares a
/// four-cell orbit with the cell in row `r`, column `c`.
spec fn orbit(n: int, r: int, c: int) -> int {
    let i = ring(n, r, c);
    if r == i && c < n - 1 - i {
        c
    } else if c == n - 1 - i && r < n - 1 - i {
        r
    } else if r == n - 1 - i && c > i {
        n - 1 - c
    } else {
        n - 1 - r
    }
}

/// Whether the in-place turn has already moved the cell in row `r`, column `c`
/// when it is about to treat column `col` of ring `row`.
spec fn moved(n: int, row: int, col: int, r: int, c: int) -> bool {
    let i = ring(n, r, c);
    2 * i < n - 1 && (i < row || (i == row && orbit(n, r, c) < col))
}

/// The matrix in the middle of an in-place turn of `g` in direction `d`.
spec fn partly_turned(g: Grid, d: Direction, row: int, col: int) -> Grid {
    Seq::new(
        g.len(),
        |r: int|
            Seq::new(
                g.len(),
                |c: int|
                    if moved(g.len() as int, row, col, r, c) {
                        turned(g, d)[r][c]
                    } else {
                        g[r][c]
                    },
            ),
    )
}

/// `g` with the cell in row `r`, column `c` replaced by `v`.
spec fn put(g: Grid, r: int, c: int, v: u8) -> Grid {
    g.update(r, g[r].update(c, v))
}

/// The cell in row `r`, column `c` once the four cells of the orbit that
/// starts in row `row`, column `col` of `g` have been cycled in direction `d`.
spec fn cycled(g: Grid, d: Direction, row: int, col: int, r: int, c: int) -> u8 {
    let n = g.len() as int;
    let (a, b) = (n - 1 - row, n - 1 - col);
    if r == row && c == col {
        match d {
            Direction::Left => g[col][a],
            Direction::Right => g[b][row],
        }
    } else if r == col && c == a {
        match d {
            Direction::Left => g[a][b],
            Direction::Right => g[row][col],
        }
    } else if r == a && c == b {
        match d {
            Direction::Left => g[b][row],
            Direction::Right => g[col][a],
        }
    } else if r == b && c == row {
        match d {
            Direction::Left => g[row][col],
            Direction::Right => g[a][b],
        }
    } else {
        g[r][c]
    }
}

/// Cycling the four cells of one orbit advances the in-place turn by one column.
proof fn lemma_cycle(g: Grid, d: Direction, row: int, col: int, after: Grid)
    requires
        is_square(g),
        0 <= row <= col < g.len() - 1 - row,
        after.len() == g.len(),
        is_square(after),
        forall|r: int, c: int|
            0 <= r < g.len() && 0 <= c < g.len() ==> #[trigger] after[r][c] == cycled(
                partly_turned(g, d, row, col),
                d,
                row,
                col,
                r,
                c,
            ),
    ensures
        after == partly_turned(g, d, row, col + 1),
{
    let n = g.len() as int;
    let before = partly_turned(g, d, row, col);
    let next = partly_turned(g, d, row, col + 1);
    assert forall|r: int| 0 <= r < n implies #[trigger] after[r] =~= next[r] by {
        assert(after[r].len() == n);
        assert forall|c: int| 0 <= c < n implies after[r][c] == next[r][c] by {
            assert(after[r][c] == cycled(before, d, row, col, r, c));
            assert(g[r].len() == n);
            assert(g[c].len() == n);
            assert(g[n - 1 - r].len() == n);
            assert(g[n - 1 - c].len() == n);
        }
    }
    assert(after =~= next);
}

/// The cells that `row_cells` lists are the occupied ones among the first
/// `upto` cells of the row, and no others.
proof fn lemma_row_cells(row: Seq<u8>, r: int, upto: int)
    requires
        0 <= upto <= row.len(),
    ensures
        forall|p: (int, int)|
            row_cells(row, r, upto).contains(p) <==> (p.0 == r && 0 <= p.1 < upto && row[p.1] != 0),
    decreases upto,
{
    if upto > 0 {
        lemma_row_cells(row, r, upto - 1);
        let rest = row_cells(row, r, upto - 1);
        let all = row_cells(row, r, upto);
        assert forall|p: (int, int)| all.contains(p) <==> (p.0 == r && 0 <= p.1 < upto && row[p.1]
            != 0) by {
            if row[upto - 1] != 0 {
                let last = (r, upto - 1);
                assert(all == rest.push(last));
                if all.contains(p) {
                    let i = choose|i: int| 0 <= i < all.len() && all[i] == p;
                    if i < rest.len() {
                        assert(rest[i] == p);
                        assert(rest.contains(p));
                    } else {
                        assert(p == last);
                    }
                }
                if p.0 == r && 0 <= p.1 < upto && row[p.1] != 0 {
                    if p.1 == upto - 1 {
                        assert(all[rest.len() as int] == p);
                    } else {
                        assert(rest.contains(p));
                        let i = choose|i: int| 0 <= i < rest.len() && rest[i] == p;
                        assert(all[i] == p);
                    }
                }
            } else {
                assert(all == rest);
                assert(rest.contains(p) <==> (p.0 == r && 0 <= p.1 < upto - 1 && row[p.1] != 0));
            }
        }
    }
}

/// The cells that `grid_cells` lists are the occupied ones in the first `upto`
/// rows, and no others.
proof fn lemma_grid_cells(g: Grid, upto: int)
    requires
        0 <= upto <= g.len(),
    ensures
        forall|p: (int, int)|
            grid_cells(g, upto).contains(p) <==> (p.0 < upto && filled(g, p.0, p.1)),
    decreases upto,
{
    if upto > 0 {
        lemma_grid_cells(g, upto - 1);
        let row = g[upto - 1];
        lemma_row_cells(row, upto - 1, row.len() as int);
        let above = grid_cells(g, upto - 1);
        let here = row_cells(row, upto - 1, row.len() as int);
        let all = grid_cells(g, upto);
        assert(all == above + here);
        assert forall|p: (int, int)| all.contains(p) <==> (p.0 < upto && filled(g, p.0, p.1)) by {
            if all.contains(p) {
                let i = choose|i: int| 0 <= i < all.len() && all[i] == p;
                if i < above.len() {
                    assert(above[i] == p);
                    assert(above.contains(p));
                } else {
                    assert(here[i - above.len()] == p);
                    assert(here.contains(p));
                }
            }
            if p.0 < upto && filled(g, p.0, p.1) {
                if p.0 == upto - 1 {
                    assert(here.contains(p));
                    let i = choose|i: int| 0 <= i < here.len() && here[i] == p;
                    assert(all[above.len() + i] == p);
                } else {
                    assert(above.contains(p));
                    let i = choose|i: int| 0 <= i < above.len() && above[i] == p;
                    assert(all[i] == p);
                }
            }
        }
    }
}

/// No cell is listed twice among the occupied cells of a row.
proof fn lemma_row_cells_distinct(row: Seq<u8>, r: int, upto: int)
    requires
        0 <= upto <= row.len(),
    ensures
        row_cells(row, r, upto).no_duplicates(),
    decreases upto,
{
    if upto > 0 {
        lemma_row_cells_distinct(row, r, upto - 1);
        lemma_row_cells(row, r, upto - 1);
        let rest = row_cells(row, r, upto - 1);
        assert forall|i: int| 0 <= i < rest.len() implies rest[i] != (r, upto - 1) by {
            assert(rest.contains(rest[i]));
        }
    }
}

/// No cell is listed twice among the occupied cells of a matrix.
proof fn lemma_grid_cells_distinct(g: Grid, upto: int)
    requires
        0 <= upto <= g.len(),
    ensures
        grid_cells(g, upto).no_duplicates(),
    decreases upto,
{
    if upto > 0 {
        lemma_grid_cells_distinct(g, upto - 1);
        lemma_grid_cells(g, upto - 1);
        let row = g[upto - 1];
        lemma_row_cells_distinct(row, upto - 1, row.len() as int);
        lemma_row_cells(row, upto - 1, row.len() as int);
        let above = grid_cells(g, upto - 1);
        let here = row_cells(row, upto - 1, row.len() as int);
        assert forall|i: int, j: int| 0 <= i < above.len() && 0 <= j < here.len() implies above[i]
            != here[j] by {
            assert(above.contains(above[i]));
            assert(here.contains(here[j]));
        }
        lemma_no_dup_in_concat(above, here);
    }
}

} // verus!
