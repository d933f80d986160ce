//! What a frame shows: the list of paints that a display carries out, in
//! their order.

use crate::board::{Board, BoardView, Point, Row, HIDDEN_ROWS};
use crate::game::{Game, GameView};
use crate::piece::{as_cells, filled, filled_cells, lemma_filled_cells, Color, Piece, PieceView};
use vstd::prelude::*;

verus! {

/// What one paint writes.
#[derive(Clone, Copy, Debug, PartialEq, Eq, Structural)]
pub enum Text {
    /// One character of the walls beside the board.
    Wall,
    /// One character of the floor below the board.
    Floor,
    /// One blank: half of a block.
    Block,
    /// The line that shows the level.
    Level(u32),
    /// The line that shows the score.
    Score(u32),
    /// The line that shows the time between two steps of gravity.
    Speed(u64),
    /// The label above the next piece.
    NextPiece,
}

/// One paint: a text at a column and a row of the display, in two colors.
#[derive(Clone, Copy, Debug, PartialEq, Eq, Structural)]
pub struct Paint {
    pub text: Text,
    pub x: u32,
    pub y: u32,
    pub foreground: Color,
    pub background: Color,
}

/// The mathematical value of a paint.
pub struct PaintView {
    pub text: Text,
    pub x: int,
    pub y: int,
    pub foreground: Color,
    pub background: Color,
}

impl View for Paint {
    type V = PaintView;

    open spec fn view(&self) -> PaintView {
        PaintView {
            text: self.text,
            x: self.x as int,
            y: self.y as int,
            foreground: self.foreground,
            background: self.background,
        }
    }
}

/// The values of a list of paints.
pub open spec fn paint_views(paints: Seq<Paint>) -> Seq<PaintView> {
    Seq::new(paints.len(), |i: int| paints[i]@)
}

/// A paint of the frame and the text lines: red on black.
pub open spec fn frame(text: Text, x: int, y: int) -> PaintView {
    PaintView { text, x, y, foreground: Color::Red, background: Color::Black }
}

/// A paint of half a block: a blank in the block's color.
pub open spec fn block(x: int, y: int, color: Color) -> PaintView {
    PaintView { text: Text::Block, x, y, foreground: color, background: color }
}

/// The walls: for each row below the hidden ones, top down, the left wall
/// in column 0 and then the right wall behind the last block.
pub open spec fn wall_paints(b: BoardView) -> Seq<PaintView> {
    let shown = if b.height() > HIDDEN_ROWS { b.height() - HIDDEN_ROWS } else { 0 };
    Seq::new(
        (2 * shown) as nat,
        |k: int|
            frame(Text::Wall, if k % 2 == 0 { 0 } else { 2 * b.width + 1 }, HIDDEN_ROWS + k / 2),
    )
}

/// The floor: the row below the board, from column 0 to the column before
/// the right wall.
pub open spec fn floor_paints(b: BoardView) -> Seq<PaintView> {
    Seq::new((2 * b.width + 1) as nat, |x: int| frame(Text::Floor, x, b.height()))
}

/// The blocks among the first `upto` cells of a row, left to right, two
/// paints for each.
pub open spec fn row_paints(row: Row, y: int, upto: int) -> Seq<PaintView>
    decreases upto,
{
    if upto <= 0 {
        Seq::empty()
    } else {
        match row[upto - 1] {
            Some(color) => row_paints(row, y, upto - 1).push(block(2 * upto - 1, y, color)).push(
                block(2 * upto, y, color),
            ),
            None => row_paints(row, y, upto - 1),
        }
    }
}

/// The blocks in the first `upto` rows of a board, top down.
pub open spec fn cell_paints(b: BoardView, upto: int) -> Seq<PaintView>
    decreases upto,
{
    if upto <= 0 {
        Seq::empty()
    } else {
        cell_paints(b, upto - 1) + row_paints(b.rows[upto - 1], upto - 1, b.width)
    }
}

/// All paints of a board: the walls, the floor, the blocks.
pub open spec fn board_paints(b: BoardView) -> Seq<PaintView> {
    wall_paints(b) + floor_paints(b) + cell_paints(b, b.height())
}

/// The paints of a piece whose matrix has its top left corner in column `x`,
/// row `y` of the display: two paints for each occupied cell, in row-major
/// order. A cell is two columns wide.
pub open spec fn piece_paints(p: PieceView, x: int, y: int) -> Seq<PaintView> {
    let cells = filled_cells(p.grid);
    Seq::new(
        2 * cells.len(),
        |k: int| block(x + 2 * cells[k / 2].1 + k % 2, y + cells[k / 2].0, p.color),
    )
}

/// The column in which the text lines beside the board start.
pub open spec fn margin(b: BoardView) -> int {
    2 * b.width + 5
}

/// All paints of a game: the board, the three text lines, the piece in play
/// and its shadow where it would come to rest, then the label and the
/// next piece itself. A game that is over shows neither piece nor
/// shadow.
pub open spec fn game_paints(g: GameView) -> Seq<PaintView> {
    let left = margin(g.board);
    let lines = seq![
        frame(Text::Level(g.level), left, 3),
        frame(Text::Score(g.score), left, 4),
        frame(Text::Speed(g.duration), left, 5),
    ];
    let falling = if g.over {
        Seq::empty()
    } else {
        piece_paints(g.piece, 1 + 2 * g.x, g.y) + piece_paints(g.piece, 1 + 2 * g.x, g.landing_y())
    };
    board_paints(g.board) + lines + falling + seq![frame(Text::NextPiece, left, 7)] + piece_paints(
        g.bag.queue[0],
        left + 2,
        9,
    )
}

/// A paint of the frame and the text lines: red on black.
fn frame_paint(text: Text, x: u32, y: u32) -> (p: Paint)
    ensures
        p@ == frame(text, x as int, y as int),
{
    Paint { text, x, y, foreground: Color::Red, background: Color::Black }
}

/// A paint of half a block: a blank in the block's color.
fn block_paint(x: u32, y: u32, color: Color) -> (p: Paint)
    ensures
        p@ == block(x as int, y as int, color),
{
    Paint { text: Text::Block, x, y, foreground: color, background: color }
}

impl Board {
    /// Adds the paints of the board to the display list.
    pub fn render(&self, display: &mut Vec<Paint>)
        requires
            self@.wf(),
        ensures
            paint_views(final(display)@) == paint_views(old(display)@) + board_paints(self@),
    {
        let ghost before = paint_views(display@);
        let width = self.width() as u32;
        let height = self.height() as u32;
        let hidden = HIDDEN_ROWS as u32;
        let mut y: u32 = hidden;
        assert(paint_views(display@) =~= before + wall_paints(self@).take(0));
        while y < height
            invariant
                self@.wf(),
                width == self@.width,
                height == self@.height(),
                hidden == HIDDEN_ROWS,
                hidden <= y,
                y == hidden || y <= height,
                paint_views(display@) == before + wall_paints(self@).take(2 * (y - hidden)),
            decreases height - y,
        {
            let ghost sofar = paint_views(display@);
            display.push(frame_paint(Text::Wall, 0, y));
            display.push(frame_paint(Text::Wall, width * 2 + 1, y));
            proof {
                let k = 2 * (y - hidden);
                let walls = wall_paints(self@);
                assert(walls[k] == frame(Text::Wall, 0, y as int));
                assert(walls[k + 1] == frame(Text::Wall, 2 * width + 1, y as int));
                assert(walls.take(k + 2) =~= walls.take(k).push(walls[k]).push(walls[k + 1]));
                assert(paint_views(display@) =~= sofar.push(walls[k]).push(walls[k + 1]));
            }
            y += 1;
        }
        assert(paint_views(display@) =~= before + wall_paints(self@)) by {
            let walls = wall_paints(self@);
            assert(walls.take(walls.len() as int) =~= walls);
        }
        let ghost walled = paint_views(display@);
        let mut x: u32 = 0;
        assert(paint_views(display@) =~= walled + floor_paints(self@).take(0));
        while x < width * 2 + 1
            invariant
                self@.wf(),
                width == self@.width,
                height == self@.height(),
                x <= width * 2 + 1,
                paint_views(display@) == walled + floor_paints(self@).take(x as int),
            decreases width * 2 + 1 - x,
        {
            let ghost sofar = paint_views(display@);
            display.push(frame_paint(Text::Floor, x, height));
            proof {
                let floor = floor_paints(self@);
                assert(floor.take(x + 1) =~= floor.take(x as int).push(floor[x as int]));
                assert(paint_views(display@) =~= sofar.push(floor[x as int]));
            }
            x += 1;
        }
        assert(paint_views(display@) =~= walled + floor_paints(self@)) by {
            let floor = floor_paints(self@);
            assert(floor.take(floor.len() as int) =~= floor);
        }
        let ghost floored = paint_views(display@);
        let mut row: u32 = 0;
        assert(paint_views(display@) =~= floored + cell_paints(self@, 0));
        while row < height
            invariant
                self@.wf(),
                width == self@.width,
                height == self@.height(),
                row <= height,
                paint_views(display@) == floored + cell_paints(self@, row as int),
            decreases height - row,
        {
            let ghost above = paint_views(display@);
            let ghost cells = self@.rows[row as int];
            let mut col: u32 = 0;
            assert(paint_views(display@) =~= above + row_paints(cells, row as int, 0));
            while col < width
                invariant
                    self@.wf(),
                    width == self@.width,
                    height == self@.height(),
                    row < height,
                    col <= width,
                    cells == self@.rows[row as int],
                    paint_views(display@) == above + row_paints(cells, row as int, col as int),
                decreases width - col,
            {
                let ghost sofar = paint_views(display@);
                if let Some(color) = self.cell(row as usize, col as usize) {
                    let c = 1 + (col * 2);
                    display.push(block_paint(c, row, color));
                    display.push(block_paint(c + 1, row, color));
                    assert(paint_views(display@) =~= sofar.push(block(c as int, row as int, color)).push(
                        block(c + 1, row as int, color),
                    ));
                }
                assert(paint_views(display@) =~= above + row_paints(cells, row as int, col + 1));
                col += 1;
            }
            assert(paint_views(display@) =~= floored + cell_paints(self@, row + 1));
            row += 1;
        }
        assert(paint_views(display@) =~= before + board_paints(self@));
    }
}

impl Game {
    /// Adds the paints of a piece to the display list; `origin` is the place of
    /// the top left corner of its matrix on the display. No occupied cell may
    /// lie left of column 0 or above row 0.
    pub fn render_piece(&self, display: &mut Vec<Paint>, piece: &Piece, origin: Point)
        requires
            piece@.wf(),
            forall|r: int, c: int|
                filled(piece@.grid, r, c) ==> origin.x + 2 * c >= 0 && origin.y + r >= 0,
        ensures
            paint_views(final(display)@) == paint_views(old(display)@) + piece_paints(
                piece@,
                origin.x as int,
                origin.y as int,
            ),
    {
        let ghost before = paint_views(display@);
        let ghost listed = filled_cells(piece@.grid);
        let ghost all = piece_paints(piece@, origin.x as int, origin.y as int);
        let color = piece.color();
        let cells = piece.each_point();
        proof {
            lemma_filled_cells(piece@.grid);
            assert(paint_views(display@) =~= before + all.take(0));
        }
        let mut i: usize = 0;
        while i < cells.len()
            invariant
                piece@.wf(),
                color == piece@.color,
                as_cells(cells@) == listed,
                listed == filled_cells(piece@.grid),
                all == piece_paints(piece@, origin.x as int, origin.y as int),
                forall|r: int, c: int|
                    #[trigger] listed.contains((r, c)) <==> filled(piece@.grid, r, c),
                forall|r: int, c: int|
                filled(piece@.grid, r, c) ==> origin.x + 2 * c >= 0 && origin.y + r >= 0,
                i <= cells@.len(),
                paint_views(display@) == before + all.take(2 * i),
            decreases cells@.len() - i,
        {
            let (row, col) = cells[i];
            proof {
                assert(listed[i as int] == (row as int, col as int));
                assert(listed.contains((row as int, col as int)));
                assert(piece@.grid[row as int].len() == piece@.grid.len());
            }
            let x: u32 = (origin.x as i64 + 2 * (col as i64)) as u32;
            let y: u32 = (origin.y as i64 + row as i64) as u32;
            let ghost sofar = paint_views(display@);
            display.push(block_paint(x, y, color));
            display.push(block_paint(x + 1, y, color));
            proof {
                let k = 2 * i;
                assert(all[k] == block(x as int, y as int, color));
                assert(all[k + 1] == block(x + 1, y as int, color));
                assert(all.take(k + 2) =~= all.take(k).push(all[k]).push(all[k + 1]));
                assert(paint_views(display@) =~= sofar.push(all[k]).push(all[k + 1]));
            }
            i += 1;
        }
        assert(all.take(all.len() as int) =~= all);
    }

    /// Adds the paints of the game to the display list.
    pub fn render(&self, display: &mut Vec<Paint>)
        requires
            self@.wf(),
        ensures
            paint_views(final(display)@) == paint_views(old(display)@) + game_paints(self@),
    {
        let ghost before = paint_views(display@);
        let ghost g = self@;
        self.board().render(display);
        let left_margin = (self.board().width() * 2 + 5) as u32;
        let ghost boarded = paint_views(display@);
        display.push(frame_paint(Text::Level(self.level()), left_margin, 3));
        display.push(frame_paint(Text::Score(self.score()), left_margin, 4));
        display.push(frame_paint(Text::Speed(self.duration()), left_margin, 5));
        let ghost lines = seq![
            frame(Text::Level(g.level), margin(g.board), 3),
            frame(Text::Score(g.score), margin(g.board), 4),
            frame(Text::Speed(g.duration), margin(g.board), 5),
        ];
        assert(paint_views(display@) =~= boarded + lines);
        let ghost lined = paint_views(display@);
        if !self.is_over() {
            let position = self.position();
            let x = 1 + (2 * position.x);
            let ghost_position = self.find_dropped_position();
            proof {
                assert(!g.board.collides(g.piece.grid, g.x, g.y));
                assert(ghost_position.y >= g.y);
                assert(!g.board.collides(g.piece.grid, g.x, ghost_position.y as int));
                assert forall|r: int, c: int| filled(g.piece.grid, r, c) implies x + 2 * c >= 0
                    && position.y + r >= 0 && ghost_position.y + r >= 0 by {
                    assert(g.board.free(g.x + c, g.y + r));
                    assert(g.board.free(g.x + c, ghost_position.y + r));
                }
            }
            self.render_piece(display, self.piece(), Point { x, y: position.y });
            self.render_piece(display, self.piece(), Point { x, y: ghost_position.y });
        }
        let ghost falling = if g.over {
            Seq::<PaintView>::empty()
        } else {
            piece_paints(g.piece, 1 + 2 * g.x, g.y) + piece_paints(
                g.piece,
                1 + 2 * g.x,
                g.landing_y(),
            )
        };
        assert(paint_views(display@) =~= lined + falling);
        let ghost fallen = paint_views(display@);
        display.push(frame_paint(Text::NextPiece, left_margin, 7));
        assert(paint_views(display@) =~= fallen + seq![frame(Text::NextPiece, margin(g.board), 7)]);
        let next_piece = self.next_piece();
        self.render_piece(display, &next_piece, Point { x: left_margin as i32 + 2, y: 9 });
        assert(paint_views(display@) =~= before + game_paints(g));
    }
}

} // verus!
