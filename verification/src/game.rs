//! The game: one falling piece over a board, the bag that supplies the next
//! piece, and the score.

use crate::bag::{kinds_of, BagView, PieceBag};
use crate::board::{
    blank_rows, lemma_cleared_wf, Board, BoardView, Point, BOARD_HEIGHT, BOARD_WIDTH, MAX_SIDE,
};
use crate::input::Key;
use crate::piece::{filled, lemma_standard_wf, turned, Direction, Piece, PieceKind, PieceView};
use vstd::prelude::*;

verus! {

/// The number of points of score between two levels.
pub const LINES_PER_LEVEL: u32 = 10;

/// The level after a piece has locked and `cleared` rows were removed, when
/// the score has become `score`: one more where the lock cleared a row and
/// the score is now a positive multiple of `LINES_PER_LEVEL`.
///
/// A lock that clears nothing leaves the level, whatever the score is. So
/// does a lock that takes the score past a multiple without coming to rest
/// on it, as from 9 to 11: the level rises only for a score that is a
/// multiple once the rows are counted.
pub open spec fn level_after(level: int, score: int, cleared: int) -> int {
    if cleared > 0 && score % (LINES_PER_LEVEL as int) == 0 && score != 0 {
        level + 1
    } else {
        level
    }
}

/// The level that `locks` locks reach from level 1 and score 0 when each of
/// them clears one row.
pub open spec fn level_by_single_rows(locks: nat) -> int
    decreases locks,
{
    if locks == 0 {
        1
    } else {
        level_after(level_by_single_rows((locks - 1) as nat), locks as int, 1)
    }
}

/// The key can make the piece lock: a step of gravity, or a hard drop.
pub open spec fn may_lock(key: Key) -> bool {
    key == Key::Down || key == Key::Space
}

/// The mathematical value of a game.
pub struct GameView {
    pub board: BoardView,
    pub bag: BagView,
    pub piece: PieceView,
    /// The column of the top left corner of the piece's matrix.
    pub x: int,
    /// The row of the top left corner of the piece's matrix.
    pub y: int,
    pub score: u32,
    pub level: u32,
    pub duration: u64,
    /// The game is lost: no piece could enter the board.
    pub over: bool,
}

impl GameView {
    /// The parts are well-formed, the board is wide enough for every piece,
    /// and the piece is on the board or near it.
    pub open spec fn sound(self) -> bool {
        &&& self.board.wf()
        &&& self.board.width >= 4
        &&& self.bag.wf()
        &&& self.piece.wf()
        &&& -4 <= self.x <= MAX_SIDE
        &&& -4 <= self.y <= MAX_SIDE
    }

    /// The game is sound, and while it goes on the piece collides with nothing.
    pub open spec fn wf(self) -> bool {
        &&& self.sound()
        &&& !self.over ==> !self.board.collides(self.piece.grid, self.x, self.y)
    }

    /// The score and the level can still grow by what one locked piece adds.
    pub open spec fn has_headroom(self) -> bool {
        self.score + self.board.height() <= u32::MAX && self.level < u32::MAX
    }

    /// A piece can lock without the score or the level leaving their range:
    /// there is headroom, or the game is over and no piece locks any more.
    pub open spec fn can_settle(self) -> bool {
        self.over || self.has_headroom()
    }

    /// The column in which a piece enters: its matrix centered over the board.
    pub open spec fn spawn_x(self) -> int {
        (self.board.width - self.piece.size()) / 2
    }

    /// The game with the piece displaced by `dx` columns and `dy` rows.
    pub open spec fn shifted(self, dx: int, dy: int) -> GameView {
        GameView { x: self.x + dx, y: self.y + dy, ..self }
    }

    /// The game goes on and the piece, displaced by `dx` columns and `dy`
    /// rows, collides with nothing.
    pub open spec fn can_move(self, dx: int, dy: int) -> bool {
        !self.over && !self.board.collides(self.piece.grid, self.x + dx, self.y + dy)
    }

    /// The game goes on and the piece, turned in direction `d` where it
    /// stands, collides with nothing.
    pub open spec fn can_turn(self, d: Direction) -> bool {
        !self.over && !self.board.collides(turned(self.piece.grid, d), self.x, self.y)
    }

    /// The game goes on and the piece collides with nothing where pieces enter.
    pub open spec fn can_place(self) -> bool {
        !self.over && !self.board.collides(self.piece.grid, self.spawn_x(), 0)
    }

    /// The game after an attempt to displace the piece.
    pub open spec fn after_move(self, dx: int, dy: int) -> GameView {
        if self.can_move(dx, dy) {
            self.shifted(dx, dy)
        } else {
            self
        }
    }

    /// The game after an attempt to turn the piece.
    pub open spec fn after_turn(self, d: Direction) -> GameView {
        if self.can_turn(d) {
            GameView { piece: self.piece.turned(d), ..self }
        } else {
            self
        }
    }

    /// The game after an attempt to put the piece where pieces enter.
    pub open spec fn after_place(self) -> GameView {
        if self.can_place() {
            GameView { x: self.spawn_x(), y: 0, ..self }
        } else {
            self
        }
    }

    /// The piece, dropped straight down from where it stands, comes to rest
    /// in row `y`: it collides with nothing on the way, and one row further
    /// down it collides. A piece that collides where it stands rests one row
    /// above.
    pub open spec fn lands_at(self, y: int) -> bool {
        &&& self.y - 1 <= y
        &&& forall|j: int| self.y <= j <= y ==> !self.board.collides(self.piece.grid, self.x, j)
        &&& self.board.collides(self.piece.grid, self.x, y + 1)
    }

    /// The row in which the dropped piece comes to rest.
    pub open spec fn landing_y(self) -> int {
        choose|y: int| self.lands_at(y)
    }

    /// The game with the piece dropped to where it comes to rest.
    pub open spec fn dropped(self) -> GameView {
        GameView { y: self.landing_y(), ..self }
    }

    /// `next` is a game that follows when the piece locks where it stands:
    /// the piece is written into the board, the full rows are cleared and
    /// counted into the score, the level rises by one if a row was cleared
    /// and the score has come to rest on a positive multiple of
    /// `LINES_PER_LEVEL`, the front piece of the bag becomes the piece, and it
    /// enters the board, or the game is over if it cannot.
    pub open spec fn settles_to(self, next: GameView) -> bool {
        let locked = self.board.locked(self.piece, self.x, self.y);
        let score = self.score + locked.full_rows();
        &&& next.board == locked.cleared()
        &&& next.score == score
        &&& next.level == level_after(self.level as int, score, locked.full_rows())
        &&& next.duration == self.duration
        &&& next.piece == self.bag.queue[0]
        &&& self.bag.deals_to(next.bag)
        &&& if next.board.collides(next.piece.grid, next.spawn_x(), 0) {
            next.over && next.x == self.x && next.y == self.y
        } else {
            !next.over && next.x == next.spawn_x() && next.y == 0
        }
    }

    /// `next` is a game that follows on one step of gravity: the piece moves
    /// down one row, or locks if it cannot. A game that is over stays as it is.
    pub open spec fn advances_to(self, next: GameView) -> bool {
        if self.over {
            next == self
        } else if self.can_move(0, 1) {
            next == self.shifted(0, 1)
        } else {
            self.settles_to(next)
        }
    }

    /// `next` is a game that follows on a hard drop: the piece locks where
    /// it comes to rest. A game that is over stays as it is.
    pub open spec fn drops_to(self, next: GameView) -> bool {
        if self.over {
            next == self
        } else {
            self.dropped().settles_to(next)
        }
    }

    /// `next` is a game that follows when `key` is pressed.
    pub open spec fn responds_to(self, key: Key, next: GameView) -> bool {
        match key {
            Key::Left => next == self.after_move(-1, 0),
            Key::Right => next == self.after_move(1, 0),
            Key::Down => self.advances_to(next),
            Key::Up => next == self.after_turn(Direction::Left),
            Key::Space => self.drops_to(next),
            Key::Char(c) => if c == 'q' {
                next == self.after_turn(Direction::Left)
            } else if c == 'e' {
                next == self.after_turn(Direction::Right)
            } else {
                next == self
            },
            Key::CtrlC => next == self,
        }
    }
}

/// A game in play.
pub struct Game {
    board: Board,
    piece_bag: PieceBag,
    piece: Piece,
    piece_position: Point,
    score: u32,
    level: u32,
    duration: u64,
    over: bool,
}

impl View for Game {
    type V = GameView;

    closed spec fn view(&self) -> GameView {
        GameView {
            board: self.board@,
            bag: self.piece_bag@,
            piece: self.piece@,
            x: self.piece_position.x as int,
            y: self.piece_position.y as int,
            score: self.score,
            level: self.level,
            duration: self.duration,
            over: self.over,
        }
    }
}

impl Game {
    /// A new game on the standard board: the board empty, the bag freshly
    /// filled, its first piece in play where pieces enter.
    ///
    /// Filling the bag draws random numbers: see `PieceBag::new` for the one
    /// way in which that can fail.
    pub fn new() -> (g: Game)
        ensures
            g@.wf(),
            !g@.over,
            g@.board.width == BOARD_WIDTH,
            g@.board.rows == blank_rows(BOARD_HEIGHT as int, BOARD_WIDTH as int),
            g@.piece == PieceView::standard(g@.piece.kind),
            g@.bag.dealt == seq![g@.piece.kind],
            g@.x == g@.spawn_x(),
            g@.y == 0,
            g@.score == 0,
            g@.level == 1,
            g@.duration == 0,
    {
        let mut piece_bag = PieceBag::new();
        let ghost fresh = piece_bag@;
        let piece = piece_bag.pop();
        let board = Board::new(BOARD_WIDTH, BOARD_HEIGHT);
        proof {
            assert(fresh.current_set() =~= kinds_of(fresh.queue));
            assert(piece_bag@.dealt =~= seq![piece@.kind]);
            lemma_standard_enters(board@, piece@.kind);
        }
        Game::from_parts(board, piece_bag, piece)
    }

    /// A game on the given board with the given piece in play: the piece
    /// stands where pieces enter, or the game is over at once if it collides
    /// there. Score 0, level 1.
    pub fn from_parts(board: Board, piece_bag: PieceBag, piece: Piece) -> (g: Game)
        requires
            board@.wf(),
            board@.width >= 4,
            piece_bag@.wf(),
            piece@.wf(),
        ensures
            g@.wf(),
            g@.board == board@,
            g@.bag == piece_bag@,
            g@.piece == piece@,
            g@.score == 0,
            g@.level == 1,
            g@.duration == 0,
            g@.over == board@.collides(piece@.grid, g@.spawn_x(), 0),
            g@.y == 0,
            g@.x == if g@.over { 0 } else { g@.spawn_x() },
    {
        let mut game = Game {
            board,
            piece_bag,
            piece,
            piece_position: Point { x: 0, y: 0 },
            score: 0,
            level: 1,
            duration: 0,
            over: false,
        };
        if !game.place_new_piece() {
            game.over = true;
        }
        game
    }

    /// The board.
    pub fn board(&self) -> (b: &Board)
        ensures
            b@ == self@.board,
    {
        &self.board
    }

    /// The piece in play.
    pub fn piece(&self) -> (p: &Piece)
        ensures
            p@ == self@.piece,
    {
        &self.piece
    }

    /// A copy of the piece that comes into play next.
    pub fn next_piece(&self) -> (p: Piece)
        requires
            self@.sound(),
        ensures
            p@ == self@.bag.queue[0],
            p@.wf(),
    {
        self.piece_bag.peek()
    }

    /// The top left corner of the matrix of the piece in play.
    pub fn position(&self) -> (p: Point)
        ensures
            p.x == self@.x,
            p.y == self@.y,
    {
        self.piece_position
    }

    /// The number of rows cleared so far.
    pub fn score(&self) -> (s: u32)
        ensures
            s == self@.score,
    {
        self.score
    }

    /// The level, which starts at 1.
    pub fn level(&self) -> (l: u32)
        ensures
            l == self@.level,
    {
        self.level
    }

    /// The time between two steps of gravity, as last set.
    pub fn duration(&self) -> (d: u64)
        ensures
            d == self@.duration,
    {
        self.duration
    }

    /// Sets the time between two steps of gravity.
    pub fn set_duration(&mut self, duration: u64)
        ensures
            final(self)@ == (GameView { duration, ..old(self)@ }),
    {
        self.duration = duration;
    }

    /// Whether the game is lost.
    pub fn is_over(&self) -> (over: bool)
        ensures
            over == self@.over,
    {
        self.over
    }

    /// Whether the score and the level can still grow by what one locked
    /// piece adds.
    pub fn has_headroom(&self) -> (ok: bool)
        requires
            self@.sound(),
        ensures
            ok == self@.has_headroom(),
    {
        self.level < u32::MAX && self.board.height() <= (u32::MAX - self.score) as usize
    }

    /// Whether a piece can lock without the score or the level leaving
    /// their range: there is headroom, or the game is over.
    pub fn can_settle(&self) -> (ok: bool)
        requires
            self@.sound(),
        ensures
            ok == self@.can_settle(),
    {
        self.over || self.has_headroom()
    }

    /// Where the piece in play would come to rest if it were dropped now.
    pub fn find_dropped_position(&self) -> (p: Point)
        requires
            self@.sound(),
        ensures
            p.x == self@.x,
            self@.lands_at(p.y as int),
            p.y == self@.landing_y(),
    {
        let mut origin = self.piece_position;
        while !self.board.collision_test(&self.piece, origin)
            invariant
                self@.sound(),
                origin.x == self@.x,
                self@.y <= origin.y <= MAX_SIDE,
                forall|j: int|
                    self@.y <= j < origin.y ==> !self@.board.collides(self@.piece.grid, self@.x, j),
            decreases MAX_SIDE - origin.y,
        {
            proof {
                if origin.y == MAX_SIDE {
                    lemma_low_collides(self@.board, self@.piece, origin.x as int, origin.y as int);
                }
            }
            origin.y += 1;
        }
        origin.y -= 1;
        proof {
            lemma_landing_unique(self@, origin.y as int, self@.landing_y());
        }
        origin
    }

    /// Moves the piece by `x` columns and `y` rows if it then collides with
    /// nothing, and says whether it moved.
    pub fn move_piece(&mut self, x: i32, y: i32) -> (moved: bool)
        requires
            old(self)@.wf(),
        ensures
            final(self)@.wf(),
            moved == old(self)@.can_move(x as int, y as int),
            final(self)@ == old(self)@.after_move(x as int, y as int),
    {
        if self.over {
            return false;
        }
        let nx: i64 = self.piece_position.x as i64 + x as i64;
        let ny: i64 = self.piece_position.y as i64 + y as i64;
        if nx < -4 || nx > MAX_SIDE as i64 || ny < -4 || ny > MAX_SIDE as i64 {
            proof {
                lemma_far_collides(self@.board, self@.piece, nx as int, ny as int);
            }
            return false;
        }
        let new_position = Point { x: nx as i32, y: ny as i32 };
        if self.board.collision_test(&self.piece, new_position) {
            false
        } else {
            self.piece_position = new_position;
            true
        }
    }

    /// Turns the piece where it stands if it then collides with nothing, and
    /// says whether it turned. No other place is tried for the turned piece.
    pub fn rotate_piece(&mut self, direction: Direction) -> (turned: bool)
        requires
            old(self)@.wf(),
        ensures
            final(self)@.wf(),
            turned == old(self)@.can_turn(direction),
            final(self)@ == old(self)@.after_turn(direction),
    {
        if self.over {
            return false;
        }
        let mut new_piece = self.piece.clone();
        new_piece.rotate(direction);
        if self.board.collision_test(&new_piece, self.piece_position) {
            false
        } else {
            self.piece = new_piece;
            true
        }
    }

    /// Puts the piece in row 0, centered over the board, if it collides with
    /// nothing there, and says whether it did. The game need not be
    /// well-formed for this, only sound.
    pub fn place_new_piece(&mut self) -> (placed: bool)
        requires
            old(self)@.sound(),
        ensures
            final(self)@.sound(),
            old(self)@.wf() ==> final(self)@.wf(),
            placed ==> final(self)@.wf(),
            placed == old(self)@.can_place(),
            final(self)@ == old(self)@.after_place(),
    {
        if self.over {
            return false;
        }
        let origin = Point { x: ((self.board.width() - self.piece.size()) / 2) as i32, y: 0 };
        if self.board.collision_test(&self.piece, origin) {
            false
        } else {
            self.piece_position = origin;
            true
        }
    }

    /// One step of gravity. The piece moves down one row; if it cannot, it
    /// locks, full rows are cleared and scored, and the next piece enters.
    /// Returns false if the game is over, true if it goes on.
    ///
    /// The next piece comes from the bag, which may refill: see
    /// `PieceBag::pop` for the one way in which that can fail.
    pub fn advance_game(&mut self) -> (alive: bool)
        requires
            old(self)@.wf(),
            old(self)@.can_settle(),
        ensures
            final(self)@.wf(),
            old(self)@.advances_to(final(self)@),
            alive == !final(self)@.over,
    {
        if self.over {
            return false;
        }
        if self.move_piece(0, 1) {
            return true;
        }
        let locked = self.board.lock_piece(&self.piece, self.piece_position);
        assert(locked.is_ok());
        let increm = self.board.clear_lines();
        let (score, level) = tally(self.score, self.level, increm);
        self.score = score;
        self.level = level;
        self.piece = self.piece_bag.pop();
        if !self.place_new_piece() {
            self.over = true;
            return false;
        }
        true
    }

    /// A hard drop: the piece falls as far as it can and locks there, full
    /// rows are cleared and scored, and the next piece enters. Returns false
    /// if the game is over, true if it goes on.
    pub fn drop_piece(&mut self) -> (alive: bool)
        requires
            old(self)@.wf(),
            old(self)@.can_settle(),
        ensures
            final(self)@.wf(),
            old(self)@.drops_to(final(self)@),
            alive == !final(self)@.over,
    {
        if self.over {
            return false;
        }
        while self.move_piece(0, 1)
            invariant
                self@.wf(),
                !self@.over,
                self@ == (GameView { y: self@.y, ..old(self)@ }),
                old(self)@.y <= self@.y,
                forall|j: int|
                    old(self)@.y <= j <= self@.y ==> !self@.board.collides(
                        self@.piece.grid,
                        self@.x,
                        j,
                    ),
            decreases MAX_SIDE - self@.y,
        {
        }
        proof {
            assert(old(self)@.lands_at(self@.y));
            lemma_landing_unique(old(self)@, self@.y, old(self)@.landing_y());
            assert(self@ == old(self)@.dropped());
        }
        self.advance_game()
    }

    /// Acts on a key: left and right move the piece, down is one step of
    /// gravity, space is a hard drop, up and `q` turn the piece left, `e`
    /// turns it right. Other keys do nothing.
    pub fn keypress(&mut self, key: Key)
        requires
            old(self)@.wf(),
            may_lock(key) ==> old(self)@.can_settle(),
        ensures
            final(self)@.wf(),
            old(self)@.responds_to(key, final(self)@),
    {
        match key {
            Key::Left => {
                self.move_piece(-1, 0);
            },
            Key::Right => {
                self.move_piece(1, 0);
            },
            Key::Down => {
                self.advance_game();
            },
            Key::Up => {
                self.rotate_piece(Direction::Left);
            },
            Key::Space => {
                self.drop_piece();
            },
            Key::Char(c) => {
                if c == 'q' {
                    self.rotate_piece(Direction::Left);
                } else if c == 'e' {
                    self.rotate_piece(Direction::Right);
                }
            },
            Key::CtrlC => {},
        }
    }
}

/// The score and the level after a piece has locked and `cleared` rows were
/// removed: the rows are added to the score, and the level rises by one if
/// a row was cleared and the score is then a positive multiple of
/// `LINES_PER_LEVEL`.
pub fn tally(score: u32, level: u32, cleared: u32) -> (next: (u32, u32))
    requires
        score + cleared <= u32::MAX,
        level < u32::MAX,
    ensures
        next.0 == score + cleared,
        next.1 == level_after(level as int, score + cleared, cleared as int),
{
    let score = score + cleared;
    if cleared > 0 && score % LINES_PER_LEVEL == 0 && score != 0 {
        (score, level + 1)
    } else {
        (score, level)
    }
}

/// Clearing one row at a time, the level rises by one with every
/// `LINES_PER_LEVEL` rows: it is 1 up to a score of 9, 2 from 10 to 19, and so on.
pub proof fn lemma_level_by_single_rows(locks: nat)
    ensures
        level_by_single_rows(locks) == 1 + locks / (LINES_PER_LEVEL as nat),
    decreases locks,
{
    if locks > 0 {
        lemma_level_by_single_rows((locks - 1) as nat);
    }
}

/// A lock that clears no row leaves the level, at every score.
pub proof fn lemma_level_kept_without_rows(level: int, score: int)
    ensures
        level_after(level, score, 0) == level,
{
}

/// When the piece locks and no row is full, the score and the level stay as
/// they are.
pub proof fn lemma_settled_without_rows(g: GameView, next: GameView)
    requires
        g.settles_to(next),
        g.board.locked(g.piece, g.x, g.y).full_rows() == 0,
    ensures
        next.score == g.score,
        next.level == g.level,
{
}

/// When a piece locks, the game stays well-formed and the board keeps its
/// size; the score does not fall and grows by no more than the board has
/// rows; the level does not fall and grows by no more than one.
pub proof fn lemma_settled(g: GameView, next: GameView)
    requires
        g.wf(),
        !g.over,
        g.settles_to(next),
    ensures
        next.wf(),
        next.board.width == g.board.width,
        next.board.height() == g.board.height(),
        g.score <= next.score <= g.score + g.board.height(),
        g.level <= next.level <= g.level + 1,
{
    let locked = g.board.locked(g.piece, g.x, g.y);
    assert(locked.wf());
    lemma_cleared_wf(locked);
    lemma_standard_wf(g.bag.queue[0].kind);
}

/// A step of gravity keeps the game well-formed; the score and the level do
/// not fall.
pub proof fn lemma_advanced(g: GameView, next: GameView)
    requires
        g.wf(),
        g.advances_to(next),
    ensures
        next.wf(),
        g.score <= next.score,
        g.level <= next.level,
{
    if !g.over && !g.can_move(0, 1) {
        lemma_settled(g, next);
    } else if !g.over {
        let (r, c) = choose|r: int, c: int| filled(g.piece.grid, r, c);
        assert(g.board.free(g.x + c, g.y + 1 + r));
    }
}

/// A piece comes to rest in one row only.
pub proof fn lemma_landing_unique(g: GameView, y1: int, y2: int)
    requires
        g.lands_at(y1),
        g.lands_at(y2),
    ensures
        y1 == y2,
{
    if y1 < y2 {
        assert(g.y <= y1 + 1 <= y2);
    } else if y2 < y1 {
        assert(g.y <= y2 + 1 <= y1);
    }
}

/// A piece whose corner lies below the last row that a board can have collides.
proof fn lemma_low_collides(b: BoardView, p: PieceView, x: int, y: int)
    requires
        b.wf(),
        p.wf(),
        y >= MAX_SIDE,
    ensures
        b.collides(p.grid, x, y),
{
    let (r, c) = choose|r: int, c: int| filled(p.grid, r, c);
    assert(!b.free(x + c, y + r));
}

/// On the empty standard board every piece, as its factory made it, collides
/// with nothing where pieces enter.
proof fn lemma_standard_enters(b: BoardView, kind: PieceKind)
    requires
        b.width == BOARD_WIDTH,
        b.rows == blank_rows(BOARD_HEIGHT as int, BOARD_WIDTH as int),
    ensures
        !b.collides(
            PieceView::standard(kind).grid,
            (BOARD_WIDTH - PieceView::standard(kind).size()) / 2,
            0,
        ),
{
    let p = PieceView::standard(kind);
    let x = (BOARD_WIDTH - p.size()) / 2;
    assert forall|r: int, c: int| filled(p.grid, r, c) implies b.free(x + c, r) by {
        assert(0 <= r < 4 && 0 <= c < 4);
        assert(b.rows[r][x + c].is_none());
    }
}

/// A piece whose corner lies more than its own size outside the board collides.
proof fn lemma_far_collides(b: BoardView, p: PieceView, x: int, y: int)
    requires
        b.wf(),
        p.wf(),
        x < -4 || x > MAX_SIDE || y < -4 || y > MAX_SIDE,
    ensures
        b.collides(p.grid, x, y),
{
    let (r, c) = choose|r: int, c: int| filled(p.grid, r, c);
    assert(p.grid[r].len() == p.grid.len());
    assert(!b.free(x + c, y + r));
}

} // verus!
