use blockfall::bag::PieceBag;
use blockfall::board::{Board, Point};
use blockfall::game::{tally, Game, LINES_PER_LEVEL};
use blockfall::input::Key;
use blockfall::piece::{Color, Direction, Piece, PieceKind};

fn grid(b: &Board) -> Vec<Vec<Option<Color>>> {
    (0..b.height()).map(|r| (0..b.width()).map(|c| b.cell(r, c)).collect()).collect()
}

fn upright_i() -> Piece {
    let mut p = Piece::new_i();
    p.rotate(Direction::Right);
    p
}

fn game_with(piece: Piece) -> Game {
    Game::from_parts(Board::new(10, 20), PieceBag::new(), piece)
}

fn standard_shape(kind: PieceKind) -> Vec<Vec<u8>> {
    let p = match kind {
        PieceKind::O => Piece::new_o(),
        PieceKind::L => Piece::new_l(),
        PieceKind::J => Piece::new_j(),
        PieceKind::T => Piece::new_t(),
        PieceKind::S => Piece::new_s(),
        PieceKind::Z => Piece::new_z(),
        PieceKind::I => Piece::new_i(),
    };
    p.shape().clone()
}

#[test]
fn new_game_starts_with_a_piece_in_play() {
    for _ in 0..20 {
        let g = Game::new();
        assert!(!g.is_over());
        assert_eq!(g.score(), 0);
        assert_eq!(g.level(), 1);
        assert_eq!(g.duration(), 0);
        assert_eq!(g.board().width(), 10);
        assert_eq!(g.board().height(), 22);
        assert_eq!(grid(g.board()), vec![vec![None; 10]; 22]);
        assert_eq!(g.piece().shape(), &standard_shape(g.piece().kind()));
        let x = ((10 - g.piece().size()) / 2) as i32;
        assert_eq!(g.position(), Point { x, y: 0 });
        assert_ne!(g.next_piece().kind(), g.piece().kind());
    }
}

#[test]
fn pieces_enter_centered() {
    assert_eq!(game_with(Piece::new_o()).position(), Point { x: 4, y: 0 });
    assert_eq!(game_with(Piece::new_t()).position(), Point { x: 3, y: 0 });
    assert_eq!(game_with(Piece::new_i()).position(), Point { x: 3, y: 0 });
    let narrow = Game::from_parts(Board::new(5, 6), PieceBag::new(), Piece::new_o());
    assert_eq!(narrow.position(), Point { x: 1, y: 0 });
}

#[test]
fn move_piece_moves_unless_it_collides() {
    let mut g = game_with(Piece::new_o());
    assert!(g.move_piece(-1, 0));
    assert_eq!(g.position(), Point { x: 3, y: 0 });
    assert!(g.move_piece(2, 1));
    assert_eq!(g.position(), Point { x: 5, y: 1 });
    assert!(g.move_piece(-5, 0));
    assert_eq!(g.position(), Point { x: 0, y: 1 });
    assert!(!g.move_piece(-1, 0));
    assert_eq!(g.position(), Point { x: 0, y: 1 });
    assert!(!g.move_piece(9, 0));
    assert!(!g.move_piece(0, -2));
    assert!(!g.move_piece(0, 18));
    assert!(!g.move_piece(i32::MAX, 0));
    assert!(!g.move_piece(0, i32::MIN));
    assert_eq!(g.position(), Point { x: 0, y: 1 });
    assert!(g.move_piece(8, 17));
    assert_eq!(g.position(), Point { x: 8, y: 18 });
}

#[test]
fn rotate_piece_turns_unless_it_collides() {
    let mut g = game_with(Piece::new_i());
    assert!(g.rotate_piece(Direction::Right));
    assert_eq!(g.piece().shape(), upright_i().shape());
    assert_eq!(g.position(), Point { x: 3, y: 0 });
    // the upright piece fills column 2 of its matrix: against the left wall
    // its matrix hangs over by two columns, and it cannot lie down there
    assert!(g.move_piece(-5, 0));
    assert_eq!(g.position(), Point { x: -2, y: 0 });
    assert!(!g.rotate_piece(Direction::Left));
    assert!(!g.rotate_piece(Direction::Right));
    assert_eq!(g.piece().shape(), upright_i().shape());
    assert_eq!(g.position(), Point { x: -2, y: 0 });
    assert!(g.move_piece(2, 0));
    assert!(g.rotate_piece(Direction::Left));
    assert_eq!(g.piece().shape(), Piece::new_i().shape());
}

#[test]
fn place_new_piece_puts_the_piece_back_where_pieces_enter() {
    let mut g = game_with(Piece::new_t());
    assert!(g.move_piece(2, 7));
    assert_eq!(g.position(), Point { x: 5, y: 7 });
    assert!(g.place_new_piece());
    assert_eq!(g.position(), Point { x: 3, y: 0 });
}

#[test]
fn find_dropped_position_projects_without_moving() {
    let g = game_with(Piece::new_o());
    assert_eq!(g.find_dropped_position(), Point { x: 4, y: 18 });
    assert_eq!(g.position(), Point { x: 4, y: 0 });
    let g = game_with(Piece::new_i());
    assert_eq!(g.find_dropped_position(), Point { x: 3, y: 18 });
    let mut g = game_with(Piece::new_t());
    assert!(g.move_piece(-3, 4));
    assert_eq!(g.find_dropped_position(), Point { x: 0, y: 18 });
    let mut board = Board::new(10, 20);
    assert!(board.lock_piece(&Piece::new_o(), Point { x: 4, y: 18 }).is_ok());
    let g = Game::from_parts(board, PieceBag::new(), Piece::new_o());
    assert_eq!(g.find_dropped_position(), Point { x: 4, y: 16 });
}

#[test]
fn advance_game_moves_the_piece_down_one_row() {
    let mut g = game_with(Piece::new_s());
    let next = g.next_piece().kind();
    for y in 1..=18 {
        assert!(g.advance_game());
        assert_eq!(g.position(), Point { x: 3, y });
        assert_eq!(g.piece().kind(), PieceKind::S);
    }
    assert_eq!(grid(g.board()), vec![vec![None; 10]; 20]);
    // the piece rests on the floor: the next step locks it
    assert!(g.advance_game());
    assert_eq!(g.piece().kind(), next);
    assert_eq!(g.position().y, 0);
    let mut want = vec![vec![None; 10]; 20];
    want[18][4] = Some(Color::Green);
    want[18][5] = Some(Color::Green);
    want[19][3] = Some(Color::Green);
    want[19][4] = Some(Color::Green);
    assert_eq!(grid(g.board()), want);
    assert_eq!(g.score(), 0);
    assert_eq!(g.level(), 1);
}

#[test]
fn dropped_square_locks_in_the_bottom_two_rows() {
    let mut g = game_with(Piece::new_o());
    assert_eq!(g.position(), Point { x: 4, y: 0 });
    let next = g.next_piece();
    assert!(g.drop_piece());
    let mut want = vec![vec![None; 10]; 20];
    for row in 18..20 {
        for col in 4..6 {
            want[row][col] = Some(Color::Cyan);
        }
    }
    assert_eq!(grid(g.board()), want);
    assert_eq!(g.score(), 0);
    assert_eq!(g.level(), 1);
    assert!(!g.is_over());
    assert_eq!(g.piece().kind(), next.kind());
    assert_eq!(g.piece().shape(), next.shape());
    assert_eq!(g.position(), Point { x: ((10 - next.size()) / 2) as i32, y: 0 });
}

#[test]
fn filling_the_missing_cell_scores_one() {
    let mut board = Board::new(10, 20);
    assert!(board.lock_piece(&Piece::new_i(), Point { x: 0, y: 18 }).is_ok());
    assert!(board.lock_piece(&Piece::new_i(), Point { x: 4, y: 18 }).is_ok());
    assert!(board.lock_piece(&upright_i(), Point { x: 6, y: 16 }).is_ok());
    let mut g = Game::from_parts(board, PieceBag::new(), Piece::new_i());
    assert!(g.rotate_piece(Direction::Right));
    for _ in 0..4 {
        assert!(g.move_piece(1, 0));
    }
    assert!(!g.move_piece(1, 0));
    assert_eq!(g.find_dropped_position(), Point { x: 7, y: 16 });
    assert!(g.drop_piece());
    assert_eq!(g.score(), 1);
    assert_eq!(g.level(), 1);
    let mut want = vec![vec![None; 10]; 20];
    for row in 17..20 {
        want[row][8] = Some(Color::Cyan);
        want[row][9] = Some(Color::Cyan);
    }
    assert_eq!(grid(g.board()), want);
}

#[test]
fn level_rises_once_when_the_score_reaches_ten() {
    assert_eq!(LINES_PER_LEVEL, 10);
    let (mut score, mut level) = (0, 1);
    for step in 1..=25 {
        let (s, l) = tally(score, level, 1);
        assert_eq!(s, step);
        let want = if step < 10 {
            1
        } else if step < 20 {
            2
        } else {
            3
        };
        assert_eq!(l, want);
        score = s;
        level = l;
    }
}

#[test]
fn lock_without_rows_leaves_the_level() {
    // the level has risen with the tenth row: locks that clear nothing
    // leave it there, however many follow
    let (mut score, mut level) = tally(9, 1, 1);
    assert_eq!((score, level), (10, 2));
    for _ in 0..5 {
        let next = tally(score, level, 0);
        assert_eq!(next, (10, 2));
        score = next.0;
        level = next.1;
    }
    assert_eq!(tally(score, level, 1), (11, 2));
    // nor does the level rise at a score of 0
    assert_eq!(tally(0, 1, 0), (0, 1));
}

#[test]
fn level_rises_only_on_a_score_that_rests_on_a_multiple() {
    assert_eq!(tally(9, 1, 2), (11, 1));
    assert_eq!(tally(7, 1, 4), (11, 1));
    assert_eq!(tally(6, 1, 4), (10, 2));
    assert_eq!(tally(11, 1, 4), (15, 1));
    assert_eq!(tally(15, 1, 4), (19, 1));
    assert_eq!(tally(19, 1, 1), (20, 2));
}

#[test]
fn tally_adds_rows_and_checks_the_new_score() {
    assert_eq!(tally(0, 1, 0), (0, 1));
    assert_eq!(tally(0, 1, 4), (4, 1));
    assert_eq!(tally(9, 1, 1), (10, 2));
    assert_eq!(tally(8, 1, 2), (10, 2));
    assert_eq!(tally(9, 1, 2), (11, 1));
    assert_eq!(tally(10, 2, 1), (11, 2));
    assert_eq!(tally(16, 2, 4), (20, 3));
    assert_eq!(tally(10, 2, 0), (10, 2));
    assert_eq!(tally(20, 3, 0), (20, 3));
    assert_eq!(tally(u32::MAX - 4, 7, 4), (u32::MAX, 7));
}

#[test]
fn score_counts_rows_cleared_in_a_game() {
    // nine of ten cells in each of the two bottom rows, then a square piece
    let mut board = Board::new(10, 20);
    for y in [17, 18] {
        assert!(board.lock_piece(&Piece::new_i(), Point { x: 0, y }).is_ok());
        assert!(board.lock_piece(&Piece::new_i(), Point { x: 4, y }).is_ok());
    }
    let mut g = Game::from_parts(board, PieceBag::new(), Piece::new_o());
    assert!(g.move_piece(4, 0));
    assert!(g.drop_piece());
    assert_eq!(g.score(), 2);
    assert_eq!(grid(g.board()), vec![vec![None; 10]; 20]);
}

#[test]
fn game_ends_when_no_piece_can_enter() {
    let mut g = Game::new();
    let mut drops = 0;
    while g.drop_piece() {
        drops += 1;
        assert!(drops < 200);
        assert!(!g.is_over());
    }
    assert!(drops >= 5);
    assert!(g.is_over());
    assert_eq!(g.score(), 0);
    assert!(!g.place_new_piece());
    // a game that is over stays as it is
    let (position, board) = (g.position(), grid(g.board()));
    let kind = g.piece().kind();
    assert!(!g.advance_game());
    assert!(!g.drop_piece());
    assert!(!g.move_piece(0, 1));
    assert!(!g.move_piece(1, 0));
    assert!(!g.rotate_piece(Direction::Left));
    g.keypress(Key::Space);
    assert_eq!(g.position(), position);
    assert_eq!(grid(g.board()), board);
    assert_eq!(g.piece().kind(), kind);
    assert!(g.is_over());
}

#[test]
fn game_on_a_blocked_board_is_over_at_once() {
    let mut board = Board::new(10, 20);
    assert!(board.lock_piece(&Piece::new_o(), Point { x: 4, y: 0 }).is_ok());
    let mut g = Game::from_parts(board, PieceBag::new(), Piece::new_t());
    assert!(g.is_over());
    assert_eq!(g.position(), Point { x: 0, y: 0 });
    assert!(!g.place_new_piece());
    assert!(!g.advance_game());
}

#[test]
fn keys_act_on_the_piece() {
    let mut g = game_with(Piece::new_l());
    g.keypress(Key::Left);
    assert_eq!(g.position(), Point { x: 2, y: 0 });
    g.keypress(Key::Right);
    g.keypress(Key::Right);
    assert_eq!(g.position(), Point { x: 4, y: 0 });
    g.keypress(Key::Down);
    assert_eq!(g.position(), Point { x: 4, y: 1 });
    let mut left = Piece::new_l();
    left.rotate(Direction::Left);
    g.keypress(Key::Up);
    assert_eq!(g.piece().shape(), left.shape());
    g.keypress(Key::Char('e'));
    assert_eq!(g.piece().shape(), Piece::new_l().shape());
    g.keypress(Key::Char('q'));
    assert_eq!(g.piece().shape(), left.shape());
    g.keypress(Key::Char('x'));
    g.keypress(Key::CtrlC);
    assert_eq!(g.piece().shape(), left.shape());
    assert_eq!(g.position(), Point { x: 4, y: 1 });
    let next = g.next_piece().kind();
    g.keypress(Key::Space);
    assert_eq!(g.piece().kind(), next);
    assert_eq!(g.position().y, 0);
    assert_eq!(g.board().cell(19, 5), Some(Color::Orange));
}

#[test]
fn set_duration_changes_the_duration_only() {
    let mut g = game_with(Piece::new_z());
    g.set_duration(700);
    assert_eq!(g.duration(), 700);
    assert_eq!(g.position(), Point { x: 3, y: 0 });
    assert_eq!(g.score(), 0);
    assert!(g.has_headroom());
}
