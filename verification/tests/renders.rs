use blockfall::bag::PieceBag;
use blockfall::board::{Board, Point};
use blockfall::game::Game;
use blockfall::piece::{Color, Direction, Piece};
use blockfall::render::{Paint, Text};

fn frame(text: Text, x: u32, y: u32) -> Paint {
    Paint { text, x, y, foreground: Color::Red, background: Color::Black }
}

fn block(x: u32, y: u32, color: Color) -> Paint {
    Paint { text: Text::Block, x, y, foreground: color, background: color }
}

fn blocks(cells: &[(u32, u32)], color: Color) -> Vec<Paint> {
    let mut out = Vec::new();
    for (x, y) in cells {
        out.push(block(*x, *y, color));
        out.push(block(*x + 1, *y, color));
    }
    out
}

#[test]
fn empty_board_shows_walls_and_floor() {
    let b = Board::new(2, 4);
    let mut display = Vec::new();
    b.render(&mut display);
    assert_eq!(
        display,
        vec![
            frame(Text::Wall, 0, 2),
            frame(Text::Wall, 5, 2),
            frame(Text::Wall, 0, 3),
            frame(Text::Wall, 5, 3),
            frame(Text::Floor, 0, 4),
            frame(Text::Floor, 1, 4),
            frame(Text::Floor, 2, 4),
            frame(Text::Floor, 3, 4),
            frame(Text::Floor, 4, 4),
        ]
    );
}

#[test]
fn board_lower_than_the_hidden_rows_has_no_walls() {
    let b = Board::new(1, 1);
    let mut display = Vec::new();
    b.render(&mut display);
    assert_eq!(
        display,
        vec![frame(Text::Floor, 0, 1), frame(Text::Floor, 1, 1), frame(Text::Floor, 2, 1)]
    );
}

#[test]
fn board_shows_locked_cells_as_two_blanks() {
    let mut b = Board::new(4, 3);
    assert!(b.lock_piece(&Piece::new_z(), Point { x: 1, y: 0 }).is_ok());
    let mut display = vec![frame(Text::NextPiece, 9, 9)];
    b.render(&mut display);
    let mut want = vec![
        frame(Text::NextPiece, 9, 9),
        frame(Text::Wall, 0, 2),
        frame(Text::Wall, 9, 2),
    ];
    for x in 0..9 {
        want.push(frame(Text::Floor, x, 3));
    }
    want.extend(blocks(&[(3, 0), (5, 0), (5, 1), (7, 1)], Color::Red));
    assert_eq!(display, want);
}

#[test]
fn piece_shows_two_blanks_for_each_cell() {
    let g = Game::new();
    let mut display = Vec::new();
    g.render_piece(&mut display, &Piece::new_t(), Point { x: 10, y: 4 });
    assert_eq!(display, blocks(&[(12, 4), (10, 5), (12, 5), (14, 5)], Color::Purple));
    let mut upright = Piece::new_i();
    upright.rotate(Direction::Right);
    let mut display = Vec::new();
    g.render_piece(&mut display, &upright, Point { x: -3, y: 0 });
    assert_eq!(display, blocks(&[(1, 0), (1, 1), (1, 2), (1, 3)], Color::Cyan));
}

#[test]
fn game_shows_board_lines_pieces_and_next_piece() {
    let mut g = Game::from_parts(Board::new(10, 20), PieceBag::new(), Piece::new_o());
    g.set_duration(700);
    assert!(g.move_piece(-4, 3));
    let mut display = Vec::new();
    g.render(&mut display);
    let mut want = Vec::new();
    for y in 2..20 {
        want.push(frame(Text::Wall, 0, y));
        want.push(frame(Text::Wall, 21, y));
    }
    for x in 0..21 {
        want.push(frame(Text::Floor, x, 20));
    }
    want.push(frame(Text::Level(1), 25, 3));
    want.push(frame(Text::Score(0), 25, 4));
    want.push(frame(Text::Speed(700), 25, 5));
    want.extend(blocks(&[(1, 3), (3, 3), (1, 4), (3, 4)], Color::Cyan));
    want.extend(blocks(&[(1, 18), (3, 18), (1, 19), (3, 19)], Color::Cyan));
    want.push(frame(Text::NextPiece, 25, 7));
    let next = g.next_piece();
    for (row, col) in next.each_point() {
        let (x, y) = (27 + 2 * col as u32, 9 + row as u32);
        want.push(block(x, y, next.color()));
        want.push(block(x + 1, y, next.color()));
    }
    assert_eq!(display, want);
}

#[test]
fn game_that_is_over_shows_no_falling_piece() {
    let mut board = Board::new(10, 20);
    assert!(board.lock_piece(&Piece::new_o(), Point { x: 4, y: 0 }).is_ok());
    let g = Game::from_parts(board, PieceBag::new(), Piece::new_t());
    assert!(g.is_over());
    let mut display = Vec::new();
    g.render(&mut display);
    let mut want = Vec::new();
    for y in 2..20 {
        want.push(frame(Text::Wall, 0, y));
        want.push(frame(Text::Wall, 21, y));
    }
    for x in 0..21 {
        want.push(frame(Text::Floor, x, 20));
    }
    want.extend(blocks(&[(9, 0), (11, 0), (9, 1), (11, 1)], Color::Cyan));
    want.push(frame(Text::Level(1), 25, 3));
    want.push(frame(Text::Score(0), 25, 4));
    want.push(frame(Text::Speed(0), 25, 5));
    want.push(frame(Text::NextPiece, 25, 7));
    let next = g.next_piece();
    for (row, col) in next.each_point() {
        let (x, y) = (27 + 2 * col as u32, 9 + row as u32);
        want.push(block(x, y, next.color()));
        want.push(block(x + 1, y, next.color()));
    }
    assert_eq!(display, want);
}
