use blockfall::piece::{Color, Direction, Piece, PieceKind};

fn rows(p: &Piece) -> Vec<Vec<u8>> {
    p.shape().clone()
}

fn seven() -> Vec<Piece> {
    vec![
        Piece::new_o(),
        Piece::new_l(),
        Piece::new_j(),
        Piece::new_t(),
        Piece::new_s(),
        Piece::new_z(),
        Piece::new_i(),
    ]
}

/// A quarter turn by transposing and then reversing: rows for a right turn,
/// columns for a left turn.
fn turned_by_transpose(g: &Vec<Vec<u8>>, d: Direction) -> Vec<Vec<u8>> {
    let n = g.len();
    let mut t = vec![vec![0u8; n]; n];
    for r in 0..n {
        for c in 0..n {
            t[c][r] = g[r][c];
        }
    }
    match d {
        Direction::Right => {
            for row in t.iter_mut() {
                row.reverse();
            }
        }
        Direction::Left => t.reverse(),
    }
    t
}

#[test]
fn factories_make_the_standard_shapes() {
    assert_eq!(rows(&Piece::new_o()), vec![vec![1, 1], vec![1, 1]]);
    assert_eq!(rows(&Piece::new_l()), vec![vec![0, 0, 1], vec![1, 1, 1], vec![0, 0, 0]]);
    assert_eq!(rows(&Piece::new_j()), vec![vec![1, 0, 0], vec![1, 1, 1], vec![0, 0, 0]]);
    assert_eq!(rows(&Piece::new_t()), vec![vec![0, 1, 0], vec![1, 1, 1], vec![0, 0, 0]]);
    assert_eq!(rows(&Piece::new_s()), vec![vec![0, 1, 1], vec![1, 1, 0], vec![0, 0, 0]]);
    assert_eq!(rows(&Piece::new_z()), vec![vec![1, 1, 0], vec![0, 1, 1], vec![0, 0, 0]]);
    assert_eq!(
        rows(&Piece::new_i()),
        vec![vec![0, 0, 0, 0], vec![1, 1, 1, 1], vec![0, 0, 0, 0], vec![0, 0, 0, 0]]
    );
}

#[test]
fn factories_set_kind_and_color() {
    let expected = [
        (PieceKind::O, Color::Cyan, 2),
        (PieceKind::L, Color::Orange, 3),
        (PieceKind::J, Color::Blue, 3),
        (PieceKind::T, Color::Purple, 3),
        (PieceKind::S, Color::Green, 3),
        (PieceKind::Z, Color::Red, 3),
        (PieceKind::I, Color::Cyan, 4),
    ];
    for (piece, (kind, color, size)) in seven().iter().zip(expected.iter()) {
        assert_eq!(piece.kind(), *kind);
        assert_eq!(piece.color(), *color);
        assert_eq!(piece.size(), *size);
    }
}

#[test]
fn every_piece_has_four_cells() {
    for piece in seven() {
        assert_eq!(piece.each_point().len(), 4);
    }
}

#[test]
fn right_turn_is_clockwise() {
    let mut p = Piece::new_l();
    p.rotate(Direction::Right);
    assert_eq!(rows(&p), vec![vec![0, 1, 0], vec![0, 1, 0], vec![0, 1, 1]]);
}

#[test]
fn left_turn_is_counter_clockwise() {
    let mut p = Piece::new_l();
    p.rotate(Direction::Left);
    assert_eq!(rows(&p), vec![vec![1, 1, 0], vec![0, 1, 0], vec![0, 1, 0]]);
}

#[test]
fn turned_straight_piece_stands_upright() {
    let mut p = Piece::new_i();
    p.rotate(Direction::Right);
    assert_eq!(
        rows(&p),
        vec![vec![0, 0, 1, 0], vec![0, 0, 1, 0], vec![0, 0, 1, 0], vec![0, 0, 1, 0]]
    );
    let mut q = Piece::new_i();
    q.rotate(Direction::Left);
    assert_eq!(
        rows(&q),
        vec![vec![0, 1, 0, 0], vec![0, 1, 0, 0], vec![0, 1, 0, 0], vec![0, 1, 0, 0]]
    );
}

#[test]
fn four_turns_give_back_every_piece() {
    for d in [Direction::Left, Direction::Right] {
        for mut piece in seven() {
            let start = rows(&piece);
            for turn in 1..=4 {
                piece.rotate(d);
                if turn < 4 && piece.kind() != PieceKind::O {
                    assert_ne!(rows(&piece), start);
                }
            }
            assert_eq!(rows(&piece), start);
        }
    }
}

#[test]
fn turn_agrees_with_transpose_and_reverse() {
    for d in [Direction::Left, Direction::Right] {
        for mut piece in seven() {
            for _ in 0..4 {
                let want = turned_by_transpose(&rows(&piece), d);
                piece.rotate(d);
                assert_eq!(rows(&piece), want);
            }
        }
    }
}

#[test]
fn left_turn_undoes_right_turn() {
    for mut piece in seven() {
        let start = rows(&piece);
        piece.rotate(Direction::Right);
        piece.rotate(Direction::Left);
        assert_eq!(rows(&piece), start);
    }
}

#[test]
fn square_piece_looks_the_same_after_a_turn() {
    let mut p = Piece::new_o();
    p.rotate(Direction::Right);
    assert_eq!(rows(&p), vec![vec![1, 1], vec![1, 1]]);
    p.rotate(Direction::Left);
    assert_eq!(rows(&p), vec![vec![1, 1], vec![1, 1]]);
}

#[test]
fn turn_keeps_kind_color_and_cell_count() {
    for d in [Direction::Left, Direction::Right] {
        for mut piece in seven() {
            let (kind, color) = (piece.kind(), piece.color());
            piece.rotate(d);
            assert_eq!(piece.kind(), kind);
            assert_eq!(piece.color(), color);
            assert_eq!(piece.each_point().len(), 4);
        }
    }
}

#[test]
fn each_point_lists_cells_in_row_major_order() {
    assert_eq!(Piece::new_t().each_point(), vec![(0, 1), (1, 0), (1, 1), (1, 2)]);
    assert_eq!(Piece::new_i().each_point(), vec![(1, 0), (1, 1), (1, 2), (1, 3)]);
    assert_eq!(Piece::new_o().each_point(), vec![(0, 0), (0, 1), (1, 0), (1, 1)]);
    assert_eq!(Piece::new_s().each_point(), vec![(0, 1), (0, 2), (1, 0), (1, 1)]);
    assert_eq!(Piece::new_z().each_point(), vec![(0, 0), (0, 1), (1, 1), (1, 2)]);
    assert_eq!(Piece::new_l().each_point(), vec![(0, 2), (1, 0), (1, 1), (1, 2)]);
    assert_eq!(Piece::new_j().each_point(), vec![(0, 0), (1, 0), (1, 1), (1, 2)]);
}

#[test]
fn is_filled_reads_the_matrix_and_nothing_outside() {
    let p = Piece::new_t();
    assert!(p.is_filled(0, 1));
    assert!(!p.is_filled(0, 0));
    assert!(p.is_filled(1, 2));
    assert!(!p.is_filled(2, 1));
    assert!(!p.is_filled(3, 0));
    assert!(!p.is_filled(0, 3));
}

#[test]
fn clone_is_a_copy_of_its_own() {
    let mut p = Piece::new_s();
    p.rotate(Direction::Right);
    let q = p.clone();
    assert_eq!(rows(&q), rows(&p));
    assert_eq!(q.kind(), PieceKind::S);
    assert_eq!(q.color(), Color::Green);
    p.rotate(Direction::Right);
    assert_ne!(rows(&q), rows(&p));
}
