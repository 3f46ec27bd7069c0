use tictactoe::{Board, Piece, TicTacToeError, BOARD_CELLS, BOARD_WIDTH};

#[test]
fn board_has_three_rows_and_nine_cells() {
    assert_eq!(BOARD_WIDTH, 3);
    assert_eq!(BOARD_CELLS, 9);
}

#[test]
fn new_board_is_empty() {
    let board = Board::new();
    assert_eq!(board.cells(), vec![None; 9]);
    for row in 0..BOARD_WIDTH {
        for col in 0..BOARD_WIDTH {
            assert_eq!(board.get_position(row, col), Ok(None));
        }
    }
    assert!(!board.is_full());
}

#[test]
fn placing_on_the_empty_board_succeeds_on_every_cell() {
    for piece in [Piece::Naught, Piece::Cross] {
        for row in 0..BOARD_WIDTH {
            for col in 0..BOARD_WIDTH {
                let empty = Board::new();
                let placed = empty.set_piece(row, col, piece).unwrap();
                assert_eq!(placed.get_position(row, col), Ok(Some(piece)));
                for r in 0..BOARD_WIDTH {
                    for c in 0..BOARD_WIDTH {
                        if (r, c) != (row, col) {
                            assert_eq!(placed.get_position(r, c), Ok(None));
                        }
                    }
                }
                assert_eq!(empty.cells(), vec![None; 9]);
                assert_eq!(empty, Board::new());
            }
        }
    }
}

#[test]
fn a_cell_is_stored_row_by_row() {
    let board = Board::new().set_piece(1, 2, Piece::Cross).unwrap();
    let mut expected = vec![None; 9];
    expected[5] = Some(Piece::Cross);
    assert_eq!(board.cells(), expected);
    let board = board.set_piece(2, 0, Piece::Naught).unwrap();
    expected[6] = Some(Piece::Naught);
    assert_eq!(board.cells(), expected);
}

#[test]
fn reading_outside_the_board_fails() {
    let board = Board::new();
    for (row, col) in [(3, 0), (0, 3), (3, 3), (usize::MAX, 0), (0, usize::MAX), (7, 1)] {
        assert_eq!(board.get_position(row, col), Err(TicTacToeError::OutOfBounds));
    }
}

#[test]
fn placing_outside_the_board_fails() {
    let board = Board::new().set_piece(0, 0, Piece::Naught).unwrap();
    for (row, col) in [(3, 0), (0, 3), (3, 3), (usize::MAX, 0), (0, usize::MAX), (7, 1)] {
        for piece in [Piece::Naught, Piece::Cross] {
            match board.set_piece(row, col, piece) {
                Err(e) => assert_eq!(e, TicTacToeError::OutOfBounds),
                Ok(_) => panic!("placed outside the board"),
            }
        }
    }
}

#[test]
fn placing_on_a_taken_cell_fails_and_keeps_the_board() {
    let board = Board::new().set_piece(2, 1, Piece::Naught).unwrap();
    let before = board.cells();
    for piece in [Piece::Naught, Piece::Cross] {
        match board.set_piece(2, 1, piece) {
            Err(e) => assert_eq!(e, TicTacToeError::PieceInPosition(2, 1)),
            Ok(_) => panic!("placed on a taken cell"),
        }
    }
    assert_eq!(board.cells(), before);
    assert_eq!(board.get_position(2, 1), Ok(Some(Piece::Naught)));
}

#[test]
fn out_of_bounds_comes_before_taken() {
    let board = Board::new().set_piece(0, 0, Piece::Cross).unwrap();
    match board.set_piece(0, 3, Piece::Cross) {
        Err(e) => assert_eq!(e, TicTacToeError::OutOfBounds),
        Ok(_) => panic!("placed outside the board"),
    }
}

#[test]
fn a_board_is_full_when_no_cell_is_empty() {
    let mut board = Board::new();
    let mut piece = Piece::Naught;
    for row in 0..BOARD_WIDTH {
        for col in 0..BOARD_WIDTH {
            assert!(!board.is_full());
            board = board.set_piece(row, col, piece).unwrap();
            piece = piece.opponent();
        }
    }
    assert!(board.is_full());
}

#[test]
fn the_empty_board_renders_as_dots() {
    assert_eq!(Board::new().render(), ". . .\n. . .\n. . .\n");
}

#[test]
fn pieces_render_in_their_cells() {
    let board = Board::new()
        .set_piece(0, 0, Piece::Cross)
        .unwrap()
        .set_piece(0, 2, Piece::Naught)
        .unwrap()
        .set_piece(1, 1, Piece::Cross)
        .unwrap()
        .set_piece(2, 0, Piece::Naught)
        .unwrap();
    assert_eq!(board.render(), "X . O\n. X .\nO . .\n");
}

#[test]
fn a_rendered_board_has_one_line_for_each_row() {
    let text = Board::new().set_piece(1, 0, Piece::Naught).unwrap().render();
    let lines: Vec<&str> = text.lines().collect();
    assert_eq!(lines, vec![". . .", "O . .", ". . ."]);
    assert!(text.ends_with('\n'));
    assert_eq!(text.len(), 2 * BOARD_CELLS);
}

#[test]
fn a_clone_holds_the_same_cells() {
    let board = Board::new().set_piece(1, 1, Piece::Cross).unwrap();
    let copy = board.clone();
    assert_eq!(copy, board);
    assert_eq!(copy.cells(), board.cells());
    let changed = copy.set_piece(0, 0, Piece::Naught).unwrap();
    assert_ne!(changed, board);
    assert_eq!(board.get_position(0, 0), Ok(None));
}

#[test]
fn boards_with_different_pieces_differ() {
    let a = Board::new().set_piece(1, 1, Piece::Cross).unwrap();
    let b = Board::new().set_piece(1, 1, Piece::Naught).unwrap();
    let c = Board::new().set_piece(1, 2, Piece::Cross).unwrap();
    assert_ne!(a, b);
    assert_ne!(a, c);
    assert_ne!(a, Board::new());
    assert_eq!(a, Board::new().set_piece(1, 1, Piece::Cross).unwrap());
}

#[test]
fn glyphs_are_distinct() {
    assert_eq!(Piece::Naught.glyph(), 'O');
    assert_eq!(Piece::Cross.glyph(), 'X');
}

#[test]
fn the_opponent_of_a_piece_is_the_other_piece() {
    assert_eq!(Piece::Naught.opponent(), Piece::Cross);
    assert_eq!(Piece::Cross.opponent(), Piece::Naught);
    assert_eq!(Piece::Cross.opponent().opponent(), Piece::Cross);
}
