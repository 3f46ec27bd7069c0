use tictactoe::{parse_move, TicTacToeError};

#[test]
fn two_numbers_read_as_row_and_column() {
    assert_eq!(parse_move(b"1 2"), Ok((1, 2)));
    assert_eq!(parse_move(b"0 0"), Ok((0, 0)));
    assert_eq!(parse_move(b"2 1\n"), Ok((2, 1)));
    assert_eq!(parse_move("0 2".as_bytes()), Ok((0, 2)));
}

#[test]
fn the_first_number_is_the_row() {
    let (row, col) = parse_move(b"7 11").unwrap();
    assert_eq!(row, 7);
    assert_eq!(col, 11);
}

#[test]
fn blanks_around_and_between_are_skipped() {
    assert_eq!(parse_move(b"  1 2"), Ok((1, 2)));
    assert_eq!(parse_move(b"1 2  "), Ok((1, 2)));
    assert_eq!(parse_move(b"1    2"), Ok((1, 2)));
    assert_eq!(parse_move(b"\t1\t2\r\n"), Ok((1, 2)));
    assert_eq!(parse_move(b"\x0b1\x0c2\x0b"), Ok((1, 2)));
}

#[test]
fn numbers_may_have_many_digits_and_a_plus_sign() {
    assert_eq!(parse_move(b"10 205"), Ok((10, 205)));
    assert_eq!(parse_move(b"007 0"), Ok((7, 0)));
    assert_eq!(parse_move(b"+1 +2"), Ok((1, 2)));
    assert_eq!(parse_move(b"1234567890 987654321"), Ok((1234567890, 987654321)));
}

#[test]
fn the_largest_number_is_read() {
    let line = format!("{} {}", usize::MAX, usize::MAX - 1);
    assert_eq!(parse_move(line.as_bytes()), Ok((usize::MAX, usize::MAX - 1)));
}

#[test]
fn a_number_too_large_is_invalid() {
    let line = format!("{}0 1", usize::MAX);
    assert_eq!(parse_move(line.as_bytes()), Err(TicTacToeError::InvalidMoveInput));
    let line = format!("1 {}", u128::MAX);
    assert_eq!(parse_move(line.as_bytes()), Err(TicTacToeError::InvalidMoveInput));
    assert_eq!(
        parse_move(b"18446744073709551616 0"),
        if usize::MAX as u128 >= 18446744073709551616u128 {
            Ok((18446744073709551616u128 as usize, 0))
        } else {
            Err(TicTacToeError::InvalidMoveInput)
        }
    );
}

#[test]
fn letters_are_invalid() {
    assert_eq!(parse_move(b"abc"), Err(TicTacToeError::InvalidMoveInput));
    assert_eq!(parse_move(b"a b"), Err(TicTacToeError::InvalidMoveInput));
    assert_eq!(parse_move(b"1 b"), Err(TicTacToeError::InvalidMoveInput));
    assert_eq!(parse_move(b"a 1"), Err(TicTacToeError::InvalidMoveInput));
    assert_eq!(parse_move(b"1x 2"), Err(TicTacToeError::InvalidMoveInput));
}

#[test]
fn a_missing_second_number_is_invalid() {
    assert_eq!(parse_move(b"1"), Err(TicTacToeError::InvalidMoveInput));
    assert_eq!(parse_move(b"1 "), Err(TicTacToeError::InvalidMoveInput));
    assert_eq!(parse_move(b" 1\n"), Err(TicTacToeError::InvalidMoveInput));
}

#[test]
fn an_empty_line_is_invalid() {
    assert_eq!(parse_move(b""), Err(TicTacToeError::InvalidMoveInput));
    assert_eq!(parse_move(b"\n"), Err(TicTacToeError::InvalidMoveInput));
    assert_eq!(parse_move(b"   \t "), Err(TicTacToeError::InvalidMoveInput));
}

#[test]
fn a_third_token_is_invalid() {
    assert_eq!(parse_move(b"1 2 3"), Err(TicTacToeError::InvalidMoveInput));
    assert_eq!(parse_move(b"1 2 x"), Err(TicTacToeError::InvalidMoveInput));
}

#[test]
fn signs_and_separators_other_than_blanks_are_invalid() {
    assert_eq!(parse_move(b"-1 2"), Err(TicTacToeError::InvalidMoveInput));
    assert_eq!(parse_move(b"1 -2"), Err(TicTacToeError::InvalidMoveInput));
    assert_eq!(parse_move(b"1,2"), Err(TicTacToeError::InvalidMoveInput));
    assert_eq!(parse_move(b"1.0 2"), Err(TicTacToeError::InvalidMoveInput));
    assert_eq!(parse_move(b"+ 2"), Err(TicTacToeError::InvalidMoveInput));
    assert_eq!(parse_move(b"++1 2"), Err(TicTacToeError::InvalidMoveInput));
    assert_eq!(parse_move(b"1+ 2"), Err(TicTacToeError::InvalidMoveInput));
    assert_eq!(parse_move(b"0x1 2"), Err(TicTacToeError::InvalidMoveInput));
}

#[test]
fn bytes_outside_ascii_are_invalid() {
    assert_eq!(parse_move("1\u{a0}2".as_bytes()), Err(TicTacToeError::InvalidMoveInput));
    assert_eq!(parse_move("１ ２".as_bytes()), Err(TicTacToeError::InvalidMoveInput));
    assert_eq!(parse_move(&[0x31, 0x20, 0xff]), Err(TicTacToeError::InvalidMoveInput));
}

#[test]
fn a_move_is_read_whether_or_not_it_is_on_the_board() {
    assert_eq!(parse_move(b"3 3"), Ok((3, 3)));
    assert_eq!(parse_move(b"100 0"), Ok((100, 0)));
}
