use tictactoe::lines::{generate_lines, LINE_COUNT};
use tictactoe::{Game, BOARD_WIDTH};

#[test]
fn there_are_eight_lines_of_three_cells() {
    let lines = generate_lines();
    assert_eq!(LINE_COUNT, 8);
    assert_eq!(lines.len(), 2 * BOARD_WIDTH + 2);
    for line in &lines {
        assert_eq!(line.len(), BOARD_WIDTH);
    }
}

#[test]
fn every_cell_of_a_line_is_on_the_board() {
    for line in generate_lines() {
        for (row, col) in line {
            assert!(row < BOARD_WIDTH);
            assert!(col < BOARD_WIDTH);
        }
    }
}

#[test]
fn no_two_lines_are_the_same() {
    let lines = generate_lines();
    for i in 0..lines.len() {
        for j in 0..lines.len() {
            if i != j {
                assert_ne!(lines[i], lines[j]);
                let mut a = lines[i].clone();
                let mut b = lines[j].clone();
                a.sort();
                b.sort();
                assert_ne!(a, b);
            }
        }
    }
}

#[test]
fn lines_come_in_a_fixed_order() {
    let expected: Vec<Vec<(usize, usize)>> = vec![
        vec![(0, 0), (0, 1), (0, 2)],
        vec![(0, 0), (1, 0), (2, 0)],
        vec![(1, 0), (1, 1), (1, 2)],
        vec![(0, 1), (1, 1), (2, 1)],
        vec![(2, 0), (2, 1), (2, 2)],
        vec![(0, 2), (1, 2), (2, 2)],
        vec![(0, 0), (1, 1), (2, 2)],
        vec![(0, 2), (1, 1), (2, 0)],
    ];
    assert_eq!(generate_lines(), expected);
    assert_eq!(generate_lines(), generate_lines());
}

#[test]
fn a_game_holds_the_generated_lines() {
    let game = Game::new();
    assert_eq!(game.winning_positions(), &generate_lines());
}
