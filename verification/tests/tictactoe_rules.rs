use game_lobby::tictactoe::{has_winning_line, marks_on_board};

#[test]
fn row_of_three_wins() {
    assert!(has_winning_line(&vec![(1, 0), (1, 1), (1, 2)]));
}

#[test]
fn column_of_three_wins() {
    assert!(has_winning_line(&vec![(0, 2), (2, 2), (1, 2)]));
}

#[test]
fn diagonals_win() {
    assert!(has_winning_line(&vec![(0, 0), (1, 1), (2, 2)]));
    assert!(has_winning_line(&vec![(0, 2), (1, 1), (2, 0)]));
}

#[test]
fn scattered_marks_do_not_win() {
    assert!(!has_winning_line(&vec![(0, 0), (0, 1), (1, 2), (2, 0), (2, 1)]));
    assert!(!has_winning_line(&vec![]));
}

#[test]
fn a_square_marked_twice_counts_twice() {
    // Four marks on row 0 count four, not three.
    assert!(!has_winning_line(&vec![(0, 0), (0, 0), (0, 1), (0, 2)]));
    // Three marks of the same square count three on its row.
    assert!(has_winning_line(&vec![(2, 1), (2, 1), (2, 1)]));
}

#[test]
fn board_bounds() {
    assert!(marks_on_board(&vec![(0, 0), (2, 2)]));
    assert!(!marks_on_board(&vec![(0, 3)]));
    assert!(!marks_on_board(&vec![(-1, 0)]));
    assert!(marks_on_board(&vec![]));
}
