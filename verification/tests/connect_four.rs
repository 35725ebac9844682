use workbench::connect_four::{Board, Cell, Color, PlayResult};

#[test]
fn color_not_swaps_and_undoes() {
    assert_eq!(Color::Red.not(), Color::Blue);
    assert_eq!(Color::Blue.not(), Color::Red);
    assert_eq!(Color::Red.not().not(), Color::Red);
}

#[test]
fn color_and_cell_text() {
    assert_eq!(Color::Red.to_string(), "R");
    assert_eq!(Color::Blue.to_string(), "B");
    assert_eq!(Cell::default().to_string(), ".");
    assert_eq!(Cell { piece: Some(Color::Blue) }.to_string(), "B");
}

#[test]
fn new_board_is_empty_with_given_size() {
    let board = Board::new(7, 6);
    assert_eq!(board.grid.len(), 7);
    for col in &board.grid {
        assert_eq!(col.len(), 6);
        assert!(col.iter().all(|c| c.piece.is_none()));
    }
}

#[test]
fn play_stacks_pieces_from_the_bottom() {
    let mut board = Board::new(3, 2);
    assert_eq!(board.play(1, Color::Red), PlayResult::Played { row: 0, winner: None });
    assert_eq!(board.play(1, Color::Blue), PlayResult::Played { row: 1, winner: None });
    assert_eq!(board.grid[1][0].piece, Some(Color::Red));
    assert_eq!(board.grid[1][1].piece, Some(Color::Blue));
}

#[test]
fn play_reports_full_column_and_out_of_bounds() {
    let mut board = Board::new(2, 1);
    assert_eq!(board.play(0, Color::Red), PlayResult::Played { row: 0, winner: None });
    assert_eq!(board.play(0, Color::Blue), PlayResult::ColumnFull);
    assert_eq!(board.play(2, Color::Blue), PlayResult::OutOfBounds);
    assert_eq!(board.grid[0][0].piece, Some(Color::Red));
}

#[test]
fn four_in_a_column_wins() {
    let mut board = Board::new(7, 6);
    for row in 0..3 {
        assert_eq!(board.play(3, Color::Blue), PlayResult::Played { row, winner: None });
    }
    assert_eq!(board.play(3, Color::Blue), PlayResult::Played { row: 3, winner: Some(Color::Blue) });
    assert_eq!(board.check_four_in_a_row((3, 0)), Some(Color::Blue));
}

#[test]
fn four_in_a_row_horizontally_and_diagonally() {
    let mut board = Board::new(7, 6);
    for col in 0..3 {
        board.play(col, Color::Red);
    }
    assert_eq!(board.check_four_in_a_row((0, 0)), None);
    assert_eq!(board.play(3, Color::Red), PlayResult::Played { row: 0, winner: Some(Color::Red) });

    let mut diag = Board::new(4, 4);
    for col in 0..4 {
        for _ in 0..col {
            diag.play(col, Color::Blue);
        }
    }
    for col in 0..3 {
        diag.play(col, Color::Red);
    }
    assert_eq!(diag.play(3, Color::Red), PlayResult::Played { row: 3, winner: Some(Color::Red) });
}

#[test]
fn check_direction_stops_at_the_edge_and_other_colors() {
    let mut board = Board::new(4, 4);
    for col in 0..4 {
        board.play(col, Color::Red);
    }
    assert!(board.check_direction((0, 0), (1, 0), &Color::Red));
    assert!(!board.check_direction((1, 0), (1, 0), &Color::Red));
    assert!(!board.check_direction((0, 0), (1, 0), &Color::Blue));
    assert!(!board.check_direction((0, 0), (-1, 0), &Color::Red));
    assert!(!board.check_direction((0, 0), (0, 1), &Color::Red));
}

#[test]
fn display_draws_top_row_first() {
    let mut board = Board::new(3, 2);
    board.play(0, Color::Red);
    board.play(2, Color::Blue);
    board.play(2, Color::Red);
    assert_eq!(board.display(), ". . R \nR . B \n");
}

#[test]
fn only_the_mover_can_win() {
    let mut board = Board::new(5, 5);
    for col in 0..3 {
        board.play(col, Color::Red);
        board.play(col, Color::Blue);
    }
    match board.play(3, Color::Blue) {
        PlayResult::Played { winner, .. } => assert_eq!(winner, None),
        other => panic!("unexpected {other:?}"),
    }
    match board.play(3, Color::Red) {
        PlayResult::Played { winner, .. } => assert!(winner.is_none() || winner == Some(Color::Red)),
        other => panic!("unexpected {other:?}"),
    }
}
