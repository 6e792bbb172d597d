use connect_four::board::{Board, DropError, Field};
use connect_four::game::Game;
use connect_four::rules::WinningCombinations;

#[test]
fn entries_count_columns_from_one() {
    let board = Board::new(7, 5);
    assert_eq!(Game::select_column(&board, 0), None);
    assert_eq!(Game::select_column(&board, 1), Some(0));
    assert_eq!(Game::select_column(&board, 4), Some(3));
    assert_eq!(Game::select_column(&board, 7), Some(6));
    assert_eq!(Game::select_column(&board, 8), None);
    assert_eq!(Game::select_column(&board, usize::MAX), None);
}

#[test]
fn game_without_rules_is_never_won() {
    let game = Game::new(1);
    let mut board = Board::new(2, 2);
    board.put_stone_in_col(Field::Player1, 0).unwrap();
    assert!(!game.is_player_winning(&board, Field::Player1));
}

#[test]
fn registered_rules_decide() {
    let mut board = Board::new(7, 5);
    for _ in 0..4 {
        board.put_stone_in_col(Field::Player2, 6).unwrap();
    }
    let mut game = Game::new(4);
    game.register_rule(WinningCombinations::HorizontalWin);
    assert!(!game.is_player_winning(&board, Field::Player2));
    game.register_rule(WinningCombinations::VerticalWin);
    assert!(game.is_player_winning(&board, Field::Player2));
    assert!(!game.is_player_winning(&board, Field::Player1));
}

#[test]
fn turn_drops_and_then_asks_for_a_win() {
    let mut game = Game::new(2);
    game.register_rule(WinningCombinations::VerticalWin);
    let mut board = Board::new(2, 2);
    assert_eq!(
        game.do_turn(&mut board, &Field::Player1, 0),
        (Ok(Field::Player1), false)
    );
    assert_eq!(
        game.do_turn(&mut board, &Field::Player1, 5),
        (Err(DropError::InvalidColumn), false)
    );
    assert_eq!(board.height_of(0), 1);
    assert_eq!(
        game.do_turn(&mut board, &Field::Player1, 0),
        (Ok(Field::Player1), true)
    );
    assert_eq!(board.height_of(0), 2);
    // A refused marker leaves the board as it was, and the win stands.
    assert_eq!(
        game.do_turn(&mut board, &Field::Player1, 0),
        (Err(DropError::ColumnFull), true)
    );
    assert_eq!(
        game.do_turn(&mut board, &Field::Player2, 0),
        (Err(DropError::ColumnFull), false)
    );
    assert_eq!(board.height_of(0), 2);
    assert_eq!(board.height_of(1), 0);
}

#[test]
fn first_player_wins_along_the_bottom() {
    let mut game = Game::new(4);
    let (board, winner) = game.run(&vec![1, 1, 2, 2, 3, 3, 4, 4, 5]);
    assert_eq!(winner, Some(Field::Player1));
    assert_eq!(board.column_count(), 7);
    assert_eq!(board.row_capacity(), 5);
    let heights: Vec<usize> = (0..7).map(|c| board.height_of(c)).collect();
    assert_eq!(heights, vec![2, 2, 2, 1, 0, 0, 0]);
    for col in 0..4 {
        assert_eq!(board.marker_at(col, 0), Some(Field::Player1));
    }
    for col in 0..3 {
        assert_eq!(board.marker_at(col, 1), Some(Field::Player2));
    }
}

#[test]
fn second_player_wins_in_a_column() {
    let mut game = Game::new(4);
    let (board, winner) = game.run(&vec![1, 7, 2, 7, 1, 7, 2, 7]);
    assert_eq!(winner, Some(Field::Player2));
    assert_eq!(board.height_of(6), 4);
    assert_eq!(board.height_of(0), 2);
    assert_eq!(board.height_of(1), 2);
}

#[test]
fn entries_run_out_before_a_win() {
    let mut game = Game::new(4);
    let (board, winner) = game.run(&vec![1, 2, 3]);
    assert_eq!(winner, None);
    assert_eq!(board.marker_at(0, 0), Some(Field::Player1));
    assert_eq!(board.marker_at(1, 0), Some(Field::Player2));
    assert_eq!(board.marker_at(2, 0), Some(Field::Player1));
    let (board, winner) = Game::new(4).run(&Vec::new());
    assert_eq!(winner, None);
    assert_eq!(board.height_of(0), 0);
}

#[test]
fn entry_that_names_no_column_keeps_the_turn() {
    let mut game = Game::new(4);
    let (board, winner) = game.run(&vec![0, 8, 1, 99, 2]);
    assert_eq!(winner, None);
    assert_eq!(board.marker_at(0, 0), Some(Field::Player1));
    assert_eq!(board.marker_at(1, 0), Some(Field::Player2));
}

#[test]
fn full_column_uses_up_the_turn() {
    let mut game = Game::new(4);
    // Column 1 fills up with markers in turn; the sixth entry is refused and
    // costs the second player the turn, so the seventh is the first player's.
    let (board, winner) = game.run(&vec![1, 1, 1, 1, 1, 1, 2]);
    assert_eq!(winner, None);
    assert_eq!(board.height_of(0), 5);
    assert_eq!(board.marker_at(0, 4), Some(Field::Player1));
    assert_eq!(board.marker_at(1, 0), Some(Field::Player1));
}

#[test]
fn run_of_one_is_won_with_the_first_marker() {
    let mut game = Game::new(1);
    let (board, winner) = game.run(&vec![5, 1]);
    assert_eq!(winner, Some(Field::Player1));
    assert_eq!(board.height_of(4), 1);
    assert_eq!(board.height_of(0), 0);
}

#[test]
fn players_added_before_take_the_first_turns() {
    let mut game = Game::new(4);
    game.add_player(Field::Player2);
    // Turns go to Player2, then to the two players of every game.
    let (board, winner) = game.run(&vec![1, 2, 3, 4]);
    assert_eq!(winner, None);
    assert_eq!(board.marker_at(0, 0), Some(Field::Player2));
    assert_eq!(board.marker_at(1, 0), Some(Field::Player1));
    assert_eq!(board.marker_at(2, 0), Some(Field::Player2));
    assert_eq!(board.marker_at(3, 0), Some(Field::Player2));
}

#[test]
fn players_take_turns_in_the_order_added() {
    let mut game = Game::new(4);
    assert!(game.players_in_turn().is_empty());
    game.add_player(Field::Player2);
    game.add_player(Field::Player1);
    assert_eq!(game.players_in_turn(), &vec![Field::Player2, Field::Player1]);
}
