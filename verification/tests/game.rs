//! The game registry, the move engine, the machine's counter-move policy,
//! and the back-end's request processing.

use tictac_core::game::{GameError, TicTacGame};
use tictac_core::wire::{process_request, UserData};

#[test]
fn new_game_serializes_to_the_numbered_grid() {
    let mut game = TicTacGame::new();
    game.new_game(7);
    let s = game.get_serialized(7).unwrap();
    assert_eq!(s, r#"[["0","1","2"],["3","4","5"],["6","7","8"]]"#);
}

#[test]
fn a_move_marks_the_center_and_repeating_it_fails() {
    let mut game = TicTacGame::new();
    game.new_game(7);
    assert_eq!(game.apply_move(7, '4', 'X'), Ok(true));
    let s = game.get_serialized(7).unwrap();
    assert_eq!(s, r#"[["0","1","2"],["3","X","5"],["6","7","8"]]"#);
    assert_eq!(game.apply_move(7, '4', 'O'), Err(GameError::IllegalMove));
}

#[test]
fn out_of_range_and_unknown_user_moves_fail() {
    let mut game = TicTacGame::new();
    game.new_game(7);
    assert_eq!(game.apply_move(7, '9', 'X'), Err(GameError::IllegalMove));
    assert_eq!(game.apply_move(999, '0', 'X'), Err(GameError::NoSuchGame));
}

#[test]
fn non_digit_cell_reference_is_invalid_input() {
    let mut game = TicTacGame::new();
    game.new_game(7);
    assert_eq!(game.apply_move(7, 'n', 'X'), Err(GameError::InvalidInput));
}

#[test]
fn unknown_user_has_no_serialized_board() {
    let game = TicTacGame::new();
    assert_eq!(game.get_serialized(1), Err(GameError::NotFound));
}

#[test]
fn new_game_discards_the_old_board() {
    let mut game = TicTacGame::new();
    game.new_game(7);
    game.apply_move(7, '4', 'X').unwrap();
    game.new_game(7);
    let s = game.get_serialized(7).unwrap();
    assert_eq!(s, r#"[["0","1","2"],["3","4","5"],["6","7","8"]]"#);
}

#[test]
fn machine_takes_the_first_free_cell() {
    let mut game = TicTacGame::new();
    game.new_game(7);
    game.apply_move(7, '0', 'X').unwrap();
    game.machine_move(7);
    let s = game.get_serialized(7).unwrap();
    assert_eq!(s, r#"[["X","O","2"],["3","4","5"],["6","7","8"]]"#);
}

#[test]
fn machine_never_takes_the_last_cell() {
    let mut game = TicTacGame::new();
    game.new_game(7);
    for c in ['0', '1', '2', '3', '4', '5', '6', '7'] {
        game.apply_move(7, c, 'X').unwrap();
    }
    game.machine_move(7);
    let s = game.get_serialized(7).unwrap();
    assert_eq!(s, r#"[["X","X","X"],["X","X","X"],["X","X","8"]]"#);
}

#[test]
fn machine_move_for_unknown_user_changes_nothing() {
    let mut game = TicTacGame::new();
    game.machine_move(5);
    assert_eq!(game.get_serialized(5), Err(GameError::NotFound));
}

#[test]
fn process_request_plays_human_then_machine() {
    let mut game = TicTacGame::new();
    let data = UserData { user_id: 1, move_to: '0', new_game: true };
    let s = process_request(&mut game, 0, &data).unwrap();
    assert_eq!(s, r#"[["X","O","2"],["3","4","5"],["6","7","8"]]"#);
}

#[test]
fn process_request_fetch_only_makes_no_move() {
    let mut game = TicTacGame::new();
    let data = UserData { user_id: 1, move_to: '0', new_game: true };
    let s = process_request(&mut game, 1, &data).unwrap();
    assert_eq!(s, r#"[["0","1","2"],["3","4","5"],["6","7","8"]]"#);
}

#[test]
fn process_request_rejected_move_still_answers_the_board() {
    let mut game = TicTacGame::new();
    let first = UserData { user_id: 1, move_to: '0', new_game: true };
    process_request(&mut game, 0, &first).unwrap();
    let again = UserData { user_id: 1, move_to: '0', new_game: false };
    let s = process_request(&mut game, 0, &again).unwrap();
    assert_eq!(s, r#"[["X","O","2"],["3","4","5"],["6","7","8"]]"#);
}

#[test]
fn process_request_for_unknown_user_reports_not_found() {
    let mut game = TicTacGame::new();
    let data = UserData { user_id: 1, move_to: '0', new_game: false };
    assert_eq!(process_request(&mut game, 0, &data), Err(GameError::NotFound));
}

#[test]
fn users_do_not_share_boards() {
    let mut game = TicTacGame::new();
    game.new_game(1);
    game.new_game(2);
    game.apply_move(1, '4', 'X').unwrap();
    assert_eq!(
        game.get_serialized(2).unwrap(),
        r#"[["0","1","2"],["3","4","5"],["6","7","8"]]"#
    );
    assert_eq!(
        game.get_serialized(1).unwrap(),
        r#"[["0","1","2"],["3","X","5"],["6","7","8"]]"#
    );
}
