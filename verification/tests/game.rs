use tictactoe::board::{check_game_status, Board};
use tictactoe::enums::{Cell, GameStatus};
use tictactoe::game::{
    ai_turn, is_ai_turn, new_board, opponent, take_turn, Outcome, AI_PLAYER,
};
use tictactoe::search::ai_move;

const X: Cell = Cell::X;
const O: Cell = Cell::O;
const E: Cell = Cell::Empty;

#[test]
fn a_new_board_is_empty_and_in_progress() {
    let board = new_board();
    assert_eq!(board, [E; 9]);
    assert_eq!(check_game_status(&board), GameStatus::Play);
}

#[test]
fn the_engine_plays_x() {
    assert_eq!(AI_PLAYER, X);
    assert!(is_ai_turn(X));
    assert!(!is_ai_turn(O));
    assert!(!is_ai_turn(E));
}

#[test]
fn sides_take_turns() {
    assert_eq!(opponent(X), O);
    assert_eq!(opponent(O), X);
    assert_eq!(opponent(E), X);
}

#[test]
fn a_move_passes_the_turn() {
    let mut board = new_board();
    assert_eq!(take_turn(&mut board, X, 4), Some(Outcome::Continue(O)));
    assert_eq!(board, [E, E, E, E, X, E, E, E, E]);
    assert_eq!(take_turn(&mut board, O, 0), Some(Outcome::Continue(X)));
    assert_eq!(board, [O, E, E, E, X, E, E, E, E]);
}

#[test]
fn completing_a_line_wins_for_the_mover() {
    let mut board: Board = [X, X, E, O, O, E, E, E, E];
    assert_eq!(take_turn(&mut board, X, 2), Some(Outcome::Won(X)));
    assert_eq!(board, [X, X, X, O, O, E, E, E, E]);
    let mut board: Board = [X, X, E, O, O, E, E, E, X];
    assert_eq!(take_turn(&mut board, O, 5), Some(Outcome::Won(O)));
}

#[test]
fn filling_the_board_without_a_line_draws() {
    let mut board: Board = [X, O, X, X, O, O, O, X, E];
    assert_eq!(take_turn(&mut board, X, 8), Some(Outcome::Drawn));
    assert_eq!(board, [X, O, X, X, O, O, O, X, X]);
}

#[test]
fn filling_the_board_with_a_line_wins() {
    let mut board: Board = [X, O, X, O, X, O, O, X, E];
    assert_eq!(take_turn(&mut board, X, 8), Some(Outcome::Won(X)));
}

#[test]
fn a_taken_cell_is_refused_and_nothing_changes() {
    let mut board: Board = [X, E, E, E, O, E, E, E, E];
    assert_eq!(take_turn(&mut board, X, 4), None);
    assert_eq!(take_turn(&mut board, O, 0), None);
    assert_eq!(board, [X, E, E, E, O, E, E, E, E]);
}

#[test]
fn a_cell_off_the_board_is_refused() {
    let mut board = new_board();
    assert_eq!(take_turn(&mut board, X, 9), None);
    assert_eq!(take_turn(&mut board, X, usize::MAX), None);
    assert_eq!(board, [E; 9]);
}

#[test]
fn the_engine_against_itself_ends_the_game_within_nine_moves() {
    let mut board = new_board();
    let mut player = X;
    let mut moves = 0;
    loop {
        let position = ai_move(&board, player);
        let marks_before = board.iter().filter(|c| **c != E).count();
        match take_turn(&mut board, player, position) {
            Some(Outcome::Continue(next)) => {
                assert_eq!(next, opponent(player));
                player = next;
            }
            Some(Outcome::Won(winner)) => {
                assert_eq!(winner, player);
                assert_eq!(check_game_status(&board), GameStatus::Over);
                break;
            }
            Some(Outcome::Drawn) => {
                assert_eq!(check_game_status(&board), GameStatus::Tie);
                break;
            }
            None => panic!("the engine chose the taken cell {}", position),
        }
        assert_eq!(board.iter().filter(|c| **c != E).count(), marks_before + 1);
        moves += 1;
        assert!(moves < 9);
    }
    let xs = board.iter().filter(|c| **c == X).count();
    let os = board.iter().filter(|c| **c == O).count();
    assert!(xs == os || xs == os + 1);
}

// Plays the engine as X against every line of play of O and counts how the
// games end: (won by X, drawn, won by O).
fn play_all_games(board: Board, ends: &mut (usize, usize, usize)) {
    let position = ai_move(&board, X);
    let mut after_x = board;
    match take_turn(&mut after_x, X, position) {
        Some(Outcome::Continue(next)) => assert_eq!(next, O),
        Some(Outcome::Won(winner)) => {
            assert_eq!(winner, X);
            ends.0 += 1;
            return;
        }
        Some(Outcome::Drawn) => {
            ends.1 += 1;
            return;
        }
        None => panic!("the engine chose the taken cell {} on {:?}", position, board),
    }
    for reply in 0..9 {
        let mut after_o = after_x;
        match take_turn(&mut after_o, O, reply) {
            Some(Outcome::Continue(next)) => {
                assert_eq!(next, X);
                play_all_games(after_o, ends);
            }
            Some(Outcome::Won(_)) => ends.2 += 1,
            Some(Outcome::Drawn) => ends.1 += 1,
            None => assert_ne!(after_x[reply], E),
        }
    }
}

#[test]
fn the_engine_moving_first_always_has_a_free_cell_and_never_loses() {
    let mut ends = (0, 0, 0);
    play_all_games(new_board(), &mut ends);
    assert_eq!(ends, (71, 5, 0));
}

#[test]
fn the_engine_moves_even_where_every_reply_is_lost() {
    let mut board: Board = [O, E, O, X, O, X, E, X, E];
    let position = ai_move(&board, X);
    assert_eq!(position, 1);
    assert_eq!(take_turn(&mut board, X, position), Some(Outcome::Continue(O)));
    assert_eq!(board, [O, X, O, X, O, X, E, X, E]);
}

fn play_every_game(board: Board, player: Cell, engine: Cell, games: &mut usize) {
    let cells: Vec<usize> = if player == engine {
        vec![ai_move(&board, player)]
    } else {
        (0..9).filter(|c| board[*c] == E).collect()
    };
    for position in cells {
        let mut next = board;
        match take_turn(&mut next, player, position) {
            Some(Outcome::Continue(other)) => play_every_game(next, other, engine, games),
            Some(_) => *games += 1,
            None => panic!("cell {} was refused on {:?}", position, board),
        }
        let changed = (0..9).filter(|c| next[*c] != board[*c]).count();
        assert_eq!(changed, 1);
        assert_eq!(board[position], E);
        assert_eq!(next[position], player);
    }
}

#[test]
fn every_turn_of_the_engine_marks_one_empty_cell() {
    // The engine as either side, moving first or second, against every line
    // of play: its cell is never refused and each turn changes one cell.
    let mut games = 0;
    play_every_game(new_board(), X, X, &mut games);
    play_every_game(new_board(), X, O, &mut games);
    play_every_game(new_board(), O, O, &mut games);
    play_every_game(new_board(), O, X, &mut games);
    assert!(games > 0);
}

#[test]
fn the_engine_turn_marks_the_cell_it_names() {
    let mut board = new_board();
    assert_eq!(ai_turn(&mut board, X), Some(Outcome::Continue(O)));
    assert_eq!(board, [E, E, E, E, X, E, E, E, E]);
    let mut board: Board = [X, X, E, O, O, E, E, E, E];
    assert_eq!(ai_turn(&mut board, X), Some(Outcome::Won(X)));
    assert_eq!(board, [X, X, X, O, O, E, E, E, E]);
    let mut board: Board = [X, X, E, O, O, E, E, E, X];
    assert_eq!(ai_turn(&mut board, O), Some(Outcome::Won(O)));
    assert_eq!(board, [X, X, E, O, O, O, E, E, X]);
    let mut board: Board = [X, O, X, X, O, O, O, X, E];
    assert_eq!(ai_turn(&mut board, X), Some(Outcome::Drawn));
    assert_eq!(board, [X, O, X, X, O, O, O, X, X]);
}

#[test]
fn the_engine_turn_is_played_where_every_reply_is_lost() {
    let mut board: Board = [O, E, O, X, O, X, E, X, E];
    assert_eq!(ai_turn(&mut board, X), Some(Outcome::Continue(O)));
    assert_eq!(board, [O, X, O, X, O, X, E, X, E]);
}

#[test]
fn the_engine_has_no_turn_on_a_finished_board() {
    let mut decided: Board = [E, E, E, X, X, X, O, O, E];
    assert_eq!(ai_turn(&mut decided, X), None);
    assert_eq!(decided, [E, E, E, X, X, X, O, O, E]);
    let mut drawn: Board = [X, O, X, X, O, O, O, X, X];
    assert_eq!(ai_turn(&mut drawn, O), None);
    assert_eq!(drawn, [X, O, X, X, O, O, O, X, X]);
}

#[test]
fn the_engine_turn_is_played_on_every_board_in_progress() {
    for n in 0..19683usize {
        let mut board: Board = [E; 9];
        let mut rest = n;
        for cell in board.iter_mut() {
            *cell = [E, X, O][rest % 3];
            rest /= 3;
        }
        for side in [X, O] {
            let mut after = board;
            let outcome = ai_turn(&mut after, side);
            if check_game_status(&board) == GameStatus::Play {
                assert!(outcome.is_some(), "board {:?}", board);
                let changed: Vec<usize> = (0..9).filter(|c| after[*c] != board[*c]).collect();
                assert_eq!(changed.len(), 1);
                assert_eq!(board[changed[0]], E);
                assert_eq!(after[changed[0]], side);
                assert_eq!(changed[0], ai_move(&board, side));
            } else {
                assert_eq!(outcome, None);
                assert_eq!(after, board);
            }
        }
    }
}
