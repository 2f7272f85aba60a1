use tictactoe::board::Board;
use tictactoe::enums::{Cell, GameStatus};
use tictactoe::render::{render_board, symbol};

const X: Cell = Cell::X;
const O: Cell = Cell::O;
const E: Cell = Cell::Empty;

#[test]
fn each_cell_has_its_symbol() {
    assert_eq!(symbol(E), " ");
    assert_eq!(symbol(X), "X");
    assert_eq!(symbol(O), "O");
}

#[test]
fn an_empty_board_is_drawn_as_bars_and_a_rule() {
    let board: Board = [E; 9];
    assert_eq!(render_board(&board), "  |   |  \n  |   |  \n  |   |  \n\n==========\n\n");
}

#[test]
fn rows_are_drawn_from_the_top() {
    let board: Board = [X, O, E, E, X, O, O, E, X];
    assert_eq!(render_board(&board), "X | O |  \n  | X | O\nO |   | X\n\n==========\n\n");
}

#[test]
fn a_board_is_drawn_line_by_line() {
    let board: Board = [X, X, X, O, O, E, E, E, E];
    let text = render_board(&board);
    let lines: Vec<&str> = text.split('\n').collect();
    assert_eq!(lines, vec!["X | X | X", "O | O |  ", "  |   |  ", "", "==========", "", ""]);
}

#[test]
fn each_status_has_its_word() {
    assert_eq!(GameStatus::Play.name(), "Play");
    assert_eq!(GameStatus::Over.name(), "Over");
    assert_eq!(GameStatus::Tie.name(), "Tie");
}
