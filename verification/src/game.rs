//! The flow of a game: whose turn it is, what a move leads to, and when the
//! game stops.

use vstd::prelude::*;
use crate::board::{
    apply, cells_holding, cells_holding_below, check_game_over, check_game_status, is_open,
    is_open_at, placed, status_of, Board,
};
use crate::enums::{Cell, GameStatus};
use crate::search::{ai_move, engine_cell};

verus! {

/// What follows a move.
#[derive(Clone, Copy, Debug, PartialEq, Eq, Structural)]
pub enum Outcome {
    /// The game goes on and the named side moves next.
    Continue(Cell),
    /// The move completed a line: the named side, which made it, has won.
    Won(Cell),
    /// The move filled the board without completing a line.
    Drawn,
}

/// The side that the engine plays.
pub const AI_PLAYER: Cell = Cell::X;

/// The side that moves after `player`: O after X, and X after anything else.
pub open spec fn other_side(player: Cell) -> Cell {
    if player == Cell::X {
        Cell::O
    } else {
        Cell::X
    }
}

/// What follows when `player` has just moved and left the board `b`.
pub open spec fn outcome_of(b: Seq<Cell>, player: Cell) -> Outcome {
    match status_of(b) {
        GameStatus::Play => Outcome::Continue(other_side(player)),
        GameStatus::Over => Outcome::Won(player),
        GameStatus::Tie => Outcome::Drawn,
    }
}

/// The side whose turn it is on board `b` when X has moved first and the
/// sides have taken turns: X when both have as many marks, else O.
pub open spec fn side_to_move(b: Seq<Cell>) -> Cell {
    if cells_holding(b, Cell::X) == cells_holding(b, Cell::O) {
        Cell::X
    } else {
        Cell::O
    }
}

/// The marks on `b` are balanced as turn-taking leaves them: X has as many
/// marks as O, or one more.
pub open spec fn is_balanced(b: Seq<Cell>) -> bool {
    cells_holding(b, Cell::O) <= cells_holding(b, Cell::X) <= cells_holding(b, Cell::O) + 1
}

/// The board on which a game starts: nine empty cells.
pub fn new_board() -> (board: Board)
    ensures
        forall|i: int| 0 <= i < 9 ==> board@[i] == Cell::Empty,
        status_of(board@) == GameStatus::Play,
{
    [Cell::Empty;9]
}

/// The side that moves after `player`.
pub fn opponent(player: Cell) -> (next: Cell)
    ensures
        next == other_side(player),
{
    if player == Cell::X {
        Cell::O
    } else {
        Cell::X
    }
}

/// Whether the engine, and not the human, supplies the move of `player`.
pub fn is_ai_turn(player: Cell) -> (engine: bool)
    ensures
        engine == (player == AI_PLAYER),
{
    player == AI_PLAYER
}

/// Plays `position` for `player` and says what follows. A position that is
/// off the board or already taken is refused: the board stays as it was and
/// nothing is returned.
pub fn take_turn(board: &mut Board, player: Cell, position: usize) -> (outcome: Option<Outcome>)
    ensures
        is_open_at(old(board)@, position as int) ==> final(board)@ == placed(
            old(board)@,
            position as int,
            player,
        ) && outcome == Some(outcome_of(final(board)@, player)),
        !is_open_at(old(board)@, position as int) ==> final(board)@ == old(board)@ && outcome
            is None,
{
    if !is_open(board, position) {
        return None;
    }
    let next = apply(board, position, player);
    *board = next;
    let outcome = match check_game_status(board) {
        GameStatus::Play => Outcome::Continue(opponent(player)),
        GameStatus::Over => Outcome::Won(player),
        GameStatus::Tie => Outcome::Drawn,
    };
    Some(outcome)
}

/// Plays the engine's turn for the side `ai`: on a board in progress it marks
/// the cell that the search settles on, which is always empty, and says what
/// follows. On a finished board there is no turn: the board stays as it was
/// and nothing is returned.
pub fn ai_turn(board: &mut Board, ai: Cell) -> (outcome: Option<Outcome>)
    ensures
        status_of(old(board)@) == GameStatus::Play ==> is_open_at(
            old(board)@,
            engine_cell(old(board)@, ai),
        ) && final(board)@ == placed(old(board)@, engine_cell(old(board)@, ai), ai) && outcome
            == Some(outcome_of(final(board)@, ai)),
        status_of(old(board)@) != GameStatus::Play ==> final(board)@ == old(board)@ && outcome
            is None,
{
    if check_game_over(board) {
        return None;
    }
    let position = ai_move(board, ai);
    take_turn(board, ai, position)
}

/// Placing `player` on an empty cell adds one to the count of that mark,
/// takes one from the count of empty cells and leaves the third count alone.
proof fn lemma_placing_counts(
    b: Seq<Cell>,
    position: int,
    player: Cell,
    m: Cell,
    upto: int,
)
    requires
        b.len() == 9,
        is_open_at(b, position),
        0 <= upto <= 9,
    ensures
        cells_holding_below(placed(b, position, player), m, upto) == cells_holding_below(
            b,
            m,
            upto,
        ) + (if position < upto && m == player { 1int } else { 0int }) - (if position < upto && m
            == Cell::Empty { 1int } else { 0int }),
    decreases upto,
{
    if upto > 0 {
        lemma_placing_counts(b, position, player, m, upto - 1);
    }
}

/// Taking turns keeps the marks balanced and never overwrites a mark: when
/// the side whose turn it is plays an empty cell of a balanced board, the
/// board stays balanced, the turn passes to the other side, and every cell
/// that held a mark still holds it.
pub proof fn lemma_turns_keep_balance(b: Seq<Cell>, position: int)
    requires
        b.len() == 9,
        is_balanced(b),
        is_open_at(b, position),
    ensures
        is_balanced(placed(b, position, side_to_move(b))),
        side_to_move(placed(b, position, side_to_move(b))) == other_side(side_to_move(b)),
        forall|c: int|
            0 <= c < 9 && b[c] != Cell::Empty ==> placed(b, position, side_to_move(b))[c] == b[c],
{
    let player = side_to_move(b);
    lemma_placing_counts(b, position, player, Cell::X, 9);
    lemma_placing_counts(b, position, player, Cell::O, 9);
}

} // verus!
