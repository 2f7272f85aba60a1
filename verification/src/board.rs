//! The board model: nine cells in row-major order, the eight lines, and the
//! classification of a board as in progress, decided or drawn.

use vstd::prelude::*;
use crate::enums::{Cell, GameStatus};

verus! {

/// Nine cells, indexed 0..=8 in row-major order.
pub type Board = [Cell; 9];

/// The three cell indices of line `k`: rows first, then columns, then the two
/// diagonals.
pub open spec fn line_cells(k: int) -> (int, int, int) {
    if k == 0 {
        (0, 1, 2)
    } else if k == 1 {
        (3, 4, 5)
    } else if k == 2 {
        (6, 7, 8)
    } else if k == 3 {
        (0, 3, 6)
    } else if k == 4 {
        (1, 4, 7)
    } else if k == 5 {
        (2, 5, 8)
    } else if k == 6 {
        (0, 4, 8)
    } else {
        (2, 4, 6)
    }
}

/// The mark that fills line `k`, or `Empty` when the line is not complete.
pub open spec fn line_mark(b: Seq<Cell>, k: int) -> Cell {
    let (i, j, l) = line_cells(k);
    if b[i] == b[j] && b[j] == b[l] {
        b[i]
    } else {
        Cell::Empty
    }
}

/// Some line holds three identical marks.
pub open spec fn has_line(b: Seq<Cell>) -> bool {
    exists|k: int| 0 <= k < 8 && line_mark(b, k) != Cell::Empty
}

/// No cell is empty.
pub open spec fn is_full(b: Seq<Cell>) -> bool {
    forall|i: int| 0 <= i < 9 ==> b[i] != Cell::Empty
}

/// The classification of a board: a complete line decides it, whatever else
/// it holds; otherwise it is drawn when full and in progress when not.
pub open spec fn status_of(b: Seq<Cell>) -> GameStatus {
    if has_line(b) {
        GameStatus::Over
    } else if is_full(b) {
        GameStatus::Tie
    } else {
        GameStatus::Play
    }
}

/// The board after `player` has marked cell `position`: every other cell is
/// as before.
pub open spec fn placed(b: Seq<Cell>, position: int, player: Cell) -> Seq<Cell> {
    b.update(position, player)
}

/// Cell `position` exists and nobody has played there.
pub open spec fn is_open_at(b: Seq<Cell>, position: int) -> bool {
    0 <= position < 9 && b[position] == Cell::Empty
}

/// The lowest empty cell at or above `from`; 0 where there is none.
pub open spec fn first_open_from(b: Seq<Cell>, from: int) -> int
    decreases 9 - from,
{
    if from < 0 || from >= 9 {
        0
    } else if b[from] == Cell::Empty {
        from
    } else {
        first_open_from(b, from + 1)
    }
}

/// The lowest empty cell of the board; 0 on a full board.
pub open spec fn first_open_cell(b: Seq<Cell>) -> int {
    first_open_from(b, 0)
}

/// How many of the first `upto` cells hold `m`.
pub open spec fn cells_holding_below(b: Seq<Cell>, m: Cell, upto: int) -> int
    decreases upto,
{
    if upto <= 0 {
        0
    } else {
        cells_holding_below(b, m, upto - 1) + (if b[upto - 1] == m { 1int } else { 0int })
    }
}

/// How many of the nine cells hold `m`.
pub open spec fn cells_holding(b: Seq<Cell>, m: Cell) -> int {
    cells_holding_below(b, m, 9)
}

/// How many of the nine cells are empty.
pub open spec fn empty_cells(b: Seq<Cell>) -> int {
    cells_holding(b, Cell::Empty)
}

/// The cell indices of line `k`.
pub fn cells_of_line(k: usize) -> (t: (usize, usize, usize))
    requires
        k < 8,
    ensures
        (t.0 as int, t.1 as int, t.2 as int) == line_cells(k as int),
        t.0 < 9,
        t.1 < 9,
        t.2 < 9,
{
    match k {
        0 => (0, 1, 2),
        1 => (3, 4, 5),
        2 => (6, 7, 8),
        3 => (0, 3, 6),
        4 => (1, 4, 7),
        5 => (2, 5, 8),
        6 => (0, 4, 8),
        _ => (2, 4, 6),
    }
}

/// The mark that fills line `k` of `board`, or `Empty`.
pub fn mark_on_line(board: &Board, k: usize) -> (m: Cell)
    requires
        k < 8,
    ensures
        m == line_mark(board@, k as int),
{
    let (i, j, l) = cells_of_line(k);
    if board[i] == board[j] && board[j] == board[l] {
        board[i]
    } else {
        Cell::Empty
    }
}

/// Whether `position` names a cell of `board` that nobody has played.
pub fn is_open(board: &Board, position: usize) -> (open: bool)
    ensures
        open == is_open_at(board@, position as int),
{
    position < 9 && board[position] == Cell::Empty
}

/// Places a mark of `player` on the empty cell `position` and returns the new
/// board; `board` itself is left as it was.
pub fn apply(board: &Board, position: usize, player: Cell) -> (next: Board)
    requires
        is_open_at(board@, position as int),
    ensures
        next@ == placed(board@, position as int, player),
{
    let mut next: Board = *board;
    next[position] = player;
    next
}

/// Classifies `board`.
pub fn check_game_status(board: &Board) -> (status: GameStatus)
    ensures
        status == status_of(board@),
{
    let mut k: usize = 0;
    while k < 8
        invariant
            k <= 8,
            forall|j: int| 0 <= j < k ==> line_mark(board@, j) == Cell::Empty,
        decreases 8 - k,
    {
        if mark_on_line(board, k) != Cell::Empty {
            return GameStatus::Over;
        }
        k += 1;
    }
    let mut i: usize = 0;
    while i < 9
        invariant
            i <= 9,
            !has_line(board@),
            forall|j: int| 0 <= j < i ==> board@[j] != Cell::Empty,
        decreases 9 - i,
    {
        if board[i] == Cell::Empty {
            return GameStatus::Play;
        }
        i += 1;
    }
    GameStatus::Tie
}

/// Whether the game on `board` has ended, by a win or by a draw.
pub fn check_game_over(board: &Board) -> (over: bool)
    ensures
        over == (status_of(board@) != GameStatus::Play),
{
    match check_game_status(board) {
        GameStatus::Play => false,
        _ => true,
    }
}

/// A complete line decides the board, whatever the other cells hold.
pub proof fn lemma_complete_line_decides(b: Seq<Cell>, k: int)
    requires
        0 <= k < 8,
        line_mark(b, k) != Cell::Empty,
    ensures
        status_of(b) == GameStatus::Over,
{
}

/// A full board without a complete line is drawn.
pub proof fn lemma_full_board_without_line_is_drawn(b: Seq<Cell>)
    requires
        is_full(b),
        !has_line(b),
    ensures
        status_of(b) == GameStatus::Tie,
{
}

/// The classification depends on the cells alone: classifying the same cells
/// twice gives the same answer.
pub proof fn lemma_status_is_repeatable(b: Seq<Cell>, first: GameStatus, second: GameStatus)
    requires
        first == status_of(b),
        second == status_of(b),
    ensures
        first == second,
{
}

/// Looking for an empty cell from `from` upwards finds one at or below any
/// empty cell `c` that lies there.
proof fn lemma_first_open_from(b: Seq<Cell>, from: int, c: int)
    requires
        0 <= from <= c,
        is_open_at(b, c),
    ensures
        is_open_at(b, first_open_from(b, from)),
        from <= first_open_from(b, from) <= c,
    decreases c - from,
{
    if b[from] != Cell::Empty {
        lemma_first_open_from(b, from + 1, c);
    }
}

/// On a board with an empty cell `c`, the lowest empty cell is empty and is
/// not above `c`.
pub proof fn lemma_first_open_cell_is_lowest(b: Seq<Cell>, c: int)
    requires
        is_open_at(b, c),
    ensures
        is_open_at(b, first_open_cell(b)),
        first_open_cell(b) <= c,
{
    lemma_first_open_from(b, 0, c);
}

/// A board in progress has an empty cell, and so a lowest one.
pub proof fn lemma_board_in_progress_has_open_cell(b: Seq<Cell>)
    requires
        status_of(b) == GameStatus::Play,
    ensures
        is_open_at(b, first_open_cell(b)),
{
    let c = choose|c: int| 0 <= c < 9 && b[c] == Cell::Empty;
    lemma_first_open_cell_is_lowest(b, c);
}

} // verus!
