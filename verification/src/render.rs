//! The board as text: three rows of marks, then a rule.

use vstd::prelude::*;
use vstd::string::StringExecFns;
use crate::board::Board;
use crate::enums::Cell;

verus! {

/// The character that shows a cell: a space for an empty cell, else the
/// letter of its mark.
pub open spec fn symbol_of(c: Cell) -> char {
    match c {
        Cell::Empty => ' ',
        Cell::X => 'X',
        Cell::O => 'O',
    }
}

/// Row `r` of the board as a line of text: its three cells with bars between
/// them.
pub open spec fn row_text(b: Seq<Cell>, r: int) -> Seq<char> {
    seq![
        symbol_of(b[3 * r]),
        ' ',
        '|',
        ' ',
        symbol_of(b[3 * r + 1]),
        ' ',
        '|',
        ' ',
        symbol_of(b[3 * r + 2]),
        '\n',
    ]
}

/// What closes the picture of a board: an empty line, a rule of ten equals
/// signs, and another empty line.
pub open spec fn rule_text() -> Seq<char> {
    seq!['\n', '=', '=', '=', '=', '=', '=', '=', '=', '=', '=', '\n', '\n']
}

/// The first `upto` rows of the board, from the top.
pub open spec fn rows_text(b: Seq<Cell>, upto: int) -> Seq<char>
    decreases upto,
{
    if upto <= 0 {
        Seq::empty()
    } else {
        rows_text(b, upto - 1) + row_text(b, upto - 1)
    }
}

/// The whole picture of a board: its three rows from the top, then the rule.
pub open spec fn board_text(b: Seq<Cell>) -> Seq<char> {
    rows_text(b, 3) + rule_text()
}

/// The text that shows a cell.
pub fn symbol(c: Cell) -> (text: &'static str)
    ensures
        text@ == seq![symbol_of(c)],
{
    proof {
        reveal_strlit(" ");
        reveal_strlit("X");
        reveal_strlit("O");
    }
    match c {
        Cell::Empty => " ",
        Cell::X => "X",
        Cell::O => "O",
    }
}

/// Draws `board` as text, ready to be printed.
pub fn render_board(board: &Board) -> (text: String)
    ensures
        text@ == board_text(board@),
{
    let mut text = String::new();
    let mut r: usize = 0;
    proof {
        reveal_strlit(" | ");
        reveal_strlit("\n");
        reveal_strlit("\n==========\n\n");
    }
    while r < 3
        invariant
            r <= 3,
            " | "@ == seq![' ', '|', ' '],
            "\n"@ == seq!['\n'],
            text@ == rows_text(board@, r as int),
        decreases 3 - r,
    {
        text.append(symbol(board[3 * r]));
        text.append(" | ");
        text.append(symbol(board[3 * r + 1]));
        text.append(" | ");
        text.append(symbol(board[3 * r + 2]));
        text.append("\n");
        r += 1;
    }
    text.append("\n==========\n\n");
    text
}

} // verus!
