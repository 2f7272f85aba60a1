//! The static evaluator: a score for a board from the point of view of X,
//! the maximizing side.

use vstd::prelude::*;
use crate::board::{cells_of_line, has_line, line_cells, line_mark, mark_on_line, Board};
use crate::enums::Cell;

verus! {

/// How many of the three cells of line `k` hold `m`.
pub open spec fn marks_on_line(b: Seq<Cell>, k: int, m: Cell) -> int {
    let (i, j, l) = line_cells(k);
    (if b[i] == m { 1int } else { 0int })
        + (if b[j] == m { 1int } else { 0int })
        + (if b[l] == m { 1int } else { 0int })
}

/// Line `k` holds exactly `n` marks of `m` and is empty otherwise.
pub open spec fn is_open_run(b: Seq<Cell>, k: int, m: Cell, n: int) -> bool {
    marks_on_line(b, k, m) == n && marks_on_line(b, k, Cell::Empty) == 3 - n
}

/// How many of the first `upto` lines hold exactly `n` marks of `m` and are
/// empty otherwise.
pub open spec fn open_runs_below(b: Seq<Cell>, m: Cell, n: int, upto: int) -> int
    decreases upto,
{
    if upto <= 0 {
        0
    } else {
        open_runs_below(b, m, n, upto - 1) + (if is_open_run(b, upto - 1, m, n) { 1int } else { 0int })
    }
}

/// How many of the eight lines hold exactly `n` marks of `m` and are empty
/// otherwise.
pub open spec fn open_runs(b: Seq<Cell>, m: Cell, n: int) -> int {
    open_runs_below(b, m, n, 8)
}

/// The mark of the first complete line among the first `upto` lines, in scan
/// order, or `Empty` when none of them is complete.
pub open spec fn first_line_below(b: Seq<Cell>, upto: int) -> Cell
    decreases upto,
{
    if upto <= 0 {
        Cell::Empty
    } else {
        let earlier = first_line_below(b, upto - 1);
        if earlier != Cell::Empty {
            earlier
        } else {
            line_mark(b, upto - 1)
        }
    }
}

/// The side whose complete line the scan meets first, or `Empty` when no line
/// is complete.
pub open spec fn winner_of(b: Seq<Cell>) -> Cell {
    first_line_below(b, 8)
}

/// The pattern score of a board: three for each line with two marks and a
/// gap, one for each line with one mark and two gaps, X counted for and O
/// against.
pub open spec fn pattern_score(b: Seq<Cell>) -> int {
    3 * open_runs(b, Cell::X, 2) + open_runs(b, Cell::X, 1) - 3 * open_runs(b, Cell::O, 2)
        - open_runs(b, Cell::O, 1)
}

/// The score of a board: the largest value when X owns the first complete
/// line, the smallest when O does, and the pattern score otherwise.
pub open spec fn score_of(b: Seq<Cell>) -> int {
    match winner_of(b) {
        Cell::X => isize::MAX as int,
        Cell::O => isize::MIN as int,
        Cell::Empty => pattern_score(b),
    }
}

/// The number of lines among the first `upto` is a bound on every run count.
proof fn lemma_open_runs_bounds(b: Seq<Cell>, m: Cell, n: int, upto: int)
    requires
        0 <= upto,
    ensures
        0 <= open_runs_below(b, m, n, upto) <= upto,
    decreases upto,
{
    if upto > 0 {
        lemma_open_runs_bounds(b, m, n, upto - 1);
    }
}

/// The pattern score lies between -32 and 32.
pub proof fn lemma_pattern_score_bounds(b: Seq<Cell>)
    ensures
        -32 <= pattern_score(b) <= 32,
{
    lemma_open_runs_bounds(b, Cell::X, 2, 8);
    lemma_open_runs_bounds(b, Cell::X, 1, 8);
    lemma_open_runs_bounds(b, Cell::O, 2, 8);
    lemma_open_runs_bounds(b, Cell::O, 1, 8);
}

/// Every score is a value of `isize`.
pub proof fn lemma_score_in_range(b: Seq<Cell>)
    ensures
        isize::MIN <= score_of(b) <= isize::MAX,
{
    lemma_pattern_score_bounds(b);
}

/// How many of the three cells of line `k` of `board` hold `m`.
pub fn count_on_line(board: &Board, k: usize, m: Cell) -> (n: u8)
    requires
        k < 8,
    ensures
        n as int == marks_on_line(board@, k as int, m),
        n <= 3,
{
    let (i, j, l) = cells_of_line(k);
    let mut n: u8 = 0;
    if board[i] == m {
        n += 1;
    }
    if board[j] == m {
        n += 1;
    }
    if board[l] == m {
        n += 1;
    }
    n
}

/// Scores `board` for X.
pub fn evaluate_position(board: &Board) -> (score: isize)
    ensures
        score as int == score_of(board@),
{
    let mut x2: isize = 0;
    let mut x1: isize = 0;
    let mut o2: isize = 0;
    let mut o1: isize = 0;
    let mut k: usize = 0;
    while k < 8
        invariant
            k <= 8,
            first_line_below(board@, k as int) == Cell::Empty,
            x2 as int == open_runs_below(board@, Cell::X, 2, k as int),
            x1 as int == open_runs_below(board@, Cell::X, 1, k as int),
            o2 as int == open_runs_below(board@, Cell::O, 2, k as int),
            o1 as int == open_runs_below(board@, Cell::O, 1, k as int),
            0 <= x2 <= k,
            0 <= x1 <= k,
            0 <= o2 <= k,
            0 <= o1 <= k,
        decreases 8 - k,
    {
        match mark_on_line(board, k) {
            Cell::X => {
                proof {
                    lemma_first_line_settled(board@, k as int + 1, 8);
                }
                return isize::MAX;
            },
            Cell::O => {
                proof {
                    lemma_first_line_settled(board@, k as int + 1, 8);
                }
                return isize::MIN;
            },
            Cell::Empty => {},
        }
        let xs = count_on_line(board, k, Cell::X);
        let os = count_on_line(board, k, Cell::O);
        let gaps = count_on_line(board, k, Cell::Empty);
        if xs == 2 && gaps == 1 {
            x2 += 1;
        } else if xs == 1 && gaps == 2 {
            x1 += 1;
        } else if os == 2 && gaps == 1 {
            o2 += 1;
        } else if os == 1 && gaps == 2 {
            o1 += 1;
        }
        k += 1;
    }
    3 * x2 + x1 - (3 * o2 + o1)
}

/// Once a complete line has been met, scanning further lines changes nothing.
proof fn lemma_first_line_settled(b: Seq<Cell>, from: int, upto: int)
    requires
        0 <= from <= upto,
        first_line_below(b, from) != Cell::Empty,
    ensures
        first_line_below(b, upto) == first_line_below(b, from),
    decreases upto - from,
{
    if from < upto {
        lemma_first_line_settled(b, from, upto - 1);
    }
}

/// A complete line that no complete line of the other side precedes in scan
/// order fixes the score, whatever the other cells hold: the largest value
/// for a line of X, the smallest for a line of O.
pub proof fn lemma_complete_line_scores(b: Seq<Cell>, k: int)
    requires
        0 <= k < 8,
        line_mark(b, k) != Cell::Empty,
        forall|j: int|
            0 <= j < k ==> line_mark(b, j) == Cell::Empty || line_mark(b, j) == line_mark(b, k),
    ensures
        winner_of(b) == line_mark(b, k),
        line_mark(b, k) == Cell::X ==> score_of(b) == isize::MAX,
        line_mark(b, k) == Cell::O ==> score_of(b) == isize::MIN,
{
    lemma_first_line_agrees(b, k, k);
    lemma_first_line_settled(b, k + 1, 8);
}

/// While every complete line met so far holds the mark of line `k`, the
/// first complete line holds it too, if there is one.
proof fn lemma_first_line_agrees(b: Seq<Cell>, k: int, upto: int)
    requires
        0 <= upto <= k,
        forall|j: int|
            0 <= j < k ==> line_mark(b, j) == Cell::Empty || line_mark(b, j) == line_mark(b, k),
    ensures
        first_line_below(b, upto) == Cell::Empty || first_line_below(b, upto) == line_mark(b, k),
    decreases upto,
{
    if upto > 0 {
        lemma_first_line_agrees(b, k, upto - 1);
    }
}

/// The scan meets a complete line among the first `upto` lines exactly when
/// one of them is complete.
proof fn lemma_first_line_found(b: Seq<Cell>, upto: int)
    requires
        0 <= upto,
    ensures
        first_line_below(b, upto) != Cell::Empty <==> exists|k: int|
            0 <= k < upto && line_mark(b, k) != Cell::Empty,
    decreases upto,
{
    if upto > 0 {
        lemma_first_line_found(b, upto - 1);
    }
}

/// The score is one of the two extreme values exactly on the boards that a
/// complete line decides.
pub proof fn lemma_extreme_score_iff_decided(b: Seq<Cell>)
    ensures
        winner_of(b) != Cell::Empty <==> has_line(b),
        (score_of(b) == isize::MAX || score_of(b) == isize::MIN) <==> has_line(b),
{
    lemma_first_line_found(b, 8);
    lemma_pattern_score_bounds(b);
}

} // verus!
