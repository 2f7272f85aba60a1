//! The search engine: depth-bounded minimax with alpha-beta pruning, its
//! exact model, and the plain minimax value it is measured against.

use vstd::prelude::*;
use crate::board::{
    check_game_over, first_open_cell, is_open_at, lemma_board_in_progress_has_open_cell,
    lemma_first_open_cell_is_lowest, placed, status_of, Board,
};
use crate::enums::{Cell, GameStatus};
use crate::evaluate::{evaluate_position, score_of};
use crate::moves::{get_position_children, is_children_of, Move};
use crate::pruning::{
    lemma_pruning_preserves_value, lemma_search_brackets_value, lemma_search_in_range,
    lemma_search_picks_first_best,
};

verus! {

/// The best move found at a search node and its score.
#[derive(Clone, Copy, Debug, PartialEq, Eq)]
pub struct MinimaxResult {
    /// The cell to play: an empty cell wherever the search looked at replies,
    /// and 0 at depth 0 or on a finished board, where it looked at none.
    pub position: usize,
    /// The score of the node.
    pub eval: isize,
}

/// The mark of the side to move: X maximizes, O minimizes.
pub open spec fn mover(maximizing: bool) -> Cell {
    if maximizing {
        Cell::X
    } else {
        Cell::O
    }
}

/// The score that any reply improves on, for the side to move.
pub open spec fn worst_for(maximizing: bool) -> int {
    if maximizing {
        isize::MIN as int
    } else {
        isize::MAX as int
    }
}

/// The plain minimax value of a board searched `depth` plies deep, with no
/// pruning: the static score at depth 0 or on a finished board, else the best
/// of the values of all replies.
pub open spec fn minimax_value(b: Seq<Cell>, depth: int, maximizing: bool) -> int
    decreases depth, 10int,
{
    if depth <= 0 || status_of(b) != GameStatus::Play {
        score_of(b)
    } else {
        best_reply_below(b, depth, maximizing, 9)
    }
}

/// The best plain minimax value among the replies on the empty cells below
/// `upto`; the worst score for the side to move where there is none.
pub open spec fn best_reply_below(b: Seq<Cell>, depth: int, maximizing: bool, upto: int) -> int
    decreases depth, upto,
{
    if depth <= 0 || upto <= 0 {
        worst_for(maximizing)
    } else {
        let rest = best_reply_below(b, depth, maximizing, upto - 1);
        if b[upto - 1] != Cell::Empty {
            rest
        } else {
            let value = minimax_value(
                placed(b, upto - 1, mover(maximizing)),
                depth - 1,
                !maximizing,
            );
            if maximizing == (value > rest) && value != rest {
                value
            } else {
                rest
            }
        }
    }
}

/// The plain minimax value of the reply on cell `c`.
pub open spec fn reply_value(b: Seq<Cell>, depth: int, maximizing: bool, c: int) -> int {
    minimax_value(placed(b, c, mover(maximizing)), depth - 1, !maximizing)
}

/// What one reply does to a scan: the reply on cell `from` with score `eval`
/// replaces the best (`position`, `best`) when it is strictly better for the
/// side to move, and it moves that side's end of the window (`alpha`, `beta`)
/// when it lies inside. The result is (position, best, alpha, beta).
pub open spec fn after_reply(
    maximizing: bool,
    from: int,
    eval: int,
    position: int,
    best: int,
    alpha: int,
    beta: int,
) -> (int, int, int, int) {
    let improves = if maximizing {
        eval > best
    } else {
        eval < best
    };
    (
        if improves {
            from
        } else {
            position
        },
        if improves {
            eval
        } else {
            best
        },
        if maximizing && eval > alpha {
            eval
        } else {
            alpha
        },
        if !maximizing && eval < beta {
            eval
        } else {
            beta
        },
    )
}

/// What the pruned search returns at a node, as (position, score): the static
/// score with position 0 at depth 0 or on a finished board, else the outcome
/// of scanning the cells from 0, starting with the lowest empty cell as the
/// position and the worst score as the best.
pub open spec fn search_outcome(
    b: Seq<Cell>,
    depth: int,
    alpha: int,
    beta: int,
    maximizing: bool,
) -> (int, int)
    decreases depth, 10int,
{
    if depth <= 0 || status_of(b) != GameStatus::Play {
        (0, score_of(b))
    } else {
        scan_outcome(
            b,
            depth,
            alpha,
            beta,
            maximizing,
            0,
            first_open_cell(b),
            worst_for(maximizing),
        )
    }
}

/// The outcome of scanning the cells from `from` upwards, given the window
/// (`alpha`, `beta`) and the best (`position`, `best`) that the cells below
/// `from` have left. Each empty cell is searched one ply shallower for the
/// other side; a strictly better score replaces the best; the window closes
/// in from the mover's side; and the scan stops as soon as it is empty.
pub open spec fn scan_outcome(
    b: Seq<Cell>,
    depth: int,
    alpha: int,
    beta: int,
    maximizing: bool,
    from: int,
    position: int,
    best: int,
) -> (int, int)
    decreases depth, 9 - from,
{
    if depth <= 0 || from < 0 || from >= 9 {
        (position, best)
    } else if b[from] != Cell::Empty {
        scan_outcome(b, depth, alpha, beta, maximizing, from + 1, position, best)
    } else {
        let eval = search_outcome(
            placed(b, from, mover(maximizing)),
            depth - 1,
            alpha,
            beta,
            !maximizing,
        ).1;
        let (position, best, alpha, beta) = after_reply(
            maximizing,
            from,
            eval,
            position,
            best,
            alpha,
            beta,
        );
        if beta <= alpha {
            (position, best)
        } else {
            scan_outcome(b, depth, alpha, beta, maximizing, from + 1, position, best)
        }
    }
}

/// How a pruned score `v` stands for the plain value `m` under the window
/// (`alpha`, `beta`): exact strictly inside the window, an upper bound on `m`
/// at or below `alpha`, a lower bound on `m` at or above `beta`.
pub open spec fn brackets(v: int, m: int, alpha: int, beta: int) -> bool {
    &&& v <= alpha ==> m <= v
    &&& alpha < v < beta ==> m == v
    &&& beta <= v ==> v <= m
}

/// Cell `p` is empty, the reply on it has the value `v`, and no reply on a
/// lower cell has that value.
pub open spec fn is_first_reply_worth(
    b: Seq<Cell>,
    depth: int,
    maximizing: bool,
    p: int,
    v: int,
) -> bool {
    &&& is_open_at(b, p)
    &&& reply_value(b, depth, maximizing, p) == v
    &&& forall|c: int|
        0 <= c < p && is_open_at(b, c) ==> #[trigger] reply_value(b, depth, maximizing, c) != v
}

/// The cell that a search of `depth` plies with the full window settles on:
/// on a board in progress, the lowest empty cell whose reply has the plain
/// minimax value of the board; at depth 0 or on a finished board, where
/// there is no reply to choose, cell 0.
pub open spec fn is_choice(b: Seq<Cell>, depth: int, maximizing: bool, p: int) -> bool {
    if depth > 0 && status_of(b) == GameStatus::Play {
        is_first_reply_worth(b, depth, maximizing, p, minimax_value(b, depth, maximizing))
    } else {
        p == 0
    }
}

/// A scan passes over taken cells without effect.
proof fn lemma_scan_skips_taken(
    b: Seq<Cell>,
    depth: int,
    alpha: int,
    beta: int,
    maximizing: bool,
    from: int,
    to: int,
    position: int,
    best: int,
)
    requires
        0 <= from <= to <= 9,
        forall|c: int| from <= c < to ==> b[c] != Cell::Empty,
    ensures
        scan_outcome(b, depth, alpha, beta, maximizing, from, position, best) == scan_outcome(
            b,
            depth,
            alpha,
            beta,
            maximizing,
            to,
            position,
            best,
        ),
    decreases to - from,
{
    if from < to && depth > 0 {
        lemma_scan_skips_taken(b, depth, alpha, beta, maximizing, from + 1, to, position, best);
    }
}

/// In a list of children, no empty cell lies before the first move, between
/// two neighbours, or after the last.
proof fn lemma_no_open_cell_between(
    moves: Seq<Move>,
    b: Seq<Cell>,
    player: Cell,
    k: int,
    c: int,
)
    requires
        is_children_of(moves, b, player),
        0 <= k <= moves.len(),
        k > 0 ==> moves[k - 1].position < c,
        k < moves.len() ==> c < moves[k].position,
    ensures
        !is_open_at(b, c),
{
}

/// Searches `board` to `depth` plies within the window (`alpha`, `beta`) for
/// the side given by `maximizing_player`, and returns the best move and its
/// score.
pub fn minimax(
    board: &Board,
    depth: usize,
    alpha: isize,
    beta: isize,
    maximizing_player: bool,
) -> (result: MinimaxResult)
    ensures
        (result.position as int, result.eval as int) == search_outcome(
            board@,
            depth as int,
            alpha as int,
            beta as int,
            maximizing_player,
        ),
        alpha < beta ==> brackets(
            result.eval as int,
            minimax_value(board@, depth as int, maximizing_player),
            alpha as int,
            beta as int,
        ),
        alpha == isize::MIN && beta == isize::MAX ==> result.eval == minimax_value(
            board@,
            depth as int,
            maximizing_player,
        ) && is_choice(board@, depth as int, maximizing_player, result.position as int),
        depth > 0 && status_of(board@) == GameStatus::Play ==> is_open_at(
            board@,
            result.position as int,
        ),
    decreases depth,
{
    proof {
        lemma_search_in_range(
            board@,
            depth as int,
            alpha as int,
            beta as int,
            maximizing_player,
        );
        if alpha < beta {
            lemma_search_brackets_value(
                board@,
                depth as int,
                alpha as int,
                beta as int,
                maximizing_player,
            );
        }
        if alpha == isize::MIN && beta == isize::MAX {
            lemma_pruning_preserves_value(board@, depth as int, maximizing_player);
            if depth > 0 && status_of(board@) == GameStatus::Play {
                lemma_search_picks_first_best(board@, depth as int, maximizing_player);
            }
        }
    }
    if depth == 0 || check_game_over(board) {
        return MinimaxResult { position: 0, eval: evaluate_position(board) };
    }
    let player = if maximizing_player {
        Cell::X
    } else {
        Cell::O
    };
    let children = get_position_children(board, player);
    let mut best: isize = if maximizing_player {
        isize::MIN
    } else {
        isize::MAX
    };
    proof {
        lemma_board_in_progress_has_open_cell(board@);
    }
    let mut position: usize = children[0].position;
    let mut low: isize = alpha;
    let mut high: isize = beta;
    let mut k: usize = 0;
    let ghost total = search_outcome(
        board@,
        depth as int,
        alpha as int,
        beta as int,
        maximizing_player,
    );
    let ghost mut from: int = position as int;
    proof {
        lemma_first_open_cell_is_lowest(board@, from);
        assert forall|c: int| 0 <= c < from implies board@[c] != Cell::Empty by {
            lemma_no_open_cell_between(children@, board@, player, 0, c);
        }
        lemma_scan_skips_taken(
            board@,
            depth as int,
            alpha as int,
            beta as int,
            maximizing_player,
            0,
            from,
            from,
            best as int,
        );
    }
    while k < children.len()
        invariant_except_break
            total == scan_outcome(
                board@,
                depth as int,
                low as int,
                high as int,
                maximizing_player,
                from,
                position as int,
                best as int,
            ),
            k < children.len() ==> from == children[k as int].position,
            k == children.len() ==> from == 9,
        invariant
            depth > 0,
            player == mover(maximizing_player),
            is_children_of(children@, board@, player),
            k <= children.len(),
        ensures
            total == (position as int, best as int),
        decreases children.len() - k,
    {
        let child = children[k];
        let result = minimax(&child.child, depth - 1, low, high, !maximizing_player);
        if maximizing_player {
            if result.eval > best {
                best = result.eval;
                position = child.position;
            }
            if result.eval > low {
                low = result.eval;
            }
        } else {
            if result.eval < best {
                best = result.eval;
                position = child.position;
            }
            if result.eval < high {
                high = result.eval;
            }
        }
        k += 1;
        if high <= low {
            break ;
        }
        proof {
            let next: int = if k == children.len() {
                9
            } else {
                children[k as int].position as int
            };
            assert forall|c: int| from + 1 <= c < next implies board@[c] != Cell::Empty by {
                lemma_no_open_cell_between(children@, board@, player, k as int, c);
            }
            lemma_scan_skips_taken(
                board@,
                depth as int,
                low as int,
                high as int,
                maximizing_player,
                from + 1,
                next,
                position as int,
                best as int,
            );
            from = next;
        }
    }
    MinimaxResult { position, eval: best }
}

/// How many plies the engine looks ahead: its own move and the reply.
pub const SEARCH_DEPTH: usize = 2;

/// The cell that the engine playing `ai` names on board `b`: the position of
/// a search of `SEARCH_DEPTH` plies with the full window, maximizing for X
/// and minimizing otherwise.
pub open spec fn engine_cell(b: Seq<Cell>, ai: Cell) -> int {
    search_outcome(b, SEARCH_DEPTH as int, isize::MIN as int, isize::MAX as int, ai == Cell::X).0
}

/// Picks the cell for the engine playing `ai` on `board`: the position that a
/// search of `SEARCH_DEPTH` plies with the full window returns, maximizing
/// when the engine plays X and minimizing otherwise. On a board in progress
/// that is always an empty cell.
pub fn ai_move(board: &Board, ai: Cell) -> (position: usize)
    ensures
        position as int == engine_cell(board@, ai),
        is_choice(board@, SEARCH_DEPTH as int, ai == Cell::X, position as int),
        status_of(board@) == GameStatus::Play ==> is_open_at(board@, position as int),
        position < 9,
{
    let maximizing = ai == Cell::X;
    proof {
        lemma_search_in_range(
            board@,
            SEARCH_DEPTH as int,
            isize::MIN as int,
            isize::MAX as int,
            maximizing,
        );
    }
    minimax(board, SEARCH_DEPTH, isize::MIN, isize::MAX, maximizing).position
}

} // verus!
