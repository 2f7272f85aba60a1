//! Why pruning is safe: the pruned search returns the plain minimax value,
//! or a bound on the right side of it, and with the full window it settles on
//! the first of the best replies.

use vstd::prelude::*;
use crate::board::{
    first_open_cell, is_open_at, lemma_board_in_progress_has_open_cell,
    lemma_first_open_cell_is_lowest, placed, status_of,
};
use crate::enums::{Cell, GameStatus};
use crate::evaluate::lemma_score_in_range;
use crate::search::{
    after_reply, best_reply_below, brackets, is_first_reply_worth, minimax_value, mover,
    reply_value, scan_outcome, search_outcome, worst_for,
};

verus! {

/// What a scan has established when it reaches cell `from` without a
/// cut-off, having started with the window (`alpha0`, `beta0`): the mover's
/// side of the window has followed the best score, and the best score stands
/// for the best plain value among the replies below `from`.
spec fn scan_state(
    b: Seq<Cell>,
    depth: int,
    alpha0: int,
    beta0: int,
    alpha: int,
    beta: int,
    maximizing: bool,
    from: int,
    best: int,
) -> bool {
    let seen = best_reply_below(b, depth, maximizing, from);
    if maximizing {
        &&& beta == beta0
        &&& alpha == if best > alpha0 { best } else { alpha0 }
        &&& best <= alpha0 ==> seen <= best
        &&& best > alpha0 ==> seen == best
    } else {
        &&& alpha == alpha0
        &&& beta == if best < beta0 { best } else { beta0 }
        &&& best >= beta0 ==> seen >= best
        &&& best < beta0 ==> seen == best
    }
}

/// What a scan with the full window has established when it reaches cell
/// `from`: the best score is the best plain value among the replies below
/// `from`, the mover's side of the window equals it, and the position is the
/// first reply of that value, or still the lowest empty cell where no reply
/// has improved on the worst score.
spec fn full_scan_state(
    b: Seq<Cell>,
    depth: int,
    alpha: int,
    beta: int,
    maximizing: bool,
    from: int,
    position: int,
    best: int,
) -> bool {
    &&& best == best_reply_below(b, depth, maximizing, from)
    &&& alpha == if maximizing { best } else { isize::MIN as int }
    &&& beta == if maximizing { isize::MAX as int } else { best }
    &&& alpha < beta
    &&& best == worst_for(maximizing) ==> position == first_open_cell(b)
    &&& best != worst_for(maximizing) ==> position < from && is_first_reply_worth(
        b,
        depth,
        maximizing,
        position,
        best,
    )
}

/// Every plain minimax value is a value of `isize`.
pub proof fn lemma_minimax_value_in_range(b: Seq<Cell>, depth: int, maximizing: bool)
    ensures
        isize::MIN <= minimax_value(b, depth, maximizing) <= isize::MAX,
    decreases depth, 10int,
{
    lemma_score_in_range(b);
    if depth > 0 && status_of(b) == GameStatus::Play {
        lemma_best_reply_in_range(b, depth, maximizing, 9);
    }
}

/// The best value among the replies below `upto` is a value of `isize`.
proof fn lemma_best_reply_in_range(b: Seq<Cell>, depth: int, maximizing: bool, upto: int)
    ensures
        isize::MIN <= best_reply_below(b, depth, maximizing, upto) <= isize::MAX,
    decreases depth, upto,
{
    if depth > 0 && upto > 0 {
        lemma_best_reply_in_range(b, depth, maximizing, upto - 1);
        if b[upto - 1] == Cell::Empty {
            lemma_minimax_value_in_range(
                placed(b, upto - 1, mover(maximizing)),
                depth - 1,
                !maximizing,
            );
        }
    }
}

/// The pruned search returns a cell index and a value of `isize`, whatever
/// the window; where it looks at replies, on a board in progress at a depth
/// above 0, the cell is empty.
pub proof fn lemma_search_in_range(
    b: Seq<Cell>,
    depth: int,
    alpha: int,
    beta: int,
    maximizing: bool,
)
    ensures
        0 <= search_outcome(b, depth, alpha, beta, maximizing).0 < 9,
        isize::MIN <= search_outcome(b, depth, alpha, beta, maximizing).1 <= isize::MAX,
        depth > 0 && status_of(b) == GameStatus::Play ==> is_open_at(
            b,
            search_outcome(b, depth, alpha, beta, maximizing).0,
        ),
    decreases depth, 10int,
{
    lemma_score_in_range(b);
    if depth > 0 && status_of(b) == GameStatus::Play {
        lemma_board_in_progress_has_open_cell(b);
        lemma_scan_in_range(
            b,
            depth,
            alpha,
            beta,
            maximizing,
            0,
            first_open_cell(b),
            worst_for(maximizing),
        );
    }
}

/// A scan that starts from an empty cell and a value of `isize` ends with
/// such.
proof fn lemma_scan_in_range(
    b: Seq<Cell>,
    depth: int,
    alpha: int,
    beta: int,
    maximizing: bool,
    from: int,
    position: int,
    best: int,
)
    requires
        is_open_at(b, position),
        isize::MIN <= best <= isize::MAX,
    ensures
        is_open_at(b, scan_outcome(b, depth, alpha, beta, maximizing, from, position, best).0),
        isize::MIN <= scan_outcome(b, depth, alpha, beta, maximizing, from, position, best).1
            <= isize::MAX,
    decreases depth, 9 - from,
{
    if depth > 0 && 0 <= from < 9 {
        if b[from] != Cell::Empty {
            lemma_scan_in_range(b, depth, alpha, beta, maximizing, from + 1, position, best);
        } else {
            let child = placed(b, from, mover(maximizing));
            lemma_search_in_range(child, depth - 1, alpha, beta, !maximizing);
            let eval = search_outcome(child, depth - 1, alpha, beta, !maximizing).1;
            let (position2, best2, alpha2, beta2) = after_reply(
                maximizing,
                from,
                eval,
                position,
                best,
                alpha,
                beta,
            );
            if beta2 > alpha2 {
                lemma_scan_in_range(
                    b,
                    depth,
                    alpha2,
                    beta2,
                    maximizing,
                    from + 1,
                    position2,
                    best2,
                );
            }
        }
    }
}

/// Looking at more cells can only improve the best reply for the side to
/// move.
proof fn lemma_best_reply_monotone(
    b: Seq<Cell>,
    depth: int,
    maximizing: bool,
    fewer: int,
    more: int,
)
    requires
        fewer <= more,
    ensures
        maximizing ==> best_reply_below(b, depth, maximizing, fewer) <= best_reply_below(
            b,
            depth,
            maximizing,
            more,
        ),
        !maximizing ==> best_reply_below(b, depth, maximizing, fewer) >= best_reply_below(
            b,
            depth,
            maximizing,
            more,
        ),
    decreases more - fewer,
{
    if fewer < more {
        lemma_best_reply_monotone(b, depth, maximizing, fewer, more - 1);
        if depth > 0 && more > 0 {
        } else {
            lemma_best_reply_in_range(b, depth, maximizing, fewer);
        }
    }
}

/// No reply on an empty cell below `upto` is better for the side to move than
/// the best among them.
proof fn lemma_best_reply_dominates(
    b: Seq<Cell>,
    depth: int,
    maximizing: bool,
    upto: int,
    c: int,
)
    requires
        depth > 0,
        0 <= c < upto,
        b[c] == Cell::Empty,
    ensures
        maximizing ==> reply_value(b, depth, maximizing, c) <= best_reply_below(
            b,
            depth,
            maximizing,
            upto,
        ),
        !maximizing ==> reply_value(b, depth, maximizing, c) >= best_reply_below(
            b,
            depth,
            maximizing,
            upto,
        ),
    decreases upto,
{
    if c < upto - 1 {
        lemma_best_reply_dominates(b, depth, maximizing, upto - 1, c);
    }
}

/// The pruned search within a window (`alpha`, `beta`) returns a score that
/// stands for the plain minimax value of the same depth: the same value when
/// it falls strictly inside the window, and a bound on the right side of it
/// when it does not.
pub proof fn lemma_search_brackets_value(
    b: Seq<Cell>,
    depth: int,
    alpha: int,
    beta: int,
    maximizing: bool,
)
    requires
        isize::MIN <= alpha < beta <= isize::MAX,
    ensures
        brackets(
            search_outcome(b, depth, alpha, beta, maximizing).1,
            minimax_value(b, depth, maximizing),
            alpha,
            beta,
        ),
    decreases depth, 10int,
{
    if depth > 0 && status_of(b) == GameStatus::Play {
        lemma_scan_brackets_value(
            b,
            depth,
            alpha,
            beta,
            alpha,
            beta,
            maximizing,
            0,
            first_open_cell(b),
            worst_for(maximizing),
        );
    }
}

/// A scan that has kept its state up to cell `from` ends with a score that
/// stands for the best plain value among all replies, under the window it
/// started with.
proof fn lemma_scan_brackets_value(
    b: Seq<Cell>,
    depth: int,
    alpha0: int,
    beta0: int,
    alpha: int,
    beta: int,
    maximizing: bool,
    from: int,
    position: int,
    best: int,
)
    requires
        depth > 0,
        0 <= from <= 9,
        isize::MIN <= alpha0 < beta0 <= isize::MAX,
        isize::MIN <= best <= isize::MAX,
        alpha < beta,
        scan_state(b, depth, alpha0, beta0, alpha, beta, maximizing, from, best),
    ensures
        brackets(
            scan_outcome(b, depth, alpha, beta, maximizing, from, position, best).1,
            best_reply_below(b, depth, maximizing, 9),
            alpha0,
            beta0,
        ),
    decreases depth, 9 - from,
{
    if from < 9 {
        if b[from] != Cell::Empty {
            lemma_scan_brackets_value(
                b,
                depth,
                alpha0,
                beta0,
                alpha,
                beta,
                maximizing,
                from + 1,
                position,
                best,
            );
        } else {
            let child = placed(b, from, mover(maximizing));
            lemma_search_brackets_value(child, depth - 1, alpha, beta, !maximizing);
            lemma_search_in_range(child, depth - 1, alpha, beta, !maximizing);
            let eval = search_outcome(child, depth - 1, alpha, beta, !maximizing).1;
            let (position2, best2, alpha2, beta2) = after_reply(
                maximizing,
                from,
                eval,
                position,
                best,
                alpha,
                beta,
            );
            if beta2 <= alpha2 {
                lemma_best_reply_monotone(b, depth, maximizing, from + 1, 9);
            } else {
                lemma_scan_brackets_value(
                    b,
                    depth,
                    alpha0,
                    beta0,
                    alpha2,
                    beta2,
                    maximizing,
                    from + 1,
                    position2,
                    best2,
                );
            }
        }
    }
}

/// Pruning never changes the score: searched with the full window, a board
/// gets exactly the plain minimax value of the same depth.
pub proof fn lemma_pruning_preserves_value(b: Seq<Cell>, depth: int, maximizing: bool)
    ensures
        search_outcome(b, depth, isize::MIN as int, isize::MAX as int, maximizing).1
            == minimax_value(b, depth, maximizing),
{
    lemma_search_brackets_value(b, depth, isize::MIN as int, isize::MAX as int, maximizing);
    lemma_search_in_range(b, depth, isize::MIN as int, isize::MAX as int, maximizing);
    lemma_minimax_value_in_range(b, depth, maximizing);
}

/// Searched with the full window, a board in progress gets the first of its
/// best replies: the lowest empty cell whose reply has the plain minimax
/// value of the board. Where every reply is lost, that is the lowest empty
/// cell.
pub proof fn lemma_search_picks_first_best(b: Seq<Cell>, depth: int, maximizing: bool)
    requires
        depth > 0,
        status_of(b) == GameStatus::Play,
    ensures
        ({
            let (p, v) = search_outcome(
                b,
                depth,
                isize::MIN as int,
                isize::MAX as int,
                maximizing,
            );
            &&& v == minimax_value(b, depth, maximizing)
            &&& is_first_reply_worth(b, depth, maximizing, p, v)
        }),
{
    lemma_full_scan_picks_first_best(
        b,
        depth,
        isize::MIN as int,
        isize::MAX as int,
        maximizing,
        0,
        first_open_cell(b),
        worst_for(maximizing),
    );
}

/// A scan with the full window that has kept its state up to cell `from` ends
/// with the best plain value among all replies and with the first reply of
/// that value.
proof fn lemma_full_scan_picks_first_best(
    b: Seq<Cell>,
    depth: int,
    alpha: int,
    beta: int,
    maximizing: bool,
    from: int,
    position: int,
    best: int,
)
    requires
        depth > 0,
        0 <= from <= 9,
        status_of(b) == GameStatus::Play,
        full_scan_state(b, depth, alpha, beta, maximizing, from, position, best),
    ensures
        ({
            let (p, v) = scan_outcome(b, depth, alpha, beta, maximizing, from, position, best);
            &&& v == best_reply_below(b, depth, maximizing, 9)
            &&& is_first_reply_worth(b, depth, maximizing, p, v)
        }),
    decreases 9 - from,
{
    lemma_best_reply_in_range(b, depth, maximizing, from);
    if from >= 9 {
        if best == worst_for(maximizing) {
            lemma_board_in_progress_has_open_cell(b);
            lemma_best_reply_dominates(b, depth, maximizing, 9, position);
            lemma_minimax_value_in_range(
                placed(b, position, mover(maximizing)),
                depth - 1,
                !maximizing,
            );
            assert forall|c: int| 0 <= c < position && is_open_at(b, c) implies #[trigger] reply_value(
                b,
                depth,
                maximizing,
                c,
            ) != best by {
                lemma_first_open_cell_is_lowest(b, c);
            }
        }
    } else {
        if b[from] != Cell::Empty {
            lemma_full_scan_picks_first_best(
                b,
                depth,
                alpha,
                beta,
                maximizing,
                from + 1,
                position,
                best,
            );
        } else {
            let child = placed(b, from, mover(maximizing));
            lemma_search_brackets_value(child, depth - 1, alpha, beta, !maximizing);
            lemma_search_in_range(child, depth - 1, alpha, beta, !maximizing);
            lemma_minimax_value_in_range(child, depth - 1, !maximizing);
            let eval = search_outcome(child, depth - 1, alpha, beta, !maximizing).1;
            let (position2, best2, alpha2, beta2) = after_reply(
                maximizing,
                from,
                eval,
                position,
                best,
                alpha,
                beta,
            );
            if best2 != best {
                assert forall|c: int| 0 <= c < from && is_open_at(b, c) implies #[trigger] reply_value(
                    b,
                    depth,
                    maximizing,
                    c,
                ) != eval by {
                    lemma_best_reply_dominates(b, depth, maximizing, from, c);
                }
            }
            if beta2 <= alpha2 {
                lemma_best_reply_monotone(b, depth, maximizing, from + 1, 9);
                lemma_best_reply_in_range(b, depth, maximizing, 9);
            } else {
                lemma_full_scan_picks_first_best(
                    b,
                    depth,
                    alpha2,
                    beta2,
                    maximizing,
                    from + 1,
                    position2,
                    best2,
                );
            }
        }
    }
}

} // verus!
