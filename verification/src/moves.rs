//! The move generator: every way to place one mark on a board.

use vstd::prelude::*;
use crate::board::{
    apply, cells_holding_below, empty_cells, is_full, is_open_at, placed, Board,
};
use crate::enums::Cell;

verus! {

/// One legal move: the cell played and a snapshot of the board after it.
#[derive(Clone, Copy, Debug)]
pub struct Move {
    /// The cell that received the mark.
    pub position: usize,
    /// The board after the mark was placed; an independent copy.
    pub child: Board,
}

/// `moves` lists, in ascending order of cell index and each exactly once, the
/// moves that place a mark of `player` on an empty cell of `b`.
pub open spec fn is_children_of(moves: Seq<Move>, b: Seq<Cell>, player: Cell) -> bool {
    &&& forall|k: int| 0 <= k < moves.len() ==> is_open_at(b, #[trigger] moves[k].position as int)
    &&& forall|k: int|
        0 <= k < moves.len() ==> (#[trigger] moves[k]).child@ == placed(
            b,
            moves[k].position as int,
            player,
        )
    &&& forall|j: int, k: int|
        0 <= j < k < moves.len() ==> (#[trigger] moves[j]).position < (#[trigger] moves[k]).position
    &&& forall|c: int|
        is_open_at(b, c) ==> exists|k: int|
            0 <= k < moves.len() && (#[trigger] moves[k]).position == c
}

/// Lists the moves open to `player` on `board`, lowest cell first. A full
/// board has none.
pub fn get_position_children(board: &Board, player: Cell) -> (moves: Vec<Move>)
    ensures
        is_children_of(moves@, board@, player),
        moves@.len() == empty_cells(board@),
        is_full(board@) ==> moves@.len() == 0,
{
    let mut children: Vec<Move> = Vec::new();
    let mut i: usize = 0;
    while i < 9
        invariant
            i <= 9,
            children@.len() == cells_holding_below(board@, Cell::Empty, i as int),
            forall|k: int|
                0 <= k < children@.len() ==> is_open_at(
                    board@,
                    #[trigger] children@[k].position as int,
                ),
            forall|k: int| 0 <= k < children@.len() ==> (#[trigger] children@[k]).position < i,
            forall|k: int|
                0 <= k < children@.len() ==> (#[trigger] children@[k]).child@ == placed(
                    board@,
                    children@[k].position as int,
                    player,
                ),
            forall|j: int, k: int|
                0 <= j < k < children@.len() ==> (#[trigger] children@[j]).position < (
                #[trigger] children@[k]).position,
            forall|c: int|
                is_open_at(board@, c) && c < i ==> exists|k: int|
                    0 <= k < children@.len() && (#[trigger] children@[k]).position == c,
        decreases 9 - i,
    {
        if board[i] == Cell::Empty {
            let child = apply(board, i, player);
            let ghost before = children@;
            children.push(Move { position: i, child });
            proof {
                assert forall|c: int| is_open_at(board@, c) && c < i + 1 implies exists|k: int|
                    0 <= k < children@.len() && (#[trigger] children@[k]).position == c by {
                    if c < i {
                        let k = choose|k: int|
                            0 <= k < before.len() && (#[trigger] before[k]).position == c;
                        assert(children@[k].position == c);
                    } else {
                        assert(children@[before.len() as int].position == c);
                    }
                }
            }
        }
        i += 1;
    }
    proof {
        if children@.len() > 0 {
            assert(is_open_at(board@, children@[0].position as int));
        }
    }
    children
}

/// In a list of children no cell is played twice, and each child differs
/// from the parent board in the played cell alone.
pub proof fn lemma_children_are_distinct(moves: Seq<Move>, b: Seq<Cell>, player: Cell)
    requires
        b.len() == 9,
        is_children_of(moves, b, player),
    ensures
        forall|j: int, k: int|
            0 <= j < moves.len() && 0 <= k < moves.len() && j != k ==> (#[trigger] moves[j]).position
                != (#[trigger] moves[k]).position,
        forall|k: int, c: int|
            0 <= k < moves.len() && 0 <= c < 9 ==> (#[trigger] moves[k]).child@[c] == if c
                == moves[k].position {
                player
            } else {
                #[trigger] b[c]
            },
{
}

} // verus!
