//! Fixed-depth negamax search with alpha-beta pruning and a principal
//! variation.

use vstd::prelude::*;
use crate::board::{
    play_move, Board, Eval, Move, MAX_PLY, NULL_MOVE, OUTCOME_DRAW, OUTCOME_LOSS, OUTCOME_WIN,
};
use crate::moves::{generate_moves, legal, legal_moves};
use crate::tables::{evaluate, meta_value, score, toggle, toggle_eval, LookupTables};

verus! {

/// A principal variation that holds no move.
pub open spec fn null_line() -> Seq<Move> {
    Seq::new(MAX_PLY as nat, |i: int| NULL_MOVE)
}

/// A score at the search horizon, `plies` plies below the root: a win counts
/// less and a loss counts less badly the further away it is.
pub open spec fn adjust(eval: int, plies: int) -> int {
    if eval == OUTCOME_WIN {
        eval - plies
    } else if eval == OUTCOME_LOSS {
        eval + plies
    } else {
        eval
    }
}

/// The score of a position without legal moves, `plies` plies below the
/// root: a win or a loss as `adjust` gives it, and a draw otherwise.
pub open spec fn settle(eval: int, plies: int) -> int {
    if eval == OUTCOME_WIN {
        eval - plies
    } else if eval == OUTCOME_LOSS {
        eval + plies
    } else {
        OUTCOME_DRAW as int
    }
}

/// The least score that a search with the window `alpha`, `beta` returns.
pub open spec fn floor(alpha: int, beta: int) -> int {
    if alpha <= beta && alpha <= OUTCOME_LOSS {
        alpha
    } else if beta <= OUTCOME_LOSS {
        beta
    } else {
        OUTCOME_LOSS as int
    }
}

/// The greatest score that a search with the window `alpha`, `beta` returns.
pub open spec fn ceiling(alpha: int, beta: int) -> int {
    if alpha >= beta && alpha >= OUTCOME_WIN {
        alpha
    } else if beta >= OUTCOME_WIN {
        beta
    } else {
        OUTCOME_WIN as int
    }
}

/// The score and principal variation of `b` for `side`, searched `depth`
/// plies deep within the window `alpha`, `beta`, where the root of the search
/// lies `max_depth - depth` plies above.
///
/// At depth 0 the result is the static evaluation, and on a position without
/// moves the settled score of the board of zones, each with an empty line.
/// Otherwise the moves are tried in ascending order, as `search_from` says.
pub open spec fn search(
    b: Board,
    side: bool,
    depth: nat,
    alpha: int,
    beta: int,
    max_depth: nat,
) -> (int, Seq<Move>)
    decreases depth, 1int, 0int,
{
    if depth == 0 {
        (adjust(score(b, side), max_depth - depth), null_line())
    } else if legal_moves(b).len() == 0 {
        (settle(toggle(side, meta_value(b)), max_depth - depth), null_line())
    } else {
        search_from(b, side, depth, alpha, beta, max_depth, 0, null_line())
    }
}

/// The result of the search of `b` once the legal moves before the `i`-th
/// have raised the lower bound to `alpha` and left the line `pv`.
///
/// Each remaining move is searched one ply less deep for the other side,
/// within the negated window, and its score negated. A score of `beta` or
/// more ends the search with `beta` and that move's line. A score above
/// `alpha` becomes the new `alpha`, and that move's line the new `pv`. When
/// no move is left the result is `alpha` and `pv`.
pub open spec fn search_from(
    b: Board,
    side: bool,
    depth: nat,
    alpha: int,
    beta: int,
    max_depth: nat,
    i: int,
    pv: Seq<Move>,
) -> (int, Seq<Move>)
    decreases depth, 0int, legal_moves(b).len() - i,
{
    let moves = legal_moves(b);
    if depth == 0 || i < 0 || i >= moves.len() {
        (alpha, pv)
    } else {
        let mv = moves[i];
        let child = search(b.play(mv, side), !side, (depth - 1) as nat, -beta, -alpha, max_depth);
        let eval = -child.0;
        let line = child.1.update(max_depth - depth, mv);
        if eval >= beta {
            (beta, line)
        } else if eval > alpha {
            search_from(b, side, depth, eval, beta, max_depth, i + 1, line)
        } else {
            search_from(b, side, depth, alpha, beta, max_depth, i + 1, pv)
        }
    }
}

/// Searches `board` for `side`, `depth` plies deep within the window `alpha`,
/// `beta`; `max_depth` is the depth at the root. Returns the score and the
/// principal variation, whose unused slots hold `NULL_MOVE`.
pub fn alpha_beta(
    board: Board,
    side: bool,
    depth: usize,
    alpha: Eval,
    beta: Eval,
    tables: &LookupTables,
    max_depth: usize,
) -> (r: (Eval, [Move; MAX_PLY]))
    requires
        board.wf(),
        depth <= max_depth <= MAX_PLY,
        alpha > Eval::MIN,
        beta > Eval::MIN,
    ensures
        r.0 == search(board, side, depth as nat, alpha as int, beta as int, max_depth as nat).0,
        r.1@ == search(board, side, depth as nat, alpha as int, beta as int, max_depth as nat).1,
        floor(alpha as int, beta as int) <= r.0 <= ceiling(alpha as int, beta as int),
        forall|k: int| 0 <= k < MAX_PLY ==> #[trigger] r.1@[k] <= NULL_MOVE,
    decreases depth,
{
    let empty_line: [Move; MAX_PLY] = [NULL_MOVE;MAX_PLY];
    assert(empty_line@ == null_line());
    if depth == 0 {
        let eval: Eval = evaluate(board, side, tables);
        let adjusted_eval: Eval = if eval == OUTCOME_WIN {
            eval - (max_depth - depth) as Eval
        } else if eval == OUTCOME_LOSS {
            eval + (max_depth - depth) as Eval
        } else {
            eval
        };
        return (adjusted_eval, empty_line);
    }
    let moves: Vec<Move> = generate_moves(board);
    if moves.len() == 0 {
        let raw: Eval = tables.meta_entry(board.ownership(false), board.ownership(true));
        proof {
            crate::tables::lemma_score_bounds(board.meta(false), board.meta(true));
        }
        let eval: Eval = toggle_eval(side, raw);
        let adjusted_eval: Eval = if eval == OUTCOME_WIN {
            eval - (max_depth - depth) as Eval
        } else if eval == OUTCOME_LOSS {
            eval + (max_depth - depth) as Eval
        } else {
            OUTCOME_DRAW
        };
        return (adjusted_eval, empty_line);
    }
    let mut best: Eval = alpha;
    let mut pv: [Move; MAX_PLY] = empty_line;
    let mut i: usize = 0;
    while i < moves.len()
        invariant
            0 < depth <= max_depth <= MAX_PLY,
            i <= moves.len(),
            moves@ == legal_moves(board),
            forall|k: int| 0 <= k < moves@.len() ==> legal(board, #[trigger] moves@[k]),
            best > Eval::MIN,
            beta > Eval::MIN,
            forall|k: int| 0 <= k < MAX_PLY ==> #[trigger] pv@[k] <= NULL_MOVE,
            floor(alpha as int, beta as int) <= best <= ceiling(alpha as int, beta as int),
            search_from(
                board,
                side,
                depth as nat,
                best as int,
                beta as int,
                max_depth as nat,
                i as int,
                pv@,
            ) == search(board, side, depth as nat, alpha as int, beta as int, max_depth as nat),
        decreases moves.len() - i,
    {
        let mv: Move = moves[i];
        assert(legal(board, moves@[i as int]));
        proof {
            crate::board::lemma_play(board, mv, side);
        }
        let child = alpha_beta(
            play_move(board, mv, side),
            !side,
            depth - 1,
            -beta,
            -best,
            tables,
            max_depth,
        );
        let eval: Eval = -child.0;
        let mut line: [Move; MAX_PLY] = child.1;
        line[max_depth - depth] = mv;
        if eval >= beta {
            return (beta, line);
        } else if eval > best {
            best = eval;
            pv = line;
        }
        i += 1;
    }
    (best, pv)
}

/// At depth 0 a search returns the static evaluation, unless that is a win
/// or a loss seen from below the root.
pub proof fn lemma_search_at_horizon(b: Board, side: bool, alpha: int, beta: int, max_depth: nat)
    ensures
        score(b, side) != OUTCOME_WIN && score(b, side) != OUTCOME_LOSS ==> search(
            b,
            side,
            0,
            alpha,
            beta,
            max_depth,
        ).0 == score(b, side),
        search(b, side, 0, alpha, beta, 0).0 == score(b, side),
{
}

/// On a board without legal moves on which the opponent of `side` has won
/// the board of zones, a search returns a loss, less the distance to the
/// root.
pub proof fn lemma_search_lost(
    b: Board,
    side: bool,
    depth: nat,
    alpha: int,
    beta: int,
    max_depth: nat,
)
    requires
        legal_moves(b).len() == 0,
        toggle(side, meta_value(b)) == OUTCOME_LOSS,
    ensures
        search(b, side, depth, alpha, beta, max_depth).0 == OUTCOME_LOSS + (max_depth - depth),
{
}

} // verus!
