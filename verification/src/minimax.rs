//! What the search computes: the negamax value of the position, cut off at
//! the bounds of the window.

use vstd::prelude::*;
use crate::board::{Board, MAX_PLY, OUTCOME_LOSS, OUTCOME_WIN};
use crate::moves::legal_moves;
use crate::search::{adjust, search, search_from, settle};
use crate::tables::{lemma_raw_score_bounds, lemma_score_bounds, meta_value, score, toggle};

verus! {

/// The greater of two scores.
pub open spec fn max(a: int, b: int) -> int {
    if a >= b {
        a
    } else {
        b
    }
}

/// `value` cut off at the bounds `alpha` and `beta`.
pub open spec fn clamp(value: int, alpha: int, beta: int) -> int {
    if value <= alpha {
        alpha
    } else if value >= beta {
        beta
    } else {
        value
    }
}

/// The value of `b` for `side` when both sides play `depth` plies as well
/// as they can: at depth 0 the static evaluation, on a position without moves
/// its settled score, and else the best of the values that the legal moves
/// lead to.
pub open spec fn negamax(b: Board, side: bool, depth: nat, max_depth: nat) -> int
    decreases depth, 1int, 0int,
{
    if depth == 0 {
        adjust(score(b, side), max_depth - depth)
    } else if legal_moves(b).len() == 0 {
        settle(toggle(side, meta_value(b)), max_depth - depth)
    } else {
        best_reply(b, side, depth, max_depth, 0)
    }
}

/// The value for `side` of playing the `i`-th legal move of `b`: the
/// negated value of the position reached, for the opponent, one ply less
/// deep.
pub open spec fn reply_value(b: Board, side: bool, depth: nat, max_depth: nat, i: int) -> int
    decreases depth, 0int, 0int,
{
    if depth == 0 || i < 0 || i >= legal_moves(b).len() {
        0
    } else {
        -negamax(b.play(legal_moves(b)[i], side), !side, (depth - 1) as nat, max_depth)
    }
}

/// The greatest of the values of the legal moves of `b` from the `i`-th on.
pub open spec fn best_reply(b: Board, side: bool, depth: nat, max_depth: nat, i: int) -> int
    decreases depth, 0int, legal_moves(b).len() - i + 1,
{
    if depth == 0 || i < 0 || i >= legal_moves(b).len() {
        0
    } else if i == legal_moves(b).len() - 1 {
        reply_value(b, side, depth, max_depth, i)
    } else {
        max(
            reply_value(b, side, depth, max_depth, i),
            best_reply(b, side, depth, max_depth, i + 1),
        )
    }
}

/// A search within a window returns the negamax value of the position, cut
/// off at the bounds of the window wherever the position has moves to try.
pub proof fn lemma_search_is_negamax(
    b: Board,
    side: bool,
    depth: nat,
    alpha: int,
    beta: int,
    max_depth: nat,
)
    requires
        alpha < beta,
    ensures
        search(b, side, depth, alpha, beta, max_depth).0 == (if depth == 0 || legal_moves(b).len()
            == 0 {
            negamax(b, side, depth, max_depth)
        } else {
            clamp(negamax(b, side, depth, max_depth), alpha, beta)
        }),
    decreases depth, 1int, 0int,
{
    if depth > 0 && legal_moves(b).len() > 0 {
        lemma_search_from_is_best(b, side, depth, alpha, beta, max_depth, 0, crate::search::null_line());
    }
}

/// Once the moves before the `i`-th have raised the lower bound to `alpha`,
/// the search returns the best value of the moves that are left, cut off at
/// `alpha` and `beta`.
pub proof fn lemma_search_from_is_best(
    b: Board,
    side: bool,
    depth: nat,
    alpha: int,
    beta: int,
    max_depth: nat,
    i: int,
    pv: Seq<crate::board::Move>,
)
    requires
        depth > 0,
        0 <= i <= legal_moves(b).len(),
        alpha < beta,
    ensures
        search_from(b, side, depth, alpha, beta, max_depth, i, pv).0 == (if i == legal_moves(
            b,
        ).len() {
            alpha
        } else {
            clamp(best_reply(b, side, depth, max_depth, i), alpha, beta)
        }),
    decreases depth, 0int, legal_moves(b).len() - i,
{
    let moves = legal_moves(b);
    if i < moves.len() {
        let mv = moves[i];
        let next = b.play(mv, side);
        let below = (depth - 1) as nat;
        lemma_search_is_negamax(next, !side, below, -beta, -alpha, max_depth);
        let child = search(next, !side, below, -beta, -alpha, max_depth);
        let eval = -child.0;
        let line = child.1.update(max_depth - depth, mv);
        let value = reply_value(b, side, depth, max_depth, i);
        assert(value == -negamax(next, !side, below, max_depth));
        assert(clamp(eval, alpha, beta) == clamp(value, alpha, beta));
        if eval >= beta {
        } else if eval > alpha {
            lemma_search_from_is_best(b, side, depth, eval, beta, max_depth, i + 1, line);
        } else {
            lemma_search_from_is_best(b, side, depth, alpha, beta, max_depth, i + 1, pv);
        }
    }
}

/// The negamax value of a position lies between a loss and a win.
pub proof fn lemma_negamax_bounds(b: Board, side: bool, depth: nat, max_depth: nat)
    requires
        depth <= max_depth <= MAX_PLY,
    ensures
        OUTCOME_LOSS <= negamax(b, side, depth, max_depth) <= OUTCOME_WIN,
    decreases depth, 1int, 0int,
{
    lemma_raw_score_bounds(b);
    lemma_score_bounds(b.meta(false), b.meta(true));
    if depth > 0 && legal_moves(b).len() > 0 {
        lemma_best_reply_bounds(b, side, depth, max_depth, 0);
    }
}

/// The best value of the moves that are left lies between a loss and a win.
pub proof fn lemma_best_reply_bounds(b: Board, side: bool, depth: nat, max_depth: nat, i: int)
    requires
        0 < depth <= max_depth <= MAX_PLY,
        0 <= i < legal_moves(b).len(),
    ensures
        OUTCOME_LOSS <= best_reply(b, side, depth, max_depth, i) <= OUTCOME_WIN,
    decreases depth, 0int, legal_moves(b).len() - i,
{
    let moves = legal_moves(b);
    lemma_negamax_bounds(b.play(moves[i], side), !side, (depth - 1) as nat, max_depth);
    assert(reply_value(b, side, depth, max_depth, i) == -negamax(
        b.play(moves[i], side),
        !side,
        (depth - 1) as nat,
        max_depth,
    ));
    if i < moves.len() - 1 {
        lemma_best_reply_bounds(b, side, depth, max_depth, i + 1);
    }
}

/// A search over the whole range of scores returns the negamax value of the
/// position.
pub proof fn lemma_full_window(b: Board, side: bool, depth: nat, max_depth: nat)
    requires
        depth <= max_depth <= MAX_PLY,
    ensures
        search(b, side, depth, OUTCOME_LOSS as int, OUTCOME_WIN as int, max_depth).0 == negamax(
            b,
            side,
            depth,
            max_depth,
        ),
{
    lemma_search_is_negamax(b, side, depth, OUTCOME_LOSS as int, OUTCOME_WIN as int, max_depth);
    lemma_negamax_bounds(b, side, depth, max_depth);
}

} // verus!
