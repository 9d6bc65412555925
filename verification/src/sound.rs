//! The boards of legal play: what every board reached from the empty board
//! by legal moves has in common, and what follows for its text.

use vstd::prelude::*;
use crate::bits::{
    lemma_disjoint_ext, lemma_grid_ext, lemma_share_ext, lemma_union_bit, lemma_word_ext,
};
use crate::board::{
    lemma_field_bound_of, lemma_play, lemma_play_exclusive, lemma_start, replay, Board, Move,
};
use crate::encoding::{board_of_text, board_text};
use crate::grid::has_line;
use crate::board::{OUTCOME_LOSS, OUTCOME_WIN};
use crate::moves::{legal, legal_moves, lemma_legal_below_skip};
use crate::tables::{
    lemma_line_sum_bound, lemma_raw_score_bounds, meta_value, lemma_score_bounds, lemma_verdict_of_disjoint,
    lemma_zones_total_bound, score,
};
use crate::round_trip::{lemma_round_trip, wins};

verus! {

/// What legal play keeps true of a board: no cell is claimed by both sides;
/// a side owns a zone exactly if it has a line there, and no zone holds a
/// line of each side; at most one side has a line of won zones; the active
/// zone, if it is a zone, is neither full nor won; and the bits outside the
/// fields are clear.
pub open spec fn sound(b: Board) -> bool {
    &&& b.wf()
    &&& b.exclusive()
    &&& b.slack() == (0u64, 0u64, 0u64)
    &&& forall|s: bool, z: u64| z < 9 ==> #[trigger] b.owns(s, z) == has_line(b.grid(s, z))
    &&& forall|z: u64|
        z < 9 ==> !(has_line(#[trigger] b.grid(false, z)) && has_line(b.grid(true, z)))
    &&& !(has_line(b.meta(false)) && has_line(b.meta(true)))
    &&& b.active() < 9 ==> !b.zone_closed(b.active())
}

/// The empty board is sound.
pub proof fn lemma_start_sound()
    ensures
        sound(Board::start()),
{
    lemma_start();
    let b = Board::start();
    crate::bits::lemma_empty_fields(0);
    crate::grid::lemma_no_line();
    assert forall|s: bool, z: u64| z < 9 implies #[trigger] b.owns(s, z) == has_line(
        b.grid(s, z),
    ) by {
        assert(b.meta(s) == 0);
        assert(b.grid(s, z) == 0);
        crate::bits::lemma_empty_fields(if z < 7 { z } else { 0 });
    }
}

/// A legal move on a sound board leads to a sound board.
pub proof fn lemma_play_sound(b: Board, mv: Move, side: bool)
    requires
        sound(b),
        legal(b, mv),
    ensures
        sound(b.play(mv, side)),
{
    let r = b.play(mv, side);
    let zone = mv / 9;
    let cell = mv % 9;
    lemma_play(b, mv, side);
    lemma_union_bit(b.grid(false, zone), b.grid(true, zone), cell);
    lemma_union_bit(b.meta(false), b.meta(true), zone);
    lemma_play_exclusive(b, mv, side);
    assert(r.grid(side, zone) == b.grid(side, zone) | (1u64 << cell));
    assert(r.grid(!side, zone) == b.grid(!side, zone));
    assert(!b.zone_decided(zone));
    assert(b.owns(side, zone) == has_line(b.grid(side, zone)));
    assert(b.owns(!side, zone) == has_line(b.grid(!side, zone)));
    assert(!has_line(b.grid(!side, zone)));
    assert forall|s: bool, z: u64| z < 9 implies #[trigger] r.owns(s, z) == has_line(
        r.grid(s, z),
    ) by {
        assert(b.owns(s, z) == has_line(b.grid(s, z)));
        lemma_field_bound_of(b, s, z);
        crate::bits::lemma_grid_set(b.meta(s), zone, z);
        assert(r.grid(s, z) == (if s == side && z == zone {
            b.grid(s, z) | (1u64 << cell)
        } else {
            b.grid(s, z)
        }));
    }
    assert forall|z: u64| z < 9 implies !(has_line(#[trigger] r.grid(false, z)) && has_line(
        r.grid(true, z),
    )) by {
        assert(!(has_line(b.grid(false, z)) && has_line(b.grid(true, z))));
        assert(r.grid(false, z) == (if !side && z == zone {
            b.grid(false, z) | (1u64 << cell)
        } else {
            b.grid(false, z)
        }));
        assert(r.grid(true, z) == (if side && z == zone {
            b.grid(true, z) | (1u64 << cell)
        } else {
            b.grid(true, z)
        }));
    }
}

/// On a sound board the two sides own no zone in common.
pub proof fn lemma_owners_apart(b: Board)
    requires
        sound(b),
    ensures
        b.meta(false) & b.meta(true) == 0,
        b.meta(true) & b.meta(false) == 0,
{
    lemma_field_bound_of(b, false, 0);
    lemma_field_bound_of(b, true, 0);
    assert forall|z: u64| z < 9 implies !(b.owns(false, z) && b.owns(true, z)) by {
        assert(b.owns(false, z) == has_line(b.grid(false, z)));
        assert(b.owns(true, z) == has_line(b.grid(true, z)));
        assert(!(has_line(b.grid(false, z)) && has_line(b.grid(true, z))));
    }
    assert(!(b.owns(false, 0) && b.owns(true, 0)));
    assert(!(b.owns(false, 1) && b.owns(true, 1)));
    assert(!(b.owns(false, 2) && b.owns(true, 2)));
    assert(!(b.owns(false, 3) && b.owns(true, 3)));
    assert(!(b.owns(false, 4) && b.owns(true, 4)));
    assert(!(b.owns(false, 5) && b.owns(true, 5)));
    assert(!(b.owns(false, 6) && b.owns(true, 6)));
    assert(!(b.owns(false, 7) && b.owns(true, 7)));
    assert(!(b.owns(false, 8) && b.owns(true, 8)));
    lemma_disjoint_ext(b.meta(false), b.meta(true));
}

/// On a sound board the game is decided exactly if its static evaluation
/// is a win or a loss; the side with a line of won zones scores the win, its
/// opponent the loss, and neither has a move left.
pub proof fn lemma_decided_scores(b: Board, side: bool)
    requires
        sound(b),
    ensures
        b.decided() <==> score(b, side) == OUTCOME_WIN || score(b, side) == OUTCOME_LOSS,
        has_line(b.meta(side)) ==> score(b, side) == OUTCOME_WIN && score(b, !side)
            == OUTCOME_LOSS,
        b.decided() ==> legal_moves(b).len() == 0,
{
    lemma_owners_apart(b);
    lemma_verdict_of_disjoint(b.meta(false), b.meta(true));
    lemma_score_bounds(b.meta(false), b.meta(true));
    lemma_raw_score_bounds(b);
    lemma_zones_total_bound(b, 9);
    if b.decided() {
        lemma_legal_below_skip(b, 0, 81);
    } else {
        lemma_line_sum_bound(b.meta(false), b.meta(true), 8, 90, 20);
        assert(-5445 <= meta_value(b) <= 5445);
    }
}

/// Every move of `moves` is legal on the board that the moves before it
/// lead to from the empty board.
pub open spec fn legal_game(moves: Seq<(Move, bool)>) -> bool
    decreases moves.len(),
{
    moves.len() == 0 || (legal_game(moves.drop_last()) && legal(
        replay(moves.drop_last()),
        moves.last().0,
    ))
}

/// Every board reached from the empty board by legal moves is sound.
pub proof fn lemma_legal_game_sound(moves: Seq<(Move, bool)>)
    requires
        legal_game(moves),
    ensures
        sound(replay(moves)),
    decreases moves.len(),
{
    if moves.len() == 0 {
        lemma_start_sound();
    } else {
        lemma_legal_game_sound(moves.drop_last());
        lemma_play_sound(replay(moves.drop_last()), moves.last().0, moves.last().1);
    }
}

/// Reading the text of a sound board gives that very board.
pub proof fn lemma_sound_round_trip(b: Board)
    requires
        sound(b),
    ensures
        board_of_text(board_text(b)) == Some(b),
{
    lemma_round_trip(b);
    let r = board_of_text(board_text(b))->0;
    assert forall|s: bool| #[trigger] r.meta(s) == b.meta(s) by {
        lemma_field_bound_of(r, s, 0);
        lemma_field_bound_of(b, s, 0);
        assert forall|z: u64| z < 9 implies r.owns(s, z) == b.owns(s, z) by {
            assert(r.owns(s, z) == wins(b, s, z));
            assert(b.owns(s, z) == has_line(b.grid(s, z)));
            assert(!(has_line(b.grid(false, z)) && has_line(b.grid(true, z))));
        }
        assert(r.owns(s, 0) == b.owns(s, 0));
        assert(r.owns(s, 1) == b.owns(s, 1));
        assert(r.owns(s, 2) == b.owns(s, 2));
        assert(r.owns(s, 3) == b.owns(s, 3));
        assert(r.owns(s, 4) == b.owns(s, 4));
        assert(r.owns(s, 5) == b.owns(s, 5));
        assert(r.owns(s, 6) == b.owns(s, 6));
        assert(r.owns(s, 7) == b.owns(s, 7));
        assert(r.owns(s, 8) == b.owns(s, 8));
        lemma_grid_ext(r.meta(s), b.meta(s));
    }
    assert(r.grid(false, 0) == b.grid(false, 0));
    assert(r.grid(false, 1) == b.grid(false, 1));
    assert(r.grid(false, 2) == b.grid(false, 2));
    assert(r.grid(false, 3) == b.grid(false, 3));
    assert(r.grid(false, 4) == b.grid(false, 4));
    assert(r.grid(false, 5) == b.grid(false, 5));
    assert(r.grid(false, 6) == b.grid(false, 6));
    assert(r.grid(false, 7) == b.grid(false, 7));
    assert(r.grid(false, 8) == b.grid(false, 8));
    assert(r.grid(true, 0) == b.grid(true, 0));
    assert(r.grid(true, 1) == b.grid(true, 1));
    assert(r.grid(true, 2) == b.grid(true, 2));
    assert(r.grid(true, 3) == b.grid(true, 3));
    assert(r.grid(true, 4) == b.grid(true, 4));
    assert(r.grid(true, 5) == b.grid(true, 5));
    assert(r.grid(true, 6) == b.grid(true, 6));
    assert(r.grid(true, 7) == b.grid(true, 7));
    assert(r.grid(true, 8) == b.grid(true, 8));
    assert(r.meta(false) == b.meta(false));
    assert(r.meta(true) == b.meta(true));
    lemma_word_ext(r.us, b.us);
    lemma_word_ext(r.them, b.them);
    lemma_share_ext(r.share, b.share);
}

} // verus!
