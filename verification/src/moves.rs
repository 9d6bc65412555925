//! Move generation: the cells that the side to move may play, in ascending
//! order.

use vstd::prelude::*;
use crate::board::{Board, Move, ZONE_ANY};
use crate::grid::line_presence;

verus! {

/// Whether `mv` may be played on `b`: the game is not decided, the cell is
/// vacant, and its zone is the active zone or, where any zone may be chosen,
/// a zone that nobody has won.
pub open spec fn legal(b: Board, mv: Move) -> bool {
    &&& mv < 81
    &&& !b.decided()
    &&& b.vacant(mv)
    &&& if b.active() == ZONE_ANY {
        !b.zone_decided(mv / 9)
    } else {
        mv / 9 == b.active()
    }
}

/// The legal moves below `n`, in ascending order.
pub open spec fn legal_below(b: Board, n: int) -> Seq<Move>
    decreases n,
{
    if n <= 0 {
        Seq::empty()
    } else if legal(b, (n - 1) as u64) {
        legal_below(b, n - 1).push((n - 1) as u64)
    } else {
        legal_below(b, n - 1)
    }
}

/// The legal moves of `b`, in ascending order.
pub open spec fn legal_moves(b: Board) -> Seq<Move> {
    legal_below(b, 81)
}

/// `legal_below(b, n)` holds exactly the legal moves below `n`, each once and
/// in ascending order.
pub proof fn lemma_legal_below(b: Board, n: int)
    requires
        0 <= n <= 81,
    ensures
        forall|i: int|
            0 <= i < legal_below(b, n).len() ==> legal(b, #[trigger] legal_below(b, n)[i])
                && legal_below(b, n)[i] < n,
        forall|i: int, j: int|
            0 <= i < j < legal_below(b, n).len() ==> legal_below(b, n)[i] < legal_below(b, n)[j],
        forall|mv: Move| mv < n && legal(b, mv) ==> legal_below(b, n).contains(mv),
        legal_below(b, n).len() <= n,
    decreases n,
{
    if n > 0 {
        lemma_legal_below(b, n - 1);
        let prev = legal_below(b, n - 1);
        let last = (n - 1) as u64;
        let cur = legal_below(b, n);
        assert forall|mv: Move| mv < n && legal(b, mv) implies cur.contains(mv) by {
            if mv == last {
                assert(cur[cur.len() - 1] == mv);
            } else {
                assert(prev.contains(mv));
                let i = choose|i: int| 0 <= i < prev.len() && prev[i] == mv;
                assert(cur[i] == mv);
            }
        }
    }
}

/// Where no move from `lo` up to `hi` is legal, the legal moves below `hi`
/// are those below `lo`.
pub proof fn lemma_legal_below_skip(b: Board, lo: int, hi: int)
    requires
        0 <= lo <= hi <= 81,
        forall|mv: Move| lo <= mv < hi ==> !legal(b, mv),
    ensures
        legal_below(b, hi) == legal_below(b, lo),
    decreases hi - lo,
{
    if lo < hi {
        lemma_legal_below_skip(b, lo, hi - 1);
    }
}

/// Appends the legal moves of `zone` to `moves`.
fn scan_zone(board: &Board, zone: u64, moves: &mut Vec<Move>)
    requires
        zone < 9,
        !board.decided(),
        board.active() == ZONE_ANY || board.active() == zone,
        old(moves)@ == legal_below(*board, 9 * zone),
    ensures
        final(moves)@ == legal_below(*board, 9 * zone + 9),
{
    let won: u64 = board.ownership(false) | board.ownership(true);
    if board.active_zone() == ZONE_ANY && (won >> zone) & 1 == 1 {
        proof {
            lemma_legal_below_skip(*board, 9 * zone, 9 * zone + 9);
        }
        return ;
    }
    let taken: u64 = board.occupancy(false, zone) | board.occupancy(true, zone);
    let mut cell: u64 = 0;
    while cell < 9
        invariant
            zone < 9,
            cell <= 9,
            !board.decided(),
            board.active() == ZONE_ANY ==> !board.zone_decided(zone),
            board.active() != ZONE_ANY ==> board.active() == zone,
            taken == board.grid(false, zone) | board.grid(true, zone),
            moves@ == legal_below(*board, 9 * zone + cell),
        decreases 9 - cell,
    {
        let mv: Move = 9 * zone + cell;
        assert(mv / 9 == zone && mv % 9 == cell);
        if (taken >> cell) & 1 != 1 {
            moves.push(mv);
        }
        cell += 1;
    }
}

/// The legal moves of `board`, in ascending order: none if the game is
/// decided; else the vacant cells of the active zone or, where any zone may be
/// chosen, the vacant cells of the zones that nobody has won.
pub fn generate_moves(board: Board) -> (moves: Vec<Move>)
    requires
        board.wf(),
    ensures
        moves@ == legal_moves(board),
        forall|i: int| 0 <= i < moves@.len() ==> legal(board, #[trigger] moves@[i]),
        forall|i: int, j: int| 0 <= i < j < moves@.len() ==> moves@[i] < moves@[j],
        forall|mv: Move| legal(board, mv) ==> moves@.contains(mv),
        moves@.len() <= 81,
{
    proof {
        lemma_legal_below(board, 81);
    }
    let mut moves: Vec<Move> = Vec::new();
    if line_presence(board.ownership(false)) || line_presence(board.ownership(true)) {
        proof {
            lemma_legal_below_skip(board, 0, 81);
        }
        return moves;
    }
    let zone: u64 = board.active_zone();
    if zone == ZONE_ANY {
        let mut z: u64 = 0;
        while z < 9
            invariant
                z <= 9,
                !board.decided(),
                board.active() == ZONE_ANY,
                moves@ == legal_below(board, 9 * z),
            decreases 9 - z,
        {
            scan_zone(&board, z, &mut moves);
            z += 1;
        }
    } else {
        proof {
            lemma_legal_below_skip(board, 0, 9 * zone);
        }
        scan_zone(&board, zone, &mut moves);
        proof {
            lemma_legal_below_skip(board, 9 * zone + 9, 81);
        }
    }
    moves
}

} // verus!
