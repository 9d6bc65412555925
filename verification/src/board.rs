//! The board: three packed words, read through the cells, zone owners and
//! active zone that they encode.
//!
//! `us` and `them` hold the marks of the first and of the second player in
//! zones 0 to 6, one nine-bit field per zone. `share` holds, field by field,
//! the first player's marks in zones 7 and 8, the second player's marks in
//! zones 7 and 8, the zones the first player has won, the zones the second
//! player has won, and in its top field the active zone. A side is named by a
//! `bool`: `false` is the first player, `true` the second.

use vstd::prelude::*;
use crate::bits::{
    field, lemma_disjoint_set, lemma_empty_fields, lemma_field_bound, lemma_field_set,
    lemma_grid_set, lemma_top_field_set, lemma_union_bit, read_field,
};
use crate::grid::{bit, has_line, line_presence, CHUNK};

verus! {

/// A cell index in `0..81`: nine times the zone plus the cell within the zone.
pub type Move = u64;

/// A signed evaluation score.
pub type Eval = i32;

/// The score of a won game.
pub const OUTCOME_WIN: Eval = 1000000;

/// The score of a drawn game.
pub const OUTCOME_DRAW: Eval = 0;

/// The score of a lost game.
pub const OUTCOME_LOSS: Eval = -1000000;

/// The active-zone value that lets the player to move choose any open zone.
pub const ZONE_ANY: u64 = 9;

/// The move that fills the unused slots of a principal variation.
pub const NULL_MOVE: Move = 81;

/// The greatest search depth, and the length of a principal variation.
pub const MAX_PLY: usize = 32;

/// Everything in `share` but the active-zone field.
pub const EXCLZONE: u64 = 0xfc3f_ffff_ffff_ffff;

/// A position: the marks of both sides, the owners of the zones, and the
/// active zone, packed into three words.
#[derive(Clone, Copy, Debug, PartialEq, Eq, Structural)]
pub struct Board {
    pub us: u64,
    pub them: u64,
    pub share: u64,
}

impl Board {
    /// The marks of `side` in `zone`, as a nine-bit grid.
    pub open spec fn grid(self, side: bool, zone: u64) -> u64 {
        if zone < 7 {
            field(if side { self.them } else { self.us }, zone)
        } else {
            field(self.share, (zone - 7 + if side { 2int } else { 0int }) as u64)
        }
    }

    /// The zones that `side` has won, as a nine-bit grid.
    pub open spec fn meta(self, side: bool) -> u64 {
        field(self.share, if side { 5 } else { 4 })
    }

    /// The active zone: 0 to 8 for a zone, 9 for any.
    pub open spec fn active(self) -> u64 {
        (self.share >> 54) & 0b1111
    }

    /// Whether `side` holds the cell that `mv` names.
    pub open spec fn has(self, side: bool, mv: Move) -> bool {
        bit(self.grid(side, mv / 9), mv % 9)
    }

    /// Whether neither side holds the cell that `mv` names.
    pub open spec fn vacant(self, mv: Move) -> bool {
        !bit(self.grid(false, mv / 9) | self.grid(true, mv / 9), mv % 9)
    }

    /// Whether `side` has won `zone`.
    pub open spec fn owns(self, side: bool, zone: u64) -> bool {
        bit(self.meta(side), zone)
    }

    /// Whether either side has won `zone`.
    pub open spec fn zone_decided(self, zone: u64) -> bool {
        bit(self.meta(false) | self.meta(true), zone)
    }

    /// Whether every cell of `zone` is taken.
    pub open spec fn zone_full(self, zone: u64) -> bool {
        self.grid(false, zone) | self.grid(true, zone) == CHUNK
    }

    /// Whether no further move may be sent into `zone`.
    pub open spec fn zone_closed(self, zone: u64) -> bool {
        self.zone_full(zone) || self.zone_decided(zone)
    }

    /// Whether either side has three won zones in a line.
    pub open spec fn decided(self) -> bool {
        has_line(self.meta(false)) || has_line(self.meta(true))
    }

    /// The active-zone field holds a zone or `ZONE_ANY`.
    pub open spec fn wf(self) -> bool {
        self.active() <= ZONE_ANY
    }

    /// The bits of the three words that belong to no field.
    pub open spec fn slack(self) -> (u64, u64, u64) {
        (self.us >> 63, self.them >> 63, self.share >> 58)
    }

    /// The cells of `zone` that both sides claim.
    pub open spec fn overlap(self, zone: u64) -> u64 {
        self.grid(false, zone) & self.grid(true, zone)
    }

    /// No cell is claimed by both sides.
    pub open spec fn exclusive(self) -> bool {
        forall|zone: u64| zone < 9 ==> #[trigger] self.overlap(zone) == 0
    }

    /// The board with cell `cell` of `zone` marked for `side`.
    pub open spec fn mark(self, side: bool, zone: u64, cell: u64) -> Board {
        if zone < 7 {
            if side {
                Board { them: self.them | (1u64 << ((9 * zone + cell) as u64)), ..self }
            } else {
                Board { us: self.us | (1u64 << ((9 * zone + cell) as u64)), ..self }
            }
        } else {
            let j = (zone - 7 + if side { 2int } else { 0int }) as u64;
            Board { share: self.share | (1u64 << ((9 * j + cell) as u64)), ..self }
        }
    }

    /// The board with `zone` recorded as won by `side`.
    pub open spec fn claim(self, side: bool, zone: u64) -> Board {
        let j: u64 = if side { 5 } else { 4 };
        Board { share: self.share | (1u64 << ((9 * j + zone) as u64)), ..self }
    }

    /// The board with its active zone set to `zone`.
    pub open spec fn aim(self, zone: u64) -> Board {
        Board { share: (self.share & EXCLZONE) | (zone << 54), ..self }
    }

    /// The board after `side` plays `mv`: the cell is marked; the zone is
    /// recorded as won if the mover now has a line in it; and the opponent is
    /// sent to the zone that the cell points at, or anywhere if that zone is
    /// closed.
    pub open spec fn play(self, mv: Move, side: bool) -> Board {
        let marked = self.mark(side, mv / 9, mv % 9);
        let claimed = if has_line(marked.grid(side, mv / 9)) {
            marked.claim(side, mv / 9)
        } else {
            marked
        };
        claimed.aim(
            if claimed.zone_closed(mv % 9) {
                ZONE_ANY
            } else {
                mv % 9
            },
        )
    }

    /// The board before the first move.
    pub open spec fn start() -> Board {
        Board { us: 0, them: 0, share: ZONE_ANY << 54 }
    }

    /// The empty board, on which any zone may be played.
    pub fn empty() -> (b: Board)
        ensures
            b == Board::start(),
    {
        Board { us: 0, them: 0, share: ZONE_ANY << 54 }
    }

    /// The marks of `side` in `zone`.
    pub fn occupancy(&self, side: bool, zone: u64) -> (g: u64)
        requires
            zone < 9,
        ensures
            g == self.grid(side, zone),
            g <= CHUNK,
    {
        if zone < 7 {
            read_field(if side { self.them } else { self.us }, zone)
        } else {
            read_field(self.share, zone - 7 + toggle_shift(side, 2))
        }
    }

    /// The zones that `side` has won.
    pub fn ownership(&self, side: bool) -> (g: u64)
        ensures
            g == self.meta(side),
            g <= CHUNK,
    {
        read_field(self.share, 4 + toggle_shift(side, 1))
    }

    /// The active zone.
    pub fn active_zone(&self) -> (z: u64)
        ensures
            z == self.active(),
            z <= 15,
    {
        let w: u64 = self.share;
        assert((w >> 54) & 0b1111 <= 15) by (bit_vector);
        (self.share >> 54) & 0b1111
    }

    /// The board with cell `cell` of `zone` marked for `side`; owners and
    /// active zone stay as they are.
    pub fn with_mark(self, side: bool, zone: u64, cell: u64) -> (r: Board)
        requires
            zone < 9,
            cell < 9,
        ensures
            r == self.mark(side, zone, cell),
    {
        if zone < 7 {
            if side {
                Board { us: self.us, them: self.them | (1u64 << (9 * zone + cell)), share: self.share }
            } else {
                Board { us: self.us | (1u64 << (9 * zone + cell)), them: self.them, share: self.share }
            }
        } else {
            let j: u64 = zone - 7 + toggle_shift(side, 2);
            Board { us: self.us, them: self.them, share: self.share | (1u64 << (9 * j + cell)) }
        }
    }

    /// The board with `zone` recorded as won by `side`.
    pub fn with_owner(self, side: bool, zone: u64) -> (r: Board)
        requires
            zone < 9,
        ensures
            r == self.claim(side, zone),
    {
        let j: u64 = 4 + toggle_shift(side, 1);
        Board { us: self.us, them: self.them, share: self.share | (1u64 << (9 * j + zone)) }
    }

    /// The board with its active zone set to `zone`.
    pub fn with_active_zone(self, zone: u64) -> (r: Board)
        requires
            zone <= ZONE_ANY,
        ensures
            r == self.aim(zone),
    {
        Board { us: self.us, them: self.them, share: (self.share & EXCLZONE) | (zone << 54) }
    }

    /// Whether `zone` is full or won, so that no move may be sent into it.
    pub fn is_closed(&self, zone: u64) -> (r: bool)
        requires
            zone < 9,
        ensures
            r == self.zone_closed(zone),
    {
        let taken: u64 = self.occupancy(false, zone) | self.occupancy(true, zone);
        let won: u64 = self.ownership(false) | self.ownership(true);
        taken == CHUNK || (won >> zone) & 1 == 1
    }
}

/// `num` for the second player, 0 for the first.
pub fn toggle_shift(side: bool, num: u64) -> (r: u64)
    ensures
        r == (if side {
            num
        } else {
            0
        }),
{
    if side {
        num
    } else {
        0
    }
}

/// The board after `side` plays `mv`: the mover gains the cell; the mover
/// gains the zone if it now has a line there; the active zone becomes the
/// zone that the cell points at, or `ZONE_ANY` if that zone is full or won.
/// Nothing else changes.
pub fn play_move(board: Board, mv: Move, side: bool) -> (r: Board)
    requires
        mv < 81,
    ensures
        r == board.play(mv, side),
        forall|s: bool, z: u64|
            z < 9 ==> #[trigger] r.grid(s, z) == (if s == side && z == mv / 9 {
                board.grid(s, z) | (1u64 << (mv % 9))
            } else {
                board.grid(s, z)
            }),
        forall|s: bool| #[trigger]
            r.meta(s) == (if s == side && has_line(r.grid(side, mv / 9)) {
                board.meta(s) | (1u64 << (mv / 9))
            } else {
                board.meta(s)
            }),
        r.active() == (if r.zone_closed(mv % 9) {
            ZONE_ANY
        } else {
            mv % 9
        }),
        r.slack() == board.slack(),
{
    proof {
        lemma_play(board, mv, side);
    }
    let zone: u64 = mv / 9;
    let cell: u64 = mv % 9;
    let marked = board.with_mark(side, zone, cell);
    let claimed = if line_presence(marked.occupancy(side, zone)) {
        marked.with_owner(side, zone)
    } else {
        marked
    };
    let next: u64 = if claimed.is_closed(cell) {
        ZONE_ANY
    } else {
        cell
    };
    claimed.with_active_zone(next)
}

/// A cell is vacant exactly if neither side holds it, and a zone is decided
/// exactly if one of the sides owns it.
pub proof fn lemma_either_side(b: Board, mv: Move, zone: u64)
    requires
        mv < 81,
        zone < 9,
    ensures
        b.vacant(mv) == (!b.has(false, mv) && !b.has(true, mv)),
        b.zone_decided(zone) == (b.owns(false, zone) || b.owns(true, zone)),
{
    lemma_union_bit(b.grid(false, mv / 9), b.grid(true, mv / 9), mv % 9);
    lemma_union_bit(b.meta(false), b.meta(true), zone);
}

/// Marking a cell changes the mover's grid in that zone and nothing else.
pub proof fn lemma_mark(b: Board, side: bool, zone: u64, cell: u64)
    requires
        zone < 9,
        cell < 9,
    ensures
        forall|s: bool, z: u64|
            z < 9 ==> #[trigger] b.mark(side, zone, cell).grid(s, z) == (if s == side && z == zone {
                b.grid(s, z) | (1u64 << cell)
            } else {
                b.grid(s, z)
            }),
        forall|s: bool| #[trigger] b.mark(side, zone, cell).meta(s) == b.meta(s),
        b.mark(side, zone, cell).active() == b.active(),
        b.mark(side, zone, cell).slack() == b.slack(),
{
    let r = b.mark(side, zone, cell);
    let j: u64 = if zone < 7 {
        zone
    } else {
        (zone - 7 + if side { 2int } else { 0int }) as u64
    };
    let w: u64 = if zone >= 7 {
        b.share
    } else if side {
        b.them
    } else {
        b.us
    };
    assert forall|s: bool, z: u64| z < 9 implies #[trigger] r.grid(s, z) == (if s == side && z
        == zone {
        b.grid(s, z) | (1u64 << cell)
    } else {
        b.grid(s, z)
    }) by {
        let i: u64 = if z < 7 {
            z
        } else {
            (z - 7 + if s { 2int } else { 0int }) as u64
        };
        lemma_field_set(w, j, cell, i);
    }
    assert forall|s: bool| #[trigger] r.meta(s) == b.meta(s) by {
        lemma_field_set(w, j, cell, if s { 5 } else { 4 });
    }
    lemma_field_set(w, j, cell, 0);
}

/// Recording a won zone changes the winner's ownership grid and nothing else.
pub proof fn lemma_claim(b: Board, side: bool, zone: u64)
    requires
        zone < 9,
    ensures
        forall|s: bool, z: u64| z < 9 ==> #[trigger] b.claim(side, zone).grid(s, z) == b.grid(s, z),
        forall|s: bool| #[trigger]
            b.claim(side, zone).meta(s) == (if s == side {
                b.meta(s) | (1u64 << zone)
            } else {
                b.meta(s)
            }),
        b.claim(side, zone).active() == b.active(),
        b.claim(side, zone).slack() == b.slack(),
{
    let r = b.claim(side, zone);
    let j: u64 = if side { 5 } else { 4 };
    assert forall|s: bool, z: u64| z < 9 implies #[trigger] r.grid(s, z) == b.grid(s, z) by {
        if z >= 7 {
            lemma_field_set(b.share, j, zone, (z - 7 + if s { 2int } else { 0int }) as u64);
        }
    }
    assert forall|s: bool| #[trigger]
        r.meta(s) == (if s == side {
            b.meta(s) | (1u64 << zone)
        } else {
            b.meta(s)
        }) by {
        lemma_field_set(b.share, j, zone, if s { 5 } else { 4 });
    }
    lemma_field_set(b.share, j, zone, 0);
}

/// Setting the active zone changes the active zone and nothing else.
pub proof fn lemma_aim(b: Board, zone: u64)
    requires
        zone <= 15,
    ensures
        forall|s: bool, z: u64| z < 9 ==> #[trigger] b.aim(zone).grid(s, z) == b.grid(s, z),
        forall|s: bool| #[trigger] b.aim(zone).meta(s) == b.meta(s),
        b.aim(zone).active() == zone,
        b.aim(zone).slack() == b.slack(),
{
    let r = b.aim(zone);
    assert forall|s: bool, z: u64| z < 9 implies #[trigger] r.grid(s, z) == b.grid(s, z) by {
        if z >= 7 {
            lemma_top_field_set(b.share, zone, (z - 7 + if s { 2int } else { 0int }) as u64);
        }
    }
    assert forall|s: bool| #[trigger] r.meta(s) == b.meta(s) by {
        lemma_top_field_set(b.share, zone, if s { 5 } else { 4 });
    }
    lemma_top_field_set(b.share, zone, 0);
}

/// What a move changes: the mover gains the cell; the mover gains the zone if
/// the move completes a line there; the active zone follows the cell played.
/// Everything else stays as it was.
pub proof fn lemma_play(b: Board, mv: Move, side: bool)
    requires
        mv < 81,
    ensures
        forall|s: bool, z: u64|
            z < 9 ==> #[trigger] b.play(mv, side).grid(s, z) == (if s == side && z == mv / 9 {
                b.grid(s, z) | (1u64 << (mv % 9))
            } else {
                b.grid(s, z)
            }),
        forall|s: bool| #[trigger]
            b.play(mv, side).meta(s) == (if s == side && has_line(
                b.play(mv, side).grid(side, mv / 9),
            ) {
                b.meta(s) | (1u64 << (mv / 9))
            } else {
                b.meta(s)
            }),
        b.play(mv, side).active() == (if b.play(mv, side).zone_closed(mv % 9) {
            ZONE_ANY
        } else {
            mv % 9
        }),
        b.play(mv, side).wf(),
        b.play(mv, side).slack() == b.slack(),
{
    let zone = mv / 9;
    let cell = mv % 9;
    let marked = b.mark(side, zone, cell);
    let claimed = if has_line(marked.grid(side, zone)) {
        marked.claim(side, zone)
    } else {
        marked
    };
    let next = if claimed.zone_closed(cell) {
        ZONE_ANY
    } else {
        cell
    };
    lemma_mark(b, side, zone, cell);
    lemma_claim(marked, side, zone);
    lemma_aim(claimed, next);
    let r = b.play(mv, side);
    assert(r == claimed.aim(next));
    assert(r.grid(side, zone) == marked.grid(side, zone));
    assert(r.grid(false, cell) == claimed.grid(false, cell));
    assert(r.grid(true, cell) == claimed.grid(true, cell));
    assert(r.zone_closed(cell) == claimed.zone_closed(cell));
}

/// A move gives the mover the cell played and changes no other cell.
pub proof fn lemma_play_cells(b: Board, mv: Move, side: bool, s: bool, m: Move)
    requires
        mv < 81,
        m < 81,
    ensures
        b.play(mv, side).has(s, m) == (b.has(s, m) || (s == side && m == mv)),
{
    lemma_play(b, mv, side);
    let r = b.play(mv, side);
    assert(r.grid(s, m / 9) == (if s == side && m / 9 == mv / 9 {
        b.grid(s, m / 9) | (1u64 << (mv % 9))
    } else {
        b.grid(s, m / 9)
    }));
    lemma_field_bound_of(b, s, m / 9);
    lemma_grid_set(b.grid(s, m / 9), mv % 9, m % 9);
}

/// Every grid of a board fits in nine bits.
pub proof fn lemma_field_bound_of(b: Board, s: bool, z: u64)
    requires
        z < 9,
    ensures
        b.grid(s, z) <= CHUNK,
        b.meta(s) <= CHUNK,
{
    lemma_field_bound(b.us, if z < 7 { z } else { 0 });
    lemma_field_bound(b.them, if z < 7 { z } else { 0 });
    lemma_field_bound(b.share, if z < 7 { 0 } else { (z - 7) as u64 });
    lemma_field_bound(b.share, if z < 7 { 0 } else { (z - 5) as u64 });
    lemma_field_bound(b.share, 4);
    lemma_field_bound(b.share, 5);
}

/// The empty board has no marks and no owners, and leaves the choice of zone
/// open.
pub proof fn lemma_start()
    ensures
        forall|s: bool, z: u64| z < 9 ==> #[trigger] Board::start().grid(s, z) == 0,
        forall|s: bool| #[trigger] Board::start().meta(s) == 0,
        Board::start().active() == ZONE_ANY,
        Board::start().wf(),
        Board::start().exclusive(),
        Board::start().slack() == (0u64, 0u64, 0u64),
{
    let b = Board::start();
    assert forall|s: bool, z: u64| z < 9 implies #[trigger] b.grid(s, z) == 0 by {
        lemma_empty_fields(
            if z < 7 {
                z
            } else {
                (z - 7 + if s { 2int } else { 0int }) as u64
            },
        );
    }
    assert forall|s: bool| #[trigger] b.meta(s) == 0 by {
        lemma_empty_fields(if s { 5 } else { 4 });
    }
    lemma_empty_fields(0);
    assert forall|z: u64| z < 9 implies #[trigger] b.overlap(z) == 0 by {
        assert(b.grid(false, z) == 0);
        assert(b.grid(true, z) == 0);
    }
}

/// A move onto a cell that the opponent does not hold keeps the two sides'
/// marks apart; a move onto a cell that the opponent holds does not.
pub proof fn lemma_play_exclusive(b: Board, mv: Move, side: bool)
    requires
        mv < 81,
        b.exclusive(),
    ensures
        b.play(mv, side).exclusive() == !b.has(!side, mv),
{
    let r = b.play(mv, side);
    lemma_play(b, mv, side);
    let zone = mv / 9;
    assert(b.overlap(zone) == 0);
    lemma_disjoint_set(b.grid(false, zone), b.grid(true, zone), mv % 9);
    assert(r.grid(side, zone) == b.grid(side, zone) | (1u64 << (mv % 9)));
    assert(r.grid(!side, zone) == b.grid(!side, zone));
    if !b.has(!side, mv) {
        assert forall|z: u64| z < 9 implies #[trigger] r.overlap(z) == 0 by {
            assert(b.overlap(z) == 0);
            assert(r.grid(false, z) == (if !side && z == zone {
                b.grid(false, z) | (1u64 << (mv % 9))
            } else {
                b.grid(false, z)
            }));
            assert(r.grid(true, z) == (if side && z == zone {
                b.grid(true, z) | (1u64 << (mv % 9))
            } else {
                b.grid(true, z)
            }));
        }
    } else {
        assert(r.overlap(zone) != 0);
    }
}

/// The board reached from the empty board by playing `moves` in order; each
/// entry gives the cell and the side that plays it.
pub open spec fn replay(moves: Seq<(Move, bool)>) -> Board
    decreases moves.len(),
{
    if moves.len() == 0 {
        Board::start()
    } else {
        replay(moves.drop_last()).play(moves.last().0, moves.last().1)
    }
}

/// Every move of `moves` names a cell of the board, and none lands on a cell
/// that the opponent holds at that point.
pub open spec fn unopposed(moves: Seq<(Move, bool)>) -> bool
    decreases moves.len(),
{
    moves.len() == 0 || (unopposed(moves.drop_last()) && moves.last().0 < 81 && !replay(
        moves.drop_last(),
    ).has(!moves.last().1, moves.last().0))
}

/// On every board reached from the empty board by moves that never land on
/// a cell of the opponent, no cell is claimed by both sides, and the active
/// zone is a zone or `ZONE_ANY`.
pub proof fn lemma_replay_exclusive(moves: Seq<(Move, bool)>)
    requires
        unopposed(moves),
    ensures
        replay(moves).exclusive(),
        replay(moves).wf(),
    decreases moves.len(),
{
    if moves.len() == 0 {
        lemma_start();
    } else {
        lemma_replay_exclusive(moves.drop_last());
        lemma_play_exclusive(replay(moves.drop_last()), moves.last().0, moves.last().1);
        lemma_play(replay(moves.drop_last()), moves.last().0, moves.last().1);
    }
}

} // verus!
