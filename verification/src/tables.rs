//! The heuristic scores of a 3x3 grid, tabulated once for every pair of
//! occupancy masks, and the static evaluation of a board that reads them.
//!
//! Scores are from the first player's point of view; `toggle` turns them
//! round for the second player.

use vstd::prelude::*;
use crate::bits::{lemma_bit_values, lemma_key};
use crate::board::{Board, Eval, OUTCOME_DRAW, OUTCOME_LOSS, OUTCOME_WIN};
use crate::grid::{
    count_cells, has_line, lemma_line_counts, line_count, line_filled, lines, CHUNK,
};

verus! {

/// The four corner cells of a grid.
pub const CORNER_MASK: u64 = 0b_101_000_101;

/// The four edge cells of a grid.
pub const EDGE_MASK: u64 = 0b_010_101_010;

/// The centre cell of a grid.
pub const CENTRE_MASK: u64 = 0b_000_010_000;

/// The number of entries of each table: one for every pair of grids.
pub const TABLE_SIZE: usize = 262144;

/// What a side's `count` cells in an open line are worth.
pub open spec fn weight(count: int, two: int, one: int) -> int {
    if count == 2 {
        two
    } else if count == 1 {
        one
    } else {
        0
    }
}

/// Whether `a` holds all of line `l` and `b` none of it.
pub open spec fn captured(a: u64, b: u64, l: int) -> bool {
    line_count(a, l) == 3 && line_count(b, l) == 0
}

/// The side that holds the first line, from line `l` on, that one side has
/// captured; `None` if neither side has captured any.
pub open spec fn verdict_from(us: u64, them: u64, l: int) -> Option<bool>
    decreases 8 - l,
{
    if l >= 8 || l < 0 {
        None
    } else if captured(us, them, l) {
        Some(false)
    } else if captured(them, us, l) {
        Some(true)
    } else {
        verdict_from(us, them, l + 1)
    }
}

/// The side that has won the grid, if any.
pub open spec fn verdict(us: u64, them: u64) -> Option<bool> {
    verdict_from(us, them, 0)
}

/// What line `l` adds to the score: nothing if both sides have a cell in
/// it, else the weight of the first player's cells less that of the second's.
pub open spec fn line_term(us: u64, them: u64, l: int, two: int, one: int) -> int {
    let uc = line_count(us, l);
    let tc = line_count(them, l);
    if uc != 0 && tc != 0 {
        0
    } else {
        weight(uc, two, one) - weight(tc, two, one)
    }
}

/// The sum of the line terms of lines `0..n`.
pub open spec fn line_sum(us: u64, them: u64, n: int, two: int, one: int) -> int
    decreases n,
{
    if n <= 0 {
        0
    } else {
        line_sum(us, them, n - 1, two, one) + line_term(us, them, n - 1, two, one)
    }
}

/// The positional score: corners count 7, edges 5 and the centre 9, the
/// second player's cells negatively.
pub open spec fn positional(us: u64, them: u64) -> int {
    7 * (count_cells(us & CORNER_MASK) - count_cells(them & CORNER_MASK)) + 5 * (count_cells(
        us & EDGE_MASK,
    ) - count_cells(them & EDGE_MASK)) + 9 * (count_cells(us & CENTRE_MASK) - count_cells(
        them & CENTRE_MASK,
    ))
}

/// The score of a grid read as the board of zones: a win or a loss if a
/// side has captured a line, a draw if every cell is taken, and else the
/// line score with weights 90 and 20 plus 25 times the positional score.
pub open spec fn meta_score(us: u64, them: u64) -> int {
    match verdict(us, them) {
        Some(false) => OUTCOME_WIN as int,
        Some(true) => OUTCOME_LOSS as int,
        None => if us | them == CHUNK {
            OUTCOME_DRAW as int
        } else {
            line_sum(us, them, 8, 90, 20) + 25 * positional(us, them)
        },
    }
}

/// The score of a grid read as one zone: nothing if the zone is won or
/// full, and else the line score with weights 8 and 1 plus the positional
/// score.
pub open spec fn zone_score(us: u64, them: u64) -> int {
    if verdict(us, them) is Some || us | them == CHUNK {
        0
    } else {
        line_sum(us, them, 8, 8, 1) + positional(us, them)
    }
}

/// Whether one of the sides has captured line `l`.
pub open spec fn settled(us: u64, them: u64, l: int) -> bool {
    captured(us, them, l) || captured(them, us, l)
}

/// There is a verdict from line `l` on exactly if a side has captured one
/// of the lines from `l` on.
pub proof fn lemma_verdict_from(us: u64, them: u64, l: int)
    requires
        0 <= l <= 8,
    ensures
        verdict_from(us, them, l) is Some <==> exists|k: int|
            l <= k < 8 && #[trigger] settled(us, them, k),
        verdict_from(us, them, l) == Some(false) ==> exists|k: int|
            l <= k < 8 && #[trigger] captured(us, them, k),
        verdict_from(us, them, l) == Some(true) ==> exists|k: int|
            l <= k < 8 && #[trigger] captured(them, us, k),
    decreases 8 - l,
{
    if l < 8 {
        lemma_verdict_from(us, them, l + 1);
        if verdict_from(us, them, l + 1) == Some(false) && !settled(us, them, l) {
            let k = choose|k: int| l + 1 <= k < 8 && #[trigger] captured(us, them, k);
            assert(captured(us, them, k));
        }
        if verdict_from(us, them, l + 1) == Some(true) && !settled(us, them, l) {
            let k = choose|k: int| l + 1 <= k < 8 && #[trigger] captured(them, us, k);
            assert(captured(them, us, k));
        }
        if settled(us, them, l) {
            if captured(us, them, l) {
            } else {
                assert(captured(them, us, l));
            }
        } else if verdict_from(us, them, l + 1) is Some {
            let k = choose|k: int| l + 1 <= k < 8 && #[trigger] settled(us, them, k);
            assert(settled(us, them, k));
        } else {
            assert forall|k: int| l <= k < 8 implies !#[trigger] settled(us, them, k) by {
                if k > l {
                    assert(l + 1 <= k);
                }
            }
        }
    }
}

/// Two grids that share no cell have a verdict exactly if one of them has
/// a line.
pub proof fn lemma_verdict_of_disjoint(us: u64, them: u64)
    requires
        us & them == 0,
        them & us == 0,
    ensures
        verdict(us, them) is Some <==> has_line(us) || has_line(them),
        verdict(us, them) == Some(false) ==> has_line(us),
        verdict(us, them) == Some(true) ==> has_line(them),
{
    lemma_verdict_from(us, them, 0);
    if verdict(us, them) == Some(false) {
        let k = choose|k: int| 0 <= k < 8 && #[trigger] captured(us, them, k);
        lemma_line_counts(us, them, k);
        assert(line_filled(us, k));
    }
    if verdict(us, them) == Some(true) {
        let k = choose|k: int| 0 <= k < 8 && #[trigger] captured(them, us, k);
        lemma_line_counts(them, us, k);
        assert(line_filled(them, k));
    }
    if verdict(us, them) is Some {
        let k = choose|k: int| 0 <= k < 8 && #[trigger] settled(us, them, k);
        lemma_line_counts(us, them, k);
        lemma_line_counts(them, us, k);
        assert(line_filled(us, k) || line_filled(them, k));
    }
    if has_line(us) {
        let k = choose|k: int| 0 <= k < 8 && #[trigger] line_filled(us, k);
        lemma_line_counts(us, them, k);
        assert(settled(us, them, k));
    }
    if has_line(them) {
        let k = choose|k: int| 0 <= k < 8 && #[trigger] line_filled(them, k);
        lemma_line_counts(them, us, k);
        assert(settled(us, them, k));
    }
}

/// The line sums stay within the weight of the lines counted.
pub proof fn lemma_line_sum_bound(us: u64, them: u64, n: int, two: int, one: int)
    requires
        0 <= n,
        0 <= one <= two,
    ensures
        -n * two <= line_sum(us, them, n, two, one) <= n * two,
    decreases n,
{
    if n > 0 {
        lemma_line_sum_bound(us, them, n - 1, two, one);
        assert((n - 1) * two + two == n * two) by (nonlinear_arith);
        assert(-(n - 1) * two - two == -n * two) by (nonlinear_arith);
    }
}

/// A score is a win, a loss, or far from both.
pub proof fn lemma_score_bounds(us: u64, them: u64)
    ensures
        meta_score(us, them) == OUTCOME_WIN || meta_score(us, them) == OUTCOME_LOSS || -5445
            <= meta_score(us, them) <= 5445,
        -253 <= zone_score(us, them) <= 253,
{
    lemma_line_sum_bound(us, them, 8, 90, 20);
    lemma_line_sum_bound(us, them, 8, 8, 1);
}

/// `num` seen from the other side if `side` is the second player.
pub open spec fn toggle(side: bool, num: int) -> int {
    if side {
        -num
    } else {
        num
    }
}

/// `num` for the first player, its negative for the second.
pub fn toggle_eval(side: bool, num: Eval) -> (r: Eval)
    requires
        num > Eval::MIN,
    ensures
        r == toggle(side, num as int),
{
    if side {
        -num
    } else {
        num
    }
}

fn count_bits(x: u64) -> (c: Eval)
    ensures
        c == count_cells(x),
{
    proof {
        lemma_bit_values(x);
    }
    let n: u64 = ((x >> 0) & 1) + ((x >> 1) & 1) + ((x >> 2) & 1) + ((x >> 3) & 1) + ((x >> 4) & 1)
        + ((x >> 5) & 1) + ((x >> 6) & 1) + ((x >> 7) & 1) + ((x >> 8) & 1);
    n as Eval
}

fn line_weight(count: u64, two: Eval, one: Eval) -> (r: Eval)
    ensures
        r == weight(count as int, two as int, one as int),
{
    if count == 2 {
        two
    } else if count == 1 {
        one
    } else {
        0
    }
}

fn position_score(us: u64, them: u64) -> (r: Eval)
    ensures
        r == positional(us, them),
{
    7 * (count_bits(us & CORNER_MASK) - count_bits(them & CORNER_MASK)) + 5 * (count_bits(
        us & EDGE_MASK,
    ) - count_bits(them & EDGE_MASK)) + 9 * (count_bits(us & CENTRE_MASK) - count_bits(
        them & CENTRE_MASK,
    ))
}

/// The two scores of one pair of grids.
fn score_pair(us: u64, them: u64) -> (r: (Eval, Eval))
    ensures
        r.0 == meta_score(us, them),
        r.1 == zone_score(us, them),
{
    let us_lines: u64 = lines(us);
    let them_lines: u64 = lines(them);
    let mut winner: Option<bool> = None;
    let mut large: Eval = 0;
    let mut small: Eval = 0;
    let mut l: u64 = 0;
    while l < 8 && winner.is_none()
        invariant
            l <= 8,
            forall|i: int|
                0 <= i < 8 ==> (us_lines >> ((3 * i) as u64)) & 0b111 == #[trigger] line_count(
                    us,
                    i,
                ),
            forall|i: int|
                0 <= i < 8 ==> (them_lines >> ((3 * i) as u64)) & 0b111 == #[trigger] line_count(
                    them,
                    i,
                ),
            verdict(us, them) == (if winner is Some {
                winner
            } else {
                verdict_from(us, them, l as int)
            }),
            winner is None ==> large == line_sum(us, them, l as int, 90, 20),
            winner is None ==> small == line_sum(us, them, l as int, 8, 1),
            -90 * l <= large <= 90 * l,
            -8 * l <= small <= 8 * l,
        decreases 8 - l + (if winner is None { 1int } else { 0int }),
    {
        let us_count: u64 = (us_lines >> (3 * l)) & 0b111;
        let them_count: u64 = (them_lines >> (3 * l)) & 0b111;
        assert(us_count == line_count(us, l as int));
        assert(them_count == line_count(them, l as int));
        if us_count != 0 && them_count != 0 {
            l += 1;
        } else if us_count == 3 {
            winner = Some(false);
        } else if them_count == 3 {
            winner = Some(true);
        } else {
            large += line_weight(us_count, 90, 20) - line_weight(them_count, 90, 20);
            small += line_weight(us_count, 8, 1) - line_weight(them_count, 8, 1);
            l += 1;
        }
    }
    match winner {
        Some(false) => (OUTCOME_WIN, 0),
        Some(true) => (OUTCOME_LOSS, 0),
        None => if us | them == CHUNK {
            (OUTCOME_DRAW, 0)
        } else {
            let position: Eval = position_score(us, them);
            (large + position * 25, small + position)
        },
    }
}

/// The two lookup tables. The entry for the grids `us` and `them` stands at
/// index `512 * them + us`.
pub struct LookupTables {
    large: Vec<Eval>,
    small: Vec<Eval>,
}

impl LookupTables {
    /// The table of scores of the board of zones.
    pub closed spec fn meta_table(self) -> Seq<Eval> {
        self.large@
    }

    /// The table of scores of single zones.
    pub closed spec fn zone_table(self) -> Seq<Eval> {
        self.small@
    }

    /// Both tables hold the score of every pair of grids.
    pub open spec fn filled(self) -> bool {
        &&& self.meta_table().len() == TABLE_SIZE
        &&& self.zone_table().len() == TABLE_SIZE
        &&& forall|k: int|
            0 <= k < TABLE_SIZE ==> #[trigger] self.meta_table()[k] == meta_score(
                (k % 512) as u64,
                (k / 512) as u64,
            )
        &&& forall|k: int|
            0 <= k < TABLE_SIZE ==> #[trigger] self.zone_table()[k] == zone_score(
                (k % 512) as u64,
                (k / 512) as u64,
            )
    }

    #[verifier::type_invariant]
    spec fn inv(self) -> bool {
        self.filled()
    }

    /// The score of the board of zones on which the first player has won
    /// the zones `us` and the second the zones `them`.
    pub fn meta_entry(&self, us: u64, them: u64) -> (e: Eval)
        requires
            us <= CHUNK,
            them <= CHUNK,
        ensures
            e == meta_score(us, them),
    {
        proof {
            use_type_invariant(self);
            lemma_key(us, them);
        }
        let key: u64 = (them << 9) | us;
        self.large[key as usize]
    }

    /// The score of a zone in which the first player holds the cells `us`
    /// and the second the cells `them`.
    pub fn zone_entry(&self, us: u64, them: u64) -> (e: Eval)
        requires
            us <= CHUNK,
            them <= CHUNK,
        ensures
            e == zone_score(us, them),
    {
        proof {
            use_type_invariant(self);
            lemma_key(us, them);
        }
        let key: u64 = (them << 9) | us;
        self.small[key as usize]
    }
}

/// Builds the lookup tables: for every pair of grids, its score as the
/// board of zones and its score as a single zone.
pub fn init() -> (tables: LookupTables)
    ensures
        tables.filled(),
{
    let mut large: Vec<Eval> = Vec::new();
    let mut small: Vec<Eval> = Vec::new();
    let mut k: usize = 0;
    while k < TABLE_SIZE
        invariant
            k <= TABLE_SIZE,
            large.len() == k,
            small.len() == k,
            forall|j: int|
                0 <= j < k ==> #[trigger] large@[j] == meta_score(
                    (j % 512) as u64,
                    (j / 512) as u64,
                ),
            forall|j: int|
                0 <= j < k ==> #[trigger] small@[j] == zone_score(
                    (j % 512) as u64,
                    (j / 512) as u64,
                ),
        decreases TABLE_SIZE - k,
    {
        let pair = score_pair((k % 512) as u64, (k / 512) as u64);
        large.push(pair.0);
        small.push(pair.1);
        k += 1;
    }
    LookupTables { large, small }
}

/// The score of the board of zones.
pub open spec fn meta_value(b: Board) -> int {
    meta_score(b.meta(false), b.meta(true))
}

/// What `zone` adds to the score of the board: nothing if it is closed.
pub open spec fn zone_term(b: Board, zone: u64) -> int {
    if b.zone_closed(zone) {
        0
    } else {
        zone_score(b.grid(false, zone), b.grid(true, zone))
    }
}

/// The sum of the zone terms of zones `0..n`.
pub open spec fn zones_total(b: Board, n: int) -> int
    decreases n,
{
    if n <= 0 {
        0
    } else {
        zones_total(b, n - 1) + zone_term(b, (n - 1) as u64)
    }
}

/// The score of a board for the first player: the score of the board of
/// zones if it is a win or a loss, a draw if every zone is won, and else
/// that score plus the scores of the open zones.
pub open spec fn raw_score(b: Board) -> int {
    let m = meta_value(b);
    if m == OUTCOME_WIN || m == OUTCOME_LOSS {
        m
    } else if b.meta(false) | b.meta(true) == CHUNK {
        OUTCOME_DRAW as int
    } else {
        m + zones_total(b, 9)
    }
}

/// The score of a board for `side`.
pub open spec fn score(b: Board, side: bool) -> int {
    toggle(side, raw_score(b))
}

/// The zone sums stay within the weight of the zones counted.
pub proof fn lemma_zones_total_bound(b: Board, n: int)
    requires
        0 <= n,
    ensures
        -253 * n <= zones_total(b, n) <= 253 * n,
    decreases n,
{
    if n > 0 {
        lemma_zones_total_bound(b, n - 1);
        lemma_score_bounds(b.grid(false, (n - 1) as u64), b.grid(true, (n - 1) as u64));
    }
}

/// A score is a win, a loss, or far from both.
pub proof fn lemma_raw_score_bounds(b: Board)
    ensures
        raw_score(b) == OUTCOME_WIN || raw_score(b) == OUTCOME_LOSS || -7722 <= raw_score(b)
            <= 7722,
{
    lemma_score_bounds(b.meta(false), b.meta(true));
    lemma_zones_total_bound(b, 9);
}

/// The static evaluation of `board` for `side`.
pub fn evaluate(board: Board, side: bool, tables: &LookupTables) -> (e: Eval)
    ensures
        e == score(board, side),
        OUTCOME_LOSS <= e <= OUTCOME_WIN,
{
    let us_won: u64 = board.ownership(false);
    let them_won: u64 = board.ownership(true);
    let eval: Eval = tables.meta_entry(us_won, them_won);
    if eval == OUTCOME_WIN || eval == OUTCOME_LOSS {
        return toggle_eval(side, eval);
    }
    let large: u64 = us_won | them_won;
    if large == CHUNK {
        return OUTCOME_DRAW;
    }
    proof {
        lemma_score_bounds(us_won, them_won);
    }
    let mut total: Eval = eval;
    let mut zone: u64 = 0;
    while zone < 9
        invariant
            zone <= 9,
            large == board.meta(false) | board.meta(true),
            total == eval + zones_total(board, zone as int),
            -5445 <= eval <= 5445,
            -253 * zone <= zones_total(board, zone as int) <= 253 * zone,
        decreases 9 - zone,
    {
        let us_data: u64 = board.occupancy(false, zone);
        let them_data: u64 = board.occupancy(true, zone);
        proof {
            lemma_score_bounds(us_data, them_data);
        }
        if !((large >> zone) & 1 == 1 || us_data | them_data == CHUNK) {
            total += tables.zone_entry(us_data, them_data);
        }
        zone += 1;
    }
    toggle_eval(side, total)
}

/// The two sides score a board with opposite signs.
pub proof fn lemma_score_antisymmetric(b: Board)
    ensures
        score(b, true) == -score(b, false),
{
}

} // verus!
