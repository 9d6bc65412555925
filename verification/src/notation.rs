//! Text forms of moves, scores and boards.
//!
//! A zone or a cell is named by its compass point: `nw`, `n`, `ne`, `w`, `c`,
//! `e`, `sw`, `s`, `se`. A move is written as the zone, a slash and the cell.
//! A board is written as nine rows from north to south, separated by
//! slashes, each of nine cells from west to east (`x`, `o`, or a digit for a
//! run of empty cells), then a space and the active zone or `any`.

use vstd::prelude::*;
use vstd::string::StringExecFns;
use crate::board::{Board, Eval, Move, OUTCOME_DRAW, OUTCOME_LOSS, OUTCOME_WIN, ZONE_ANY};
use crate::text::{append_signed, chars_of, fields, signed_numeral, split_fields};

verus! {

/// The name of zone or cell `z` in lower case; `any` from 9 on.
pub open spec fn zone_name(z: u64) -> Seq<char> {
    if z == 0 {
        "nw"@
    } else if z == 1 {
        "n"@
    } else if z == 2 {
        "ne"@
    } else if z == 3 {
        "w"@
    } else if z == 4 {
        "c"@
    } else if z == 5 {
        "e"@
    } else if z == 6 {
        "sw"@
    } else if z == 7 {
        "s"@
    } else if z == 8 {
        "se"@
    } else {
        "any"@
    }
}

/// The name of zone `z` in upper case; `ANY` from 9 on.
pub open spec fn zone_title(z: u64) -> Seq<char> {
    if z == 0 {
        "NW"@
    } else if z == 1 {
        "N"@
    } else if z == 2 {
        "NE"@
    } else if z == 3 {
        "W"@
    } else if z == 4 {
        "C"@
    } else if z == 5 {
        "E"@
    } else if z == 6 {
        "SW"@
    } else if z == 7 {
        "S"@
    } else if z == 8 {
        "SE"@
    } else {
        "ANY"@
    }
}

/// The zone below `n` that `t` names, the first if several do.
pub open spec fn zone_named_below(t: Seq<char>, n: u64) -> Option<u64>
    decreases n,
{
    if n == 0 {
        None
    } else if zone_named_below(t, (n - 1) as u64) is Some {
        zone_named_below(t, (n - 1) as u64)
    } else if t == zone_name((n - 1) as u64) {
        Some((n - 1) as u64)
    } else {
        None
    }
}

/// The zone or cell that `t` names.
pub open spec fn zone_named(t: Seq<char>) -> Option<u64> {
    zone_named_below(t, 9)
}

/// The name of zone or cell `z` in lower case.
pub fn zone_str(z: u64) -> (s: &'static str)
    ensures
        s@ == zone_name(z),
{
    if z == 0 {
        "nw"
    } else if z == 1 {
        "n"
    } else if z == 2 {
        "ne"
    } else if z == 3 {
        "w"
    } else if z == 4 {
        "c"
    } else if z == 5 {
        "e"
    } else if z == 6 {
        "sw"
    } else if z == 7 {
        "s"
    } else if z == 8 {
        "se"
    } else {
        "any"
    }
}

/// The name of zone `z` in upper case.
pub fn zone_title_str(z: u64) -> (s: &'static str)
    ensures
        s@ == zone_title(z),
{
    if z == 0 {
        "NW"
    } else if z == 1 {
        "N"
    } else if z == 2 {
        "NE"
    } else if z == 3 {
        "W"
    } else if z == 4 {
        "C"
    } else if z == 5 {
        "E"
    } else if z == 6 {
        "SW"
    } else if z == 7 {
        "S"
    } else if z == 8 {
        "SE"
    } else {
        "ANY"
    }
}

/// Whether `t` is the text `name`.
pub fn same_text(t: &Vec<char>, name: &str) -> (r: bool)
    ensures
        r == (t@ == name@),
{
    let other: Vec<char> = chars_of(name);
    if t.len() != other.len() {
        return false;
    }
    let mut i: usize = 0;
    while i < t.len()
        invariant
            i <= t.len(),
            t.len() == other.len(),
            other@ == name@,
            forall|k: int| 0 <= k < i ==> t@[k] == other@[k],
        decreases t.len() - i,
    {
        if t[i] != other[i] {
            return false;
        }
        i += 1;
    }
    assert(t@ =~= other@);
    true
}

/// The zone or cell that `t` names.
pub fn find_zone(t: &Vec<char>) -> (r: Option<u64>)
    ensures
        r == zone_named(t@),
        r matches Some(z) ==> z < 9,
{
    let mut z: u64 = 0;
    while z < 9
        invariant
            z <= 9,
            zone_named_below(t@, z) is None,
        decreases 9 - z,
    {
        if same_text(t, zone_str(z)) {
            assert(zone_named_below(t@, (z + 1) as u64) == Some(z));
            proof {
                lemma_zone_named_stable(t@, (z + 1) as u64, 9);
            }
            return Some(z);
        }
        z += 1;
    }
    None
}

/// Once a zone is found below `n`, it is the zone found below any later
/// bound.
pub proof fn lemma_zone_named_stable(t: Seq<char>, n: u64, m: u64)
    requires
        n <= m,
        zone_named_below(t, n) is Some,
    ensures
        zone_named_below(t, m) == zone_named_below(t, n),
    decreases m - n,
{
    if n < m {
        lemma_zone_named_stable(t, n, (m - 1) as u64);
    }
}

/// The text of the move `mv`.
pub open spec fn move_text(mv: Move) -> Seq<char> {
    zone_name(mv / 9) + "/"@ + zone_name(mv % 9)
}

/// Writes `mv` as its zone, a slash and its cell.
pub fn move_string(mv: Move) -> (s: String)
    requires
        mv < 81,
    ensures
        s@ == move_text(mv),
{
    let mut s: String = String::new();
    s.append(zone_str(mv / 9));
    s.append("/");
    s.append(zone_str(mv % 9));
    assert(s@ =~= move_text(mv));
    s
}

/// The move that `t` writes: a zone name, a slash and a cell name.
pub open spec fn move_of_text(t: Seq<char>) -> Option<Move> {
    let parts = fields(t, '/');
    if parts.len() == 2 && zone_named(parts[0]) is Some && zone_named(parts[1]) is Some {
        Some((9 * zone_named(parts[0])->0 + zone_named(parts[1])->0) as u64)
    } else {
        None
    }
}

/// Reads a move; `None` unless the text is a zone name, a slash and a cell
/// name.
pub fn move_from_string(move_string: &str) -> (r: Option<Move>)
    ensures
        r == move_of_text(move_string@),
        r matches Some(mv) ==> mv < 81,
{
    let chars: Vec<char> = chars_of(move_string);
    let parts: Vec<Vec<char>> = split_fields(&chars, '/');
    if parts.len() != 2 {
        return None;
    }
    assert(parts@[0]@ == crate::text::views(parts@)[0]);
    assert(parts@[1]@ == crate::text::views(parts@)[1]);
    let zone: Option<u64> = find_zone(&parts[0]);
    let square: Option<u64> = find_zone(&parts[1]);
    match (zone, square) {
        (Some(z), Some(s)) => Some(9 * z + s),
        _ => None,
    }
}

/// The text of the score `eval` of a search of depth `max_depth`: `L` and
/// the number of plies to a forced loss, `W` and the number of plies to a
/// forced win, `D0` for a draw, and else the score with its sign.
pub open spec fn eval_text(eval: int, max_depth: int) -> Seq<char> {
    if eval <= OUTCOME_LOSS + max_depth {
        "L"@ + signed_numeral(eval - OUTCOME_LOSS, false)
    } else if eval >= OUTCOME_WIN - max_depth {
        "W"@ + signed_numeral(OUTCOME_WIN - eval, false)
    } else if eval == OUTCOME_DRAW {
        "D0"@
    } else {
        signed_numeral(eval, true)
    }
}

/// Writes the score `eval` of a search of depth `max_depth`.
pub fn eval_string(eval: Eval, max_depth: usize) -> (s: String)
    requires
        max_depth <= Eval::MAX,
    ensures
        s@ == eval_text(eval as int, max_depth as int),
{
    let depth: i64 = max_depth as i64;
    let value: i64 = eval as i64;
    let mut s: String = String::new();
    if value <= OUTCOME_LOSS as i64 + depth {
        s.append("L");
        append_signed(&mut s, value - OUTCOME_LOSS as i64, false);
    } else if value >= OUTCOME_WIN as i64 - depth {
        s.append("W");
        append_signed(&mut s, OUTCOME_WIN as i64 - value, false);
    } else if eval == OUTCOME_DRAW {
        s.append("D0");
    } else {
        append_signed(&mut s, value, true);
    }
    assert(s@ =~= eval_text(eval as int, max_depth as int));
    s
}

} // verus!
