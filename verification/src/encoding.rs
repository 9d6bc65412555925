//! The compact text form of a board, and its picture.
//!
//! Both show the board as nine rows of nine cells, from north to south and
//! from west to east, so that each zone appears as a 3x3 block.

use vstd::prelude::*;
use vstd::string::StringExecFns;
use crate::board::{Board, Move};
use crate::notation::{zone_name, zone_str, zone_title, zone_title_str};
use crate::grid::{has_line, line_presence};
use crate::notation::{find_zone, same_text, zone_named};
use crate::text::{
    chars_of, digit_char, digit_str, digit_value, fields, split_fields, split_words, views, words,
};

verus! {

/// The cell shown in column `col` of row `row`.
pub open spec fn display_cell(row: int, col: int) -> Move {
    (27 * (row / 3) + 9 * (col / 3) + 3 * (row % 3) + col % 3) as u64
}

/// The side that holds the cell `mv`, the first player if both do.
pub open spec fn mark_of(b: Board, mv: Move) -> Option<bool> {
    if b.has(false, mv) {
        Some(false)
    } else if b.has(true, mv) {
        Some(true)
    } else {
        None
    }
}

/// The side that has won `zone`, the first player if both have.
pub open spec fn owner_of(b: Board, zone: u64) -> Option<bool> {
    if b.owns(false, zone) {
        Some(false)
    } else if b.owns(true, zone) {
        Some(true)
    } else {
        None
    }
}

/// The letter of a mark in lower case, or a dot.
pub open spec fn mark_char(mark: Option<bool>) -> char {
    match mark {
        Some(false) => 'x',
        Some(true) => 'o',
        None => '.',
    }
}

/// The letter of a mark in upper case, or a dot.
pub open spec fn mark_title(mark: Option<bool>) -> char {
    match mark {
        Some(false) => 'X',
        Some(true) => 'O',
        None => '.',
    }
}

/// The nine cells of row `row`, in lower case.
pub open spec fn row_chars(b: Board, row: int) -> Seq<char> {
    Seq::new(9, |col: int| mark_char(mark_of(b, display_cell(row, col))))
}

/// The number of dots that `s` ends in.
pub open spec fn trailing_dots(s: Seq<char>) -> nat
    decreases s.len(),
{
    if s.len() == 0 || s.last() != '.' {
        0
    } else {
        1 + trailing_dots(s.drop_last())
    }
}

/// `s` with each maximal run of dots replaced by the digit of its length.
pub open spec fn squeeze(s: Seq<char>) -> Seq<char>
    decreases s.len(),
{
    if s.len() == 0 {
        Seq::empty()
    } else if s.last() != '.' {
        squeeze(s.drop_last()).push(s.last())
    } else if trailing_dots(s) <= s.len() {
        squeeze(s.take(s.len() - trailing_dots(s))).push(digit_char(trailing_dots(s)))
    } else {
        Seq::empty()
    }
}

/// The first `n` rows of the text of `b`, separated by slashes.
pub open spec fn rows_text(b: Board, n: int) -> Seq<char>
    decreases n,
{
    if n <= 0 {
        Seq::empty()
    } else if n == 1 {
        squeeze(row_chars(b, 0))
    } else {
        rows_text(b, n - 1) + "/"@ + squeeze(row_chars(b, n - 1))
    }
}

/// The text of `b`: its nine rows, a space, and its active zone.
pub open spec fn board_text(b: Board) -> Seq<char> {
    rows_text(b, 9) + " "@ + zone_name(b.active())
}

fn cell_at(row: u64, col: u64) -> (mv: Move)
    requires
        row < 9,
        col < 9,
    ensures
        mv == display_cell(row as int, col as int),
        mv < 81,
{
    27 * (row / 3) + 9 * (col / 3) + 3 * (row % 3) + col % 3
}

fn read_mark(board: &Board, mv: Move) -> (mark: Option<bool>)
    requires
        mv < 81,
    ensures
        mark == mark_of(*board, mv),
{
    if (board.occupancy(false, mv / 9) >> (mv % 9)) & 1 == 1 {
        Some(false)
    } else if (board.occupancy(true, mv / 9) >> (mv % 9)) & 1 == 1 {
        Some(true)
    } else {
        None
    }
}

fn read_owner(board: &Board, zone: u64) -> (mark: Option<bool>)
    requires
        zone < 9,
    ensures
        mark == owner_of(*board, zone),
{
    if (board.ownership(false) >> zone) & 1 == 1 {
        Some(false)
    } else if (board.ownership(true) >> zone) & 1 == 1 {
        Some(true)
    } else {
        None
    }
}

fn mark_str(mark: Option<bool>) -> (s: &'static str)
    ensures
        s@ == seq![mark_char(mark)],
{
    proof {
        reveal_strlit("x");
        reveal_strlit("o");
        reveal_strlit(".");
    }
    let s: &'static str = match mark {
        Some(false) => "x",
        Some(true) => "o",
        None => ".",
    };
    assert(s@ =~= seq![mark_char(mark)]);
    s
}

fn mark_title_str(mark: Option<bool>) -> (s: &'static str)
    ensures
        s@ == seq![mark_title(mark)],
{
    proof {
        reveal_strlit("X");
        reveal_strlit("O");
        reveal_strlit(".");
    }
    let s: &'static str = match mark {
        Some(false) => "X",
        Some(true) => "O",
        None => ".",
    };
    assert(s@ =~= seq![mark_title(mark)]);
    s
}

/// Appends row `row` of `board` to `out`, with its runs of empty cells
/// written as digits.
fn append_row(out: &mut String, board: &Board, row: u64)
    requires
        row < 9,
    ensures
        final(out)@ == old(out)@ + squeeze(row_chars(*board, row as int)),
{
    let ghost cells = row_chars(*board, row as int);
    let mut run: u64 = 0;
    let mut col: u64 = 0;
    assert(cells.take(0) =~= Seq::empty());
    assert(out@ =~= old(out)@ + squeeze(cells.take(0)));
    while col < 9
        invariant
            row < 9,
            col <= 9,
            run <= col,
            cells == row_chars(*board, row as int),
            run == trailing_dots(cells.take(col as int)),
            out@ == old(out)@ + squeeze(cells.take(col - run)),
        decreases 9 - col,
    {
        let mark: Option<bool> = read_mark(board, cell_at(row, col));
        let ghost seen = cells.take(col as int);
        let ghost next = cells.take(col + 1);
        assert(next.drop_last() =~= seen);
        assert(next.last() == mark_char(mark));
        if mark.is_none() {
            run += 1;
        } else {
            if run > 0 {
                assert(seen.take(seen.len() - run) =~= cells.take(col - run));
                out.append(digit_str(run));
                assert(out@ =~= old(out)@ + squeeze(seen));
                run = 0;
            }
            out.append(mark_str(mark));
            assert(out@ =~= old(out)@ + squeeze(next));
        }
        col += 1;
    }
    assert(cells.take(9) =~= cells);
    if run > 0 {
        assert(cells.take(cells.len() - run) =~= cells.take(9 - run));
        out.append(digit_str(run));
        assert(out@ =~= old(out)@ + squeeze(cells));
    }
}

/// Writes `board` in its compact text form.
pub fn board_string(board: Board) -> (s: String)
    requires
        board.wf(),
    ensures
        s@ == board_text(board),
{
    let mut s: String = String::new();
    let mut row: u64 = 0;
    while row < 9
        invariant
            row <= 9,
            s@ == rows_text(board, row as int),
        decreases 9 - row,
    {
        if row > 0 {
            s.append("/");
        }
        append_row(&mut s, &board, row);
        proof {
            if row == 0 {
                assert(Seq::<char>::empty() + squeeze(row_chars(board, 0)) =~= squeeze(
                    row_chars(board, 0),
                ));
            }
        }
        row += 1;
    }
    s.append(" ");
    s.append(zone_str(board.active_zone()));
    s
}

/// The line that frames the bands of the picture.
pub open spec fn rule() -> Seq<char> {
    "---+---+---"@
}

/// The first `n` cells of row `row` of the picture, in upper case, with a
/// bar between the zones.
pub open spec fn picture_row(b: Board, row: int, n: int) -> Seq<char>
    decreases n,
{
    if n <= 0 {
        Seq::empty()
    } else {
        picture_row(b, row, n - 1) + (if n - 1 == 3 || n - 1 == 6 {
            "|"@
        } else {
            Seq::empty()
        }) + seq![mark_title(mark_of(b, display_cell(row, n - 1)))]
    }
}

/// The top of the picture down to row `n`: a rule, then the rows, each on
/// a line of its own, with a rule after every third.
pub open spec fn picture_rows(b: Board, n: int) -> Seq<char>
    decreases n,
{
    if n <= 0 {
        rule() + "\n"@
    } else {
        picture_rows(b, n - 1) + picture_row(b, n - 1, 9) + "\n"@ + (if n % 3 == 0 {
            rule() + "\n"@
        } else {
            Seq::empty()
        })
    }
}

/// The owners of the first `n` zones of row `row` of the board of zones.
pub open spec fn owner_row(b: Board, row: int, n: int) -> Seq<char>
    decreases n,
{
    if n <= 0 {
        Seq::empty()
    } else {
        owner_row(b, row, n - 1).push(mark_title(owner_of(b, (3 * row + n - 1) as u64)))
    }
}

/// The first `n` rows of the board of zones, each on a line of its own.
pub open spec fn owner_rows(b: Board, n: int) -> Seq<char>
    decreases n,
{
    if n <= 0 {
        Seq::empty()
    } else {
        owner_rows(b, n - 1) + owner_row(b, n - 1, 3) + "\n"@
    }
}

/// The picture of `b`: the cells between rules, the board of zones, and
/// the active zone.
pub open spec fn board_picture(b: Board) -> Seq<char> {
    picture_rows(b, 9) + owner_rows(b, 3) + "ZONE: "@ + zone_title(b.active())
}

/// Draws `board`.
pub fn print_board(board: Board) -> (s: String)
    requires
        board.wf(),
    ensures
        s@ == board_picture(board),
{
    let mut s: String = String::new();
    s.append("---+---+---");
    s.append("\n");
    assert(s@ =~= picture_rows(board, 0));
    let mut row: u64 = 0;
    while row < 9
        invariant
            row <= 9,
            s@ == picture_rows(board, row as int),
        decreases 9 - row,
    {
        let ghost before = s@;
        let mut col: u64 = 0;
        assert(s@ =~= before + picture_row(board, row as int, 0));
        while col < 9
            invariant
                row < 9,
                col <= 9,
                s@ == before + picture_row(board, row as int, col as int),
            decreases 9 - col,
        {
            let ghost start = s@;
            if col == 3 || col == 6 {
                s.append("|");
            }
            s.append(mark_title_str(read_mark(&board, cell_at(row, col))));
            assert(s@ =~= before + picture_row(board, row as int, col + 1));
            col += 1;
        }
        s.append("\n");
        if row % 3 == 2 {
            s.append("---+---+---");
            s.append("\n");
        }
        assert(s@ =~= picture_rows(board, row + 1));
        row += 1;
    }
    let ghost top = s@;
    let mut band: u64 = 0;
    assert(s@ =~= top + owner_rows(board, 0));
    while band < 3
        invariant
            band <= 3,
            s@ == top + owner_rows(board, band as int),
        decreases 3 - band,
    {
        let ghost before = s@;
        let mut i: u64 = 0;
        assert(s@ =~= before + owner_row(board, band as int, 0));
        while i < 3
            invariant
                band < 3,
                i <= 3,
                s@ == before + owner_row(board, band as int, i as int),
            decreases 3 - i,
        {
            s.append(mark_title_str(read_owner(&board, 3 * band + i)));
            assert(s@ =~= before + owner_row(board, band as int, i + 1));
            i += 1;
        }
        s.append("\n");
        assert(s@ =~= top + owner_rows(board, band + 1));
        band += 1;
    }
    s.append("ZONE: ");
    s.append(zone_title_str(board.active_zone()));
    s
}

/// `n` dots.
pub open spec fn dots(n: nat) -> Seq<char> {
    Seq::new(n, |i: int| '.')
}

/// What `c` stands for in a row: as many dots as its value if it is a digit
/// from 1 to 9, and else itself.
pub open spec fn expand_char(c: char) -> Seq<char> {
    if '1' <= c <= '9' {
        dots(digit_value(c))
    } else {
        seq![c]
    }
}

/// `s` with each digit from 1 to 9 replaced by as many dots.
pub open spec fn expand(s: Seq<char>) -> Seq<char>
    decreases s.len(),
{
    if s.len() == 0 {
        Seq::empty()
    } else {
        expand(s.drop_last()) + expand_char(s.last())
    }
}

/// Replaces each digit from 1 to 9 by as many dots.
pub fn expand_digits(s: &Vec<char>) -> (out: Vec<char>)
    ensures
        out@ == expand(s@),
{
    let mut out: Vec<char> = Vec::new();
    let mut i: usize = 0;
    assert(s@.take(0) =~= Seq::empty());
    while i < s.len()
        invariant
            i <= s.len(),
            out@ == expand(s@.take(i as int)),
        decreases s.len() - i,
    {
        let c: char = s[i];
        let ghost before = out@;
        assert(s@.take(i + 1).drop_last() =~= s@.take(i as int));
        assert(s@.take(i + 1).last() == c);
        if '1' <= c && c <= '9' {
            let n: u32 = c as u32 - 48;
            let mut k: u32 = 0;
            assert(out@ =~= before + dots(0));
            while k < n
                invariant
                    k <= n,
                    out@ == before + dots(k as nat),
                decreases n - k,
            {
                out.push('.');
                assert(out@ =~= before + dots((k + 1) as nat));
                k += 1;
            }
        } else {
            out.push(c);
            assert(out@ =~= before + seq![c]);
        }
        i += 1;
    }
    assert(s@.take(s@.len() as int) =~= s@);
    out
}

/// A board without marks or owners, and with active zone 0.
pub open spec fn blank() -> Board {
    Board { us: 0, them: 0, share: 0 }
}

/// The blank board with the first `n` cells of `rows` marked, counting
/// row by row: an `x` is a mark of the first player, an `o` one of the
/// second, and any other character an empty cell.
pub open spec fn place(rows: Seq<Seq<char>>, n: int) -> Board
    decreases n,
{
    if n <= 0 {
        blank()
    } else {
        let b = place(rows, n - 1);
        let c = rows[(n - 1) / 9][(n - 1) % 9];
        let mv = display_cell((n - 1) / 9, (n - 1) % 9);
        if c == 'x' {
            b.mark(false, mv / 9, mv % 9)
        } else if c == 'o' {
            b.mark(true, mv / 9, mv % 9)
        } else {
            b
        }
    }
}

/// `to` with each of the first `n` zones recorded as won by the side that
/// has a line in it on `b`, the first player if both have.
pub open spec fn crown(b: Board, to: Board, n: int) -> Board
    decreases n,
{
    if n <= 0 {
        to
    } else {
        let z = (n - 1) as u64;
        let before = crown(b, to, n - 1);
        if has_line(b.grid(false, z)) {
            before.claim(false, z)
        } else if has_line(b.grid(true, z)) {
            before.claim(true, z)
        } else {
            before
        }
    }
}

/// The board that `rows` show, with the owners worked out from the marks
/// and with `zone` as the active zone.
pub open spec fn board_of_rows(rows: Seq<Seq<char>>, zone: u64) -> Board {
    crown(place(rows, 81), place(rows, 81), 9).aim(zone)
}

/// Nine rows of nine characters each.
pub open spec fn well_shaped(rows: Seq<Seq<char>>) -> bool {
    rows.len() == 9 && forall|r: int| 0 <= r < 9 ==> (#[trigger] rows[r]).len() == 9
}

/// The active zone that `t` names: a zone, or 9 for `any`.
pub open spec fn zone_of_token(t: Seq<char>) -> Option<u64> {
    if zone_named(t) is Some {
        zone_named(t)
    } else if t == "any"@ {
        Some(9)
    } else {
        None
    }
}

/// The board that `t` writes. With its digits replaced by dots, `t` must
/// consist of two words: nine rows of nine characters, separated by slashes,
/// and the name of the active zone.
pub open spec fn board_of_text(t: Seq<char>) -> Option<Board> {
    let parts = words(expand(t));
    if parts.len() == 2 && zone_of_token(parts[1]) is Some && well_shaped(fields(parts[0], '/')) {
        Some(board_of_rows(fields(parts[0], '/'), zone_of_token(parts[1])->0))
    } else {
        None
    }
}

/// Reads a board; `None` unless the text, with its digits replaced by dots,
/// consists of nine rows of nine characters and the name of the active zone.
/// The owners of the zones are worked out from the marks.
#[verifier::loop_isolation(false)]
pub fn board_from_string(board_string: &str) -> (r: Option<Board>)
    ensures
        r == board_of_text(board_string@),
        r matches Some(b) ==> b.wf(),
{
    let chars: Vec<char> = chars_of(board_string);
    let expanded: Vec<char> = expand_digits(&chars);
    let parts: Vec<Vec<char>> = split_words(&expanded);
    if parts.len() != 2 {
        return None;
    }
    assert(parts@[0]@ == views(parts@)[0]);
    assert(parts@[1]@ == views(parts@)[1]);
    let zone: u64 = match find_zone(&parts[1]) {
        Some(z) => z,
        None => {
            if same_text(&parts[1], "any") {
                9
            } else {
                return None;
            }
        },
    };
    let rows: Vec<Vec<char>> = split_fields(&parts[0], '/');
    if rows.len() != 9 {
        return None;
    }
    let mut r: usize = 0;
    while r < 9
        invariant
            r <= 9,
            rows@.len() == 9,
            forall|k: int| 0 <= k < r ==> (#[trigger] views(rows@)[k]).len() == 9,
        decreases 9 - r,
    {
        if rows[r].len() != 9 {
            assert(views(rows@)[r as int].len() != 9);
            return None;
        }
        r += 1;
    }
    assert(well_shaped(views(rows@)));
    let mut board: Board = Board { us: 0, them: 0, share: 0 };
    let mut d: u64 = 0;
    while d < 81
        invariant
            d <= 81,
            well_shaped(views(rows@)),
            board == place(views(rows@), d as int),
        decreases 81 - d,
    {
        let row: u64 = d / 9;
        let col: u64 = d % 9;
        assert(views(rows@)[row as int].len() == 9);
        let c: char = rows[row as usize][col as usize];
        let mv: Move = cell_at(row, col);
        if c == 'x' {
            board = board.with_mark(false, mv / 9, mv % 9);
        } else if c == 'o' {
            board = board.with_mark(true, mv / 9, mv % 9);
        }
        d += 1;
    }
    let placed: Board = board;
    let mut z: u64 = 0;
    while z < 9
        invariant
            z <= 9,
            board == crown(placed, placed, z as int),
        decreases 9 - z,
    {
        if line_presence(placed.occupancy(false, z)) {
            board = board.with_owner(false, z);
        } else if line_presence(placed.occupancy(true, z)) {
            board = board.with_owner(true, z);
        }
        z += 1;
    }
    proof {
        crate::board::lemma_aim(board, zone);
    }
    Some(board.with_active_zone(zone))
}

} // verus!
