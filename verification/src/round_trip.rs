//! Reading back the text of a board gives the board: the same marks and
//! active zone, with the owners worked out from the marks.

use vstd::prelude::*;
use crate::bits::{lemma_disjoint_set, lemma_empty_fields, lemma_grid_ext, lemma_grid_set};
use crate::board::{lemma_aim, lemma_claim, lemma_field_bound_of, lemma_mark, Board, Move};
use crate::encoding::{
    blank, board_of_rows, board_of_text, board_text, crown, display_cell, dots, expand,
    expand_char, mark_char, mark_of, place, row_chars, rows_text, squeeze, trailing_dots,
    well_shaped, zone_of_token,
};
use crate::grid::{bit, has_line, CHUNK};
use crate::notation::{zone_name, zone_named, zone_named_below};
use crate::text::{
    digit_char, digit_value, fields, free_of, is_space, lemma_fields_push, lemma_words_pair,
    no_space, words,
};

verus! {

/// Whether no character of `s` is a digit from 1 to 9.
pub open spec fn no_count(s: Seq<char>) -> bool {
    forall|i: int| 0 <= i < s.len() ==> !('1' <= #[trigger] s[i] <= '9')
}

/// Whether `s` holds marks and dots only.
pub open spec fn marks_only(s: Seq<char>) -> bool {
    forall|i: int| 0 <= i < s.len() ==> (#[trigger] s[i] == 'x' || s[i] == 'o' || s[i] == '.')
}

/// Replacing digits by dots goes through a text part by part.
pub proof fn lemma_expand_concat(a: Seq<char>, b: Seq<char>)
    ensures
        expand(a + b) == expand(a) + expand(b),
    decreases b.len(),
{
    if b.len() == 0 {
        assert(a + b =~= a);
        assert(expand(a) + expand(b) =~= expand(a));
    } else {
        lemma_expand_concat(a, b.drop_last());
        assert((a + b).drop_last() =~= a + b.drop_last());
        assert((a + b).last() == b.last());
        assert(expand(a) + expand(b.drop_last()) + expand_char(b.last()) =~= expand(a) + (expand(
            b.drop_last(),
        ) + expand_char(b.last())));
    }
}

/// A text without digits from 1 to 9 stays as it is.
pub proof fn lemma_expand_plain(s: Seq<char>)
    requires
        no_count(s),
    ensures
        expand(s) == s,
    decreases s.len(),
{
    if s.len() > 0 {
        let init = s.drop_last();
        assert(no_count(init)) by {
            assert forall|i: int| 0 <= i < init.len() implies !('1' <= #[trigger] init[i]
                <= '9') by {
                assert(init[i] == s[i]);
            }
        }
        lemma_expand_plain(init);
        assert(!('1' <= s[s.len() - 1] <= '9'));
        assert(init + seq![s.last()] =~= s);
    } else {
        assert(expand(s) =~= s);
    }
}

/// The dots that a text ends in are its last characters.
pub proof fn lemma_trailing_dots(s: Seq<char>)
    ensures
        trailing_dots(s) <= s.len(),
        s.skip(s.len() - trailing_dots(s)) == dots(trailing_dots(s)),
        s.len() > 0 && s.last() == '.' ==> trailing_dots(s) >= 1,
    decreases s.len(),
{
    if s.len() == 0 || s.last() != '.' {
        assert(s.skip(s.len() as int) =~= dots(0));
    } else {
        let init = s.drop_last();
        lemma_trailing_dots(init);
        let n = trailing_dots(init);
        assert(s.skip(s.len() - (n + 1)) =~= init.skip(init.len() - n).push('.'));
        assert(dots(n).push('.') =~= dots(n + 1));
    }
}

/// Replacing the digits of a squeezed row by dots gives the row back.
pub proof fn lemma_expand_squeeze(s: Seq<char>)
    requires
        marks_only(s),
        s.len() <= 9,
    ensures
        expand(squeeze(s)) == s,
    decreases s.len(),
{
    if s.len() == 0 {
    } else if s.last() != '.' {
        let init = s.drop_last();
        assert(marks_only(init)) by {
            assert forall|i: int| 0 <= i < init.len() implies (#[trigger] init[i] == 'x' || init[i]
                == 'o' || init[i] == '.') by {
                assert(init[i] == s[i]);
            }
        }
        lemma_expand_squeeze(init);
        let q = squeeze(init).push(s.last());
        assert(q.drop_last() =~= squeeze(init));
        assert(s[s.len() - 1] == 'x' || s[s.len() - 1] == 'o');
        assert(init + seq![s.last()] =~= s);
    } else {
        lemma_trailing_dots(s);
        let n = trailing_dots(s);
        let head = s.take(s.len() - n);
        assert(marks_only(head)) by {
            assert forall|i: int| 0 <= i < head.len() implies (#[trigger] head[i] == 'x' || head[i]
                == 'o' || head[i] == '.') by {
                assert(head[i] == s[i]);
            }
        }
        lemma_expand_squeeze(head);
        let q = squeeze(head).push(digit_char(n));
        assert(q.drop_last() =~= squeeze(head));
        assert(q.last() == digit_char(n));
        assert('1' <= digit_char(n) <= '9');
        assert(digit_value(digit_char(n)) == n);
        assert(head + s.skip(s.len() - n) =~= s);
    }
}

/// The first `n` rows of `b`, separated by slashes, with every cell written
/// out.
pub open spec fn plain_rows(b: Board, n: int) -> Seq<char>
    decreases n,
{
    if n <= 0 {
        Seq::empty()
    } else if n == 1 {
        row_chars(b, 0)
    } else {
        plain_rows(b, n - 1) + "/"@ + row_chars(b, n - 1)
    }
}

/// A row holds nine marks or dots.
pub proof fn lemma_row_chars(b: Board, row: int)
    ensures
        row_chars(b, row).len() == 9,
        marks_only(row_chars(b, row)),
        no_space(row_chars(b, row)),
        free_of(row_chars(b, row), '/'),
{
}

/// With their digits replaced by dots, the rows of the text of a board are
/// the rows written out; they hold no white space, and split at the slashes
/// into the rows of the board.
pub proof fn lemma_rows(b: Board, n: int)
    requires
        1 <= n <= 9,
    ensures
        expand(rows_text(b, n)) == plain_rows(b, n),
        plain_rows(b, n).len() > 0,
        no_space(plain_rows(b, n)),
        fields(plain_rows(b, n), '/') == Seq::new(n as nat, |r: int| row_chars(b, r)),
    decreases n,
{
    reveal_strlit("/");
    let row = row_chars(b, n - 1);
    lemma_row_chars(b, n - 1);
    lemma_expand_squeeze(row);
    if n == 1 {
        crate::text::lemma_fields_append(Seq::empty(), row, '/');
        assert(Seq::<char>::empty() + row =~= row);
        assert(fields(Seq::empty(), '/') =~= seq![Seq::empty()]);
        assert(seq![Seq::<char>::empty()].update(0, row) =~= Seq::new(
            1,
            |r: int| row_chars(b, r),
        ));
    } else {
        lemma_rows(b, n - 1);
        let before = plain_rows(b, n - 1);
        lemma_expand_concat(rows_text(b, n - 1) + "/"@, squeeze(row));
        lemma_expand_concat(rows_text(b, n - 1), "/"@);
        assert(no_count("/"@));
        lemma_expand_plain("/"@);
        let whole = plain_rows(b, n);
        assert(whole == before + seq!['/'] + row);
        assert forall|i: int| 0 <= i < whole.len() implies !is_space(#[trigger] whole[i]) by {
            if i < before.len() {
                assert(whole[i] == before[i]);
            } else if i == before.len() {
                assert(whole[i] == '/');
            } else {
                assert(whole[i] == row[i - before.len() - 1]);
            }
        }
        lemma_fields_push(before, row, '/');
        assert(Seq::new((n - 1) as nat, |r: int| row_chars(b, r)).push(row) =~= Seq::new(
            n as nat,
            |r: int| row_chars(b, r),
        ));
    }
}

/// Each zone name, and `any`, is a word without digits that names that
/// active zone and no other.
pub proof fn lemma_zone_names(z: u64)
    requires
        z <= 9,
    ensures
        zone_name(z).len() > 0,
        no_space(zone_name(z)),
        no_count(zone_name(z)),
        zone_of_token(zone_name(z)) == Some(z),
{
    reveal_strlit("nw");
    reveal_strlit("n");
    reveal_strlit("ne");
    reveal_strlit("w");
    reveal_strlit("c");
    reveal_strlit("e");
    reveal_strlit("sw");
    reveal_strlit("s");
    reveal_strlit("se");
    reveal_strlit("any");
    reveal_with_fuel(zone_named_below, 10);
    let t = zone_name(z);
    assert(zone_name(0).len() == 2 && zone_name(2).len() == 2 && zone_name(6).len() == 2
        && zone_name(8).len() == 2);
    assert(zone_name(1).len() == 1 && zone_name(3).len() == 1 && zone_name(4).len() == 1
        && zone_name(5).len() == 1 && zone_name(7).len() == 1);
    assert(zone_name(9).len() == 3);
    assert(zone_name(0)[1] == 'w');
    assert(zone_name(2)[1] == 'e');
    assert(zone_name(6)[1] == 'w');
    assert(zone_name(8)[1] == 'e');
    assert(zone_name(1)[0] == 'n');
    assert(zone_name(3)[0] == 'w');
    assert(zone_name(4)[0] == 'c');
    assert(zone_name(5)[0] == 'e');
    assert(zone_name(7)[0] == 's');
    assert(zone_name(0)[0] == 'n');
    assert(zone_name(2)[0] == 'n');
    assert(zone_name(6)[0] == 's');
    assert(zone_name(8)[0] == 's');
    assert(zone_name(9)[0] == 'a');
    assert(zone_named_below(t, 0) is None);
    assert(z >= 1 ==> zone_named_below(t, 1) is None);
    assert(z >= 2 ==> zone_named_below(t, 2) is None);
    assert(z >= 3 ==> zone_named_below(t, 3) is None);
    assert(z >= 4 ==> zone_named_below(t, 4) is None);
    assert(z >= 5 ==> zone_named_below(t, 5) is None);
    assert(z >= 6 ==> zone_named_below(t, 6) is None);
    assert(z >= 7 ==> zone_named_below(t, 7) is None);
    assert(z >= 8 ==> zone_named_below(t, 8) is None);
    assert(z >= 9 ==> zone_named_below(t, 9) is None);
    if z < 9 {
        assert(zone_named_below(t, (z + 1) as u64) == Some(z));
        crate::notation::lemma_zone_named_stable(t, (z + 1) as u64, 9);
    }
}

/// Where the cell `mv` stands among the 81 cells of the nine rows, counting
/// row by row.
pub open spec fn index_of(mv: Move) -> int {
    9 * (3 * ((mv / 9) / 3) + (mv % 9) / 3) + 3 * ((mv / 9) % 3) + (mv % 9) % 3
}

/// The letter that marks the cells of `side`.
pub open spec fn side_char(side: bool) -> char {
    if side {
        'o'
    } else {
        'x'
    }
}

/// The character that `rows` show for the cell `mv`.
pub open spec fn shown(rows: Seq<Seq<char>>, mv: Move) -> char {
    rows[index_of(mv) / 9][index_of(mv) % 9]
}

/// The `d`-th cell of the rows is a cell of the board, and stands at `d`.
pub proof fn lemma_display(d: int)
    requires
        0 <= d < 81,
    ensures
        display_cell(d / 9, d % 9) < 81,
        index_of(display_cell(d / 9, d % 9)) == d,
{
    let row: int = d / 9;
    let col: int = d % 9;
    let zr: int = row / 3;
    let kr: int = row % 3;
    let zc: int = col / 3;
    let kc: int = col % 3;
    let z: int = 3 * zr + zc;
    let k: int = 3 * kr + kc;
    let mv: int = 9 * z + k;
    assert(display_cell(row, col) == mv);
    assert(mv / 9 == z && mv % 9 == k);
    assert(z / 3 == zr && z % 3 == zc);
    assert(k / 3 == kr && k % 3 == kc);
    assert(((mv as u64) / 9) as int == z && ((mv as u64) % 9) as int == k);
}

/// Each cell of the board stands at one place in the rows.
pub proof fn lemma_index(mv: Move)
    requires
        mv < 81,
    ensures
        0 <= index_of(mv) < 81,
        display_cell(index_of(mv) / 9, index_of(mv) % 9) == mv,
{
    let z: int = (mv / 9) as int;
    let k: int = (mv % 9) as int;
    let zr: int = z / 3;
    let zc: int = z % 3;
    let kr: int = k / 3;
    let kc: int = k % 3;
    let row: int = 3 * zr + kr;
    let col: int = 3 * zc + kc;
    assert(index_of(mv) == 9 * row + col);
    assert((9 * row + col) / 9 == row && (9 * row + col) % 9 == col);
    assert(row / 3 == zr && row % 3 == kr);
    assert(col / 3 == zc && col % 3 == kc);
    assert(27 * zr + 9 * zc + 3 * kr + kc == 9 * z + k);
}

/// The blank board has no marks, no owners, and active zone 0.
pub proof fn lemma_blank()
    ensures
        forall|s: bool, mv: Move| mv < 81 ==> !#[trigger] blank().has(s, mv),
        forall|s: bool, z: u64| z < 9 ==> !#[trigger] blank().owns(s, z),
        forall|s: bool| #[trigger] blank().meta(s) == 0,
        blank().active() == 0,
        blank().slack() == (0u64, 0u64, 0u64),
{
    lemma_empty_fields(0);
    lemma_empty_fields(1);
    lemma_empty_fields(2);
    lemma_empty_fields(3);
    lemma_empty_fields(4);
    lemma_empty_fields(5);
    lemma_empty_fields(6);
    assert forall|s: bool, mv: Move| mv < 81 implies !#[trigger] blank().has(s, mv) by {
        assert(blank().grid(s, mv / 9) == 0);
    }
}

/// After the first `n` cells of `rows` are placed, a side holds a cell
/// exactly if that cell is among them and shows the letter of that side.
pub proof fn lemma_place(rows: Seq<Seq<char>>, n: int)
    requires
        well_shaped(rows),
        0 <= n <= 81,
    ensures
        forall|s: bool, mv: Move|
            mv < 81 ==> #[trigger] place(rows, n).has(s, mv) == (index_of(mv) < n && shown(
                rows,
                mv,
            ) == side_char(s)),
        forall|s: bool| #[trigger] place(rows, n).meta(s) == 0,
        place(rows, n).active() == 0,
        place(rows, n).slack() == (0u64, 0u64, 0u64),
    decreases n,
{
    if n == 0 {
        lemma_blank();
        assert forall|s: bool, mv: Move| mv < 81 implies #[trigger] place(rows, n).has(s, mv) == (
        index_of(mv) < n && shown(rows, mv) == side_char(s)) by {
            lemma_index(mv);
        }
    } else {
        lemma_place(rows, n - 1);
        let p = place(rows, n - 1);
        let q = place(rows, n);
        let d = n - 1;
        let c = rows[d / 9][d % 9];
        let mv0 = display_cell(d / 9, d % 9);
        lemma_display(d);
        if c == 'x' || c == 'o' {
            let s0 = c == 'o';
            assert(q == p.mark(s0, mv0 / 9, mv0 % 9));
            lemma_mark(p, s0, mv0 / 9, mv0 % 9);
        }
        assert forall|s: bool, mv: Move| mv < 81 implies #[trigger] q.has(s, mv) == (index_of(mv)
            < n && shown(rows, mv) == side_char(s)) by {
            lemma_index(mv);
            assert(p.has(s, mv) == (index_of(mv) < n - 1 && shown(rows, mv) == side_char(s)));
            lemma_field_bound_of(p, s, mv / 9);
            lemma_grid_set(p.grid(s, mv / 9), mv0 % 9, mv % 9);
            if c == 'x' || c == 'o' {
                let s0 = c == 'o';
                assert(q.grid(s, mv / 9) == (if s == s0 && mv / 9 == mv0 / 9 {
                    p.grid(s, mv / 9) | (1u64 << (mv0 % 9))
                } else {
                    p.grid(s, mv / 9)
                }));
            }
        }
        assert forall|s: bool| #[trigger] q.meta(s) == 0 by {
            assert(p.meta(s) == 0);
        }
    }
}

/// Whether `side` is the side that a reader of `b` records as the owner of
/// `zone`: the side with a line there, the first player if both have one.
pub open spec fn wins(b: Board, side: bool, zone: u64) -> bool {
    if side {
        !has_line(b.grid(false, zone)) && has_line(b.grid(true, zone))
    } else {
        has_line(b.grid(false, zone))
    }
}

/// Crowning a board without owners records, for each of the first `n`
/// zones, the side that has a line there, and changes nothing else.
pub proof fn lemma_crown(b: Board, n: int)
    requires
        0 <= n <= 9,
        b.meta(false) == 0,
        b.meta(true) == 0,
    ensures
        forall|s: bool, z: u64| z < 9 ==> #[trigger] crown(b, b, n).grid(s, z) == b.grid(s, z),
        forall|s: bool, z: u64|
            z < 9 ==> #[trigger] crown(b, b, n).owns(s, z) == (z < n && wins(b, s, z)),
        crown(b, b, n).active() == b.active(),
        crown(b, b, n).slack() == b.slack(),
    decreases n,
{
    if n == 0 {
        lemma_empty_fields(0);
        lemma_empty_fields(1);
        lemma_empty_fields(2);
        lemma_empty_fields(3);
        lemma_empty_fields(4);
        lemma_empty_fields(5);
        lemma_empty_fields(6);
    } else {
        lemma_crown(b, n - 1);
        let p = crown(b, b, n - 1);
        let q = crown(b, b, n);
        let z0 = (n - 1) as u64;
        lemma_claim(p, false, z0);
        lemma_claim(p, true, z0);
        assert forall|s: bool, z: u64| z < 9 implies #[trigger] q.owns(s, z) == (z < n && wins(
            b,
            s,
            z,
        )) by {
            assert(p.owns(s, z) == (z < n - 1 && wins(b, s, z)));
            lemma_field_bound_of(p, s, 0);
            lemma_grid_set(p.meta(s), z0, z);
        }
        assert forall|s: bool, z: u64| z < 9 implies #[trigger] q.grid(s, z) == b.grid(s, z) by {
            assert(p.grid(s, z) == b.grid(s, z));
        }
    }
}

/// What reading nine rows gives: a side holds a cell exactly if the rows
/// show its letter there; a zone is owned by the side that has a line in it;
/// the active zone is the one named; and the bits outside the fields are
/// clear.
pub proof fn lemma_board_of_rows(rows: Seq<Seq<char>>, zone: u64)
    requires
        well_shaped(rows),
        zone <= 9,
    ensures
        forall|s: bool, mv: Move|
            mv < 81 ==> #[trigger] board_of_rows(rows, zone).has(s, mv) == (shown(rows, mv)
                == side_char(s)),
        forall|s: bool, z: u64|
            z < 9 ==> #[trigger] board_of_rows(rows, zone).owns(s, z) == wins(
                board_of_rows(rows, zone),
                s,
                z,
            ),
        board_of_rows(rows, zone).active() == zone,
        board_of_rows(rows, zone).slack() == (0u64, 0u64, 0u64),
{
    let placed = place(rows, 81);
    let crowned = crown(placed, placed, 9);
    let r = board_of_rows(rows, zone);
    lemma_place(rows, 81);
    lemma_crown(placed, 9);
    lemma_aim(crowned, zone);
    assert forall|s: bool, mv: Move| mv < 81 implies #[trigger] r.has(s, mv) == (shown(rows, mv)
        == side_char(s)) by {
        lemma_index(mv);
        assert(r.grid(s, mv / 9) == crowned.grid(s, mv / 9));
        assert(crowned.grid(s, mv / 9) == placed.grid(s, mv / 9));
        assert(placed.has(s, mv) == (index_of(mv) < 81 && shown(rows, mv) == side_char(s)));
    }
    assert forall|s: bool, z: u64| z < 9 implies #[trigger] r.owns(s, z) == wins(r, s, z) by {
        assert(crowned.owns(s, z) == wins(placed, s, z));
        assert(r.grid(false, z) == crowned.grid(false, z));
        assert(r.grid(true, z) == crowned.grid(true, z));
        assert(crowned.grid(false, z) == placed.grid(false, z));
        assert(crowned.grid(true, z) == placed.grid(true, z));
    }
}

/// The nine rows of `b`.
pub open spec fn rows_of(b: Board) -> Seq<Seq<char>> {
    Seq::new(9, |r: int| row_chars(b, r))
}

/// The text of a board reads as the board that its nine rows and its active
/// zone give.
pub proof fn lemma_text_reads(b: Board)
    requires
        b.wf(),
    ensures
        well_shaped(rows_of(b)),
        board_of_text(board_text(b)) == Some(board_of_rows(rows_of(b), b.active())),
{
    reveal_strlit(" ");
    let zone = b.active();
    let name = zone_name(zone);
    let plain = plain_rows(b, 9);
    let rows = rows_of(b);
    lemma_rows(b, 9);
    lemma_zone_names(zone);
    lemma_expand_concat(rows_text(b, 9) + " "@, name);
    lemma_expand_concat(rows_text(b, 9), " "@);
    assert(no_count(" "@));
    lemma_expand_plain(" "@);
    lemma_expand_plain(name);
    assert(expand(board_text(b)) == plain + seq![' '] + name);
    lemma_words_pair(plain, name);
    assert(well_shaped(rows)) by {
        assert forall|r: int| 0 <= r < 9 implies (#[trigger] rows[r]).len() == 9 by {
            lemma_row_chars(b, r);
        }
    }
}

/// Placing the rows of a board on which no cell is claimed by both sides
/// gives each side the cells that it holds on that board.
pub proof fn lemma_place_rows(b: Board, s: bool, mv: Move)
    requires
        b.exclusive(),
        mv < 81,
    ensures
        place(rows_of(b), 81).has(s, mv) == b.has(s, mv),
{
    let rows = rows_of(b);
    assert(well_shaped(rows)) by {
        assert forall|r: int| 0 <= r < 9 implies (#[trigger] rows[r]).len() == 9 by {
            lemma_row_chars(b, r);
        }
    }
    lemma_place(rows, 81);
    lemma_index(mv);
    let i = index_of(mv);
    assert(rows[i / 9] == row_chars(b, i / 9));
    assert(shown(rows, mv) == mark_char(mark_of(b, mv)));
    assert(b.overlap(mv / 9) == 0);
    lemma_disjoint_set(b.grid(false, mv / 9), b.grid(true, mv / 9), mv % 9);
}

/// Placing the rows of a board on which no cell is claimed by both sides
/// gives each side the grid that it has on that board in every zone.
pub proof fn lemma_place_grids(b: Board, s: bool, z: u64)
    requires
        b.exclusive(),
        z < 9,
    ensures
        place(rows_of(b), 81).grid(s, z) == b.grid(s, z),
{
    let placed = place(rows_of(b), 81);
    lemma_field_bound_of(placed, s, z);
    lemma_field_bound_of(b, s, z);
    lemma_place_rows(b, s, (9 * z) as u64);
    lemma_place_rows(b, s, (9 * z + 1) as u64);
    lemma_place_rows(b, s, (9 * z + 2) as u64);
    lemma_place_rows(b, s, (9 * z + 3) as u64);
    lemma_place_rows(b, s, (9 * z + 4) as u64);
    lemma_place_rows(b, s, (9 * z + 5) as u64);
    lemma_place_rows(b, s, (9 * z + 6) as u64);
    lemma_place_rows(b, s, (9 * z + 7) as u64);
    lemma_place_rows(b, s, (9 * z + 8) as u64);
    lemma_grid_ext(placed.grid(s, z), b.grid(s, z));
}

/// Reading the text of a board on which no cell is claimed by both sides
/// gives a board with the same marks and the same active zone, on which each
/// zone is owned by the side that has a line in it.
pub proof fn lemma_round_trip(b: Board)
    requires
        b.wf(),
        b.exclusive(),
    ensures
        board_of_text(board_text(b)) is Some,
        forall|s: bool, z: u64|
            z < 9 ==> #[trigger] board_of_text(board_text(b))->0.grid(s, z) == b.grid(s, z),
        forall|s: bool, z: u64|
            z < 9 ==> #[trigger] board_of_text(board_text(b))->0.owns(s, z) == wins(b, s, z),
        board_of_text(board_text(b))->0.active() == b.active(),
        board_of_text(board_text(b))->0.slack() == (0u64, 0u64, 0u64),
{
    let zone = b.active();
    let rows = rows_of(b);
    lemma_text_reads(b);
    let placed = place(rows, 81);
    lemma_place(rows, 81);
    lemma_crown(placed, 9);
    let crowned = crown(placed, placed, 9);
    lemma_aim(crowned, zone);
    let r = board_of_rows(rows, zone);
    assert forall|s: bool, z: u64| z < 9 implies #[trigger] r.grid(s, z) == b.grid(s, z) by {
        lemma_place_grids(b, s, z);
        assert(crowned.grid(s, z) == placed.grid(s, z));
    }
    assert forall|s: bool, z: u64| z < 9 implies #[trigger] r.owns(s, z) == wins(b, s, z) by {
        assert(crowned.owns(s, z) == wins(placed, s, z));
        lemma_place_grids(b, false, z);
        lemma_place_grids(b, true, z);
    }
}

} // verus!
