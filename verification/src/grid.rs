//! Line primitives on a 3x3 grid held in the low nine bits of a `u64`.
//!
//! Bit `3 * row + column` stands for one cell, so bit 0 is the north-west
//! corner and bit 8 the south-east corner.

use vstd::prelude::*;

verus! {

/// All nine cells of a grid.
pub const CHUNK: u64 = 0b111111111;

/// Whether bit `i` of `x` is set.
pub open spec fn bit(x: u64, i: u64) -> bool {
    (x >> i) & 1 == 1
}

/// Bit `i` of `x` as a number, 0 or 1.
pub open spec fn bit_value(x: u64, i: u64) -> int {
    if bit(x, i) {
        1
    } else {
        0
    }
}

/// How many of the low nine bits of `x` are set.
pub open spec fn count_cells(x: u64) -> int {
    bit_value(x, 0) + bit_value(x, 1) + bit_value(x, 2) + bit_value(x, 3) + bit_value(x, 4)
        + bit_value(x, 5) + bit_value(x, 6) + bit_value(x, 7) + bit_value(x, 8)
}

/// The three cells of line `l`, as a mask. Lines 0 to 2 are the columns from
/// west to east, lines 3 to 5 the rows from north to south, line 6 the diagonal
/// through the north-west corner and line 7 the one through the north-east
/// corner.
pub open spec fn line_mask(l: int) -> u64 {
    if l == 0 {
        0b001001001
    } else if l == 1 {
        0b010010010
    } else if l == 2 {
        0b100100100
    } else if l == 3 {
        0b000000111
    } else if l == 4 {
        0b000111000
    } else if l == 5 {
        0b111000000
    } else if l == 6 {
        0b100010001
    } else {
        0b001010100
    }
}

/// How many cells of line `l` are set in `grid`.
pub open spec fn line_count(grid: u64, l: int) -> int {
    count_cells(grid & line_mask(l))
}

/// Whether all three cells of line `l` are set in `grid`.
pub open spec fn line_filled(grid: u64, l: int) -> bool {
    grid & line_mask(l) == line_mask(l)
}

/// Whether some line of the grid is completely set.
pub open spec fn has_line(grid: u64) -> bool {
    exists|l: int| 0 <= l < 8 && #[trigger] line_filled(grid, l)
}

/// The per-line occupancy counts of `grid`: the three-bit field at bit `3 * l`
/// of the result holds the number of cells of line `l` that are set, and
/// nothing above bit 23 is set.
pub fn lines(grid: u64) -> (r: u64)
    ensures
        r < 0x1000000,
        forall|l: int| 0 <= l < 8 ==> (r >> ((3 * l) as u64)) & 0b111 == #[trigger] line_count(grid, l),
{
    let b0: u64 = grid & 1;
    let b1: u64 = (grid >> 1) & 1;
    let b2: u64 = (grid >> 2) & 1;
    let b3: u64 = (grid >> 3) & 1;
    let b4: u64 = (grid >> 4) & 1;
    let b5: u64 = (grid >> 5) & 1;
    let b6: u64 = (grid >> 6) & 1;
    let b7: u64 = (grid >> 7) & 1;
    let b8: u64 = (grid >> 8) & 1;
    proof {
        lemma_lines(grid);
    }
    0b_000_001_000_000_001_000_000_001 * b0
        + 0b_000_000_000_000_001_000_001_000 * b1
        + 0b_001_000_000_000_001_001_000_000 * b2
        + 0b_000_000_000_001_000_000_000_001 * b3
        + 0b_001_001_000_001_000_000_001_000 * b4
        + 0b_000_000_000_001_000_001_000_000 * b5
        + 0b_001_000_001_000_000_000_000_001 * b6
        + 0b_000_000_001_000_000_000_001_000 * b7
        + 0b_000_001_001_000_000_001_000_000 * b8
}

/// The packed counts as a formula of the grid.
pub open spec fn packed_counts(grid: u64) -> int {
    0b_000_001_000_000_001_000_000_001 * (grid & 1)
        + 0b_000_000_000_000_001_000_001_000 * ((grid >> 1) & 1)
        + 0b_001_000_000_000_001_001_000_000 * ((grid >> 2) & 1)
        + 0b_000_000_000_001_000_000_000_001 * ((grid >> 3) & 1)
        + 0b_001_001_000_001_000_000_001_000 * ((grid >> 4) & 1)
        + 0b_000_000_000_001_000_001_000_000 * ((grid >> 5) & 1)
        + 0b_001_000_001_000_000_000_000_001 * ((grid >> 6) & 1)
        + 0b_000_000_001_000_000_000_001_000 * ((grid >> 7) & 1)
        + 0b_000_001_001_000_000_001_000_000 * ((grid >> 8) & 1)
}

proof fn lemma_lines(grid: u64)
    by (bit_vector)
    ensures
        0 <= packed_counts(grid) < 0x1000000,
        ((packed_counts(grid) as u64) >> 0) & 0b111 == line_count(grid, 0),
        ((packed_counts(grid) as u64) >> 3) & 0b111 == line_count(grid, 1),
        ((packed_counts(grid) as u64) >> 6) & 0b111 == line_count(grid, 2),
        ((packed_counts(grid) as u64) >> 9) & 0b111 == line_count(grid, 3),
        ((packed_counts(grid) as u64) >> 12) & 0b111 == line_count(grid, 4),
        ((packed_counts(grid) as u64) >> 15) & 0b111 == line_count(grid, 5),
        ((packed_counts(grid) as u64) >> 18) & 0b111 == line_count(grid, 6),
        ((packed_counts(grid) as u64) >> 21) & 0b111 == line_count(grid, 7),
{
}

/// Whether some line of `grid` is completely set; bits above the ninth are
/// ignored.
pub fn line_presence(grid: u64) -> (r: bool)
    ensures
        r == has_line(grid),
{
    proof {
        lemma_line_presence(grid);
    }
    let b0: u64 = (grid & 1) * 0xff;
    let b1: u64 = ((grid >> 1) & 1) * 0xff;
    let b2: u64 = ((grid >> 2) & 1) * 0xff;
    let b3: u64 = ((grid >> 3) & 1) * 0xff;
    let b4: u64 = ((grid >> 4) & 1) * 0xff;
    let b5: u64 = ((grid >> 5) & 1) * 0xff;
    let b6: u64 = ((grid >> 6) & 1) * 0xff;
    let b7: u64 = ((grid >> 7) & 1) * 0xff;
    let b8: u64 = ((grid >> 8) & 1) * 0xff;
    proof {
        assert(line_filled(grid, 0) || line_filled(grid, 1) || line_filled(grid, 2) || line_filled(
            grid,
            3,
        ) || line_filled(grid, 4) || line_filled(grid, 5) || line_filled(grid, 6) || line_filled(
            grid,
            7,
        ) <==> has_line(grid));
    }
    0 != ((0b10110110 | b0) & (0b11101110 | b1) & (0b01011110 | b2) & (0b11110101 | b3) & (0b00101101
        | b4) & (0b11011101 | b5) & (0b01110011 | b6) & (0b11101011 | b7) & (0b10011011 | b8))
}

/// One bit per line, set where every cell of that line is set in `grid`: each
/// cell clears the bits of the lines through it unless it is set.
pub open spec fn filled_lines(grid: u64) -> u64 {
    (0b10110110 | (((grid & 1) * 0xff) as u64)) & (0b11101110 | ((((grid >> 1) & 1) * 0xff) as u64))
        & (0b01011110 | ((((grid >> 2) & 1) * 0xff) as u64)) & (0b11110101 | ((((grid >> 3) & 1)
        * 0xff) as u64)) & (0b00101101 | ((((grid >> 4) & 1) * 0xff) as u64)) & (0b11011101 | ((((
    grid >> 5) & 1) * 0xff) as u64)) & (0b01110011 | ((((grid >> 6) & 1) * 0xff) as u64)) & (
    0b11101011 | ((((grid >> 7) & 1) * 0xff) as u64)) & (0b10011011 | ((((grid >> 8) & 1)
        * 0xff) as u64))
}

proof fn lemma_line_presence(grid: u64)
    by (bit_vector)
    ensures
        (grid & 1) * 0xff <= 0xff,
        ((grid >> 1) & 1) * 0xff <= 0xff,
        ((grid >> 2) & 1) * 0xff <= 0xff,
        ((grid >> 3) & 1) * 0xff <= 0xff,
        ((grid >> 4) & 1) * 0xff <= 0xff,
        ((grid >> 5) & 1) * 0xff <= 0xff,
        ((grid >> 6) & 1) * 0xff <= 0xff,
        ((grid >> 7) & 1) * 0xff <= 0xff,
        ((grid >> 8) & 1) * 0xff <= 0xff,
        filled_lines(grid) != 0 <==> line_filled(grid, 0) || line_filled(grid, 1) || line_filled(
            grid,
            2,
        ) || line_filled(grid, 3) || line_filled(grid, 4) || line_filled(grid, 5) || line_filled(
            grid,
            6,
        ) || line_filled(grid, 7),
{
}

/// The empty grid has no line.
pub proof fn lemma_no_line()
    ensures
        !has_line(0),
{
    assert forall|l: int| 0 <= l < 8 implies !#[trigger] line_filled(0, l) by {
        lemma_empty_lines();
    }
}

proof fn lemma_empty_lines()
    by (bit_vector)
    ensures
        !line_filled(0, 0),
        !line_filled(0, 1),
        !line_filled(0, 2),
        !line_filled(0, 3),
        !line_filled(0, 4),
        !line_filled(0, 5),
        !line_filled(0, 6),
        !line_filled(0, 7),
{
}

/// A line is filled exactly if three of its cells are set, and a side
/// that fills a line leaves none of its cells to a side that shares no cell
/// with it.
pub proof fn lemma_line_counts(grid: u64, other: u64, l: int)
    requires
        0 <= l < 8,
    ensures
        0 <= line_count(grid, l) <= 3,
        line_filled(grid, l) <==> line_count(grid, l) == 3,
        grid & other == 0 && line_filled(grid, l) ==> line_count(other, l) == 0,
{
    lemma_full_lines(grid, other);
}

proof fn lemma_full_lines(grid: u64, other: u64)
    by (bit_vector)
    ensures
        line_count(grid, 0) <= 3 && (line_filled(grid, 0) <==> line_count(grid, 0) == 3),
        line_count(grid, 1) <= 3 && (line_filled(grid, 1) <==> line_count(grid, 1) == 3),
        line_count(grid, 2) <= 3 && (line_filled(grid, 2) <==> line_count(grid, 2) == 3),
        line_count(grid, 3) <= 3 && (line_filled(grid, 3) <==> line_count(grid, 3) == 3),
        line_count(grid, 4) <= 3 && (line_filled(grid, 4) <==> line_count(grid, 4) == 3),
        line_count(grid, 5) <= 3 && (line_filled(grid, 5) <==> line_count(grid, 5) == 3),
        line_count(grid, 6) <= 3 && (line_filled(grid, 6) <==> line_count(grid, 6) == 3),
        line_count(grid, 7) <= 3 && (line_filled(grid, 7) <==> line_count(grid, 7) == 3),
        grid & other == 0 && line_filled(grid, 0) ==> line_count(other, 0) == 0,
        grid & other == 0 && line_filled(grid, 1) ==> line_count(other, 1) == 0,
        grid & other == 0 && line_filled(grid, 2) ==> line_count(other, 2) == 0,
        grid & other == 0 && line_filled(grid, 3) ==> line_count(other, 3) == 0,
        grid & other == 0 && line_filled(grid, 4) ==> line_count(other, 4) == 0,
        grid & other == 0 && line_filled(grid, 5) ==> line_count(other, 5) == 0,
        grid & other == 0 && line_filled(grid, 6) ==> line_count(other, 6) == 0,
        grid & other == 0 && line_filled(grid, 7) ==> line_count(other, 7) == 0,
{
}

} // verus!
