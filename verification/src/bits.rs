//! Nine-bit fields inside a 64-bit word, and the few facts about shifting and
//! masking that the rest of the crate rests on.
//!
//! A word holds up to seven fields; field `j` occupies bits `9 * j` to
//! `9 * j + 8`.

use vstd::prelude::*;
use crate::grid::{bit, CHUNK};

verus! {

/// Field `j` of `w`.
pub open spec fn field(w: u64, j: u64) -> u64 {
    (w >> ((9 * j) as u64)) & CHUNK
}

/// Reads field `j` of `w`.
pub fn read_field(w: u64, j: u64) -> (g: u64)
    requires
        j < 7,
    ensures
        g == field(w, j),
        g <= CHUNK,
{
    proof {
        lemma_field_bound(w, j);
    }
    (w >> (9 * j)) & CHUNK
}

/// A field never exceeds nine bits.
pub proof fn lemma_field_bound(w: u64, j: u64)
    by (bit_vector)
    requires
        j < 7,
    ensures
        field(w, j) <= 0b111111111,
{
}

/// Setting bit `k` of field `j` changes that field and no other, and leaves
/// the bits above the seventh field alone.
pub proof fn lemma_field_set(w: u64, j: u64, k: u64, i: u64)
    by (bit_vector)
    requires
        j < 7,
        k < 9,
        i < 7,
    ensures
        field(w | (1u64 << ((9 * j + k) as u64)), i) == (if i == j {
            field(w, j) | (1u64 << k)
        } else {
            field(w, i)
        }),
        (w | (1u64 << ((9 * j + k) as u64))) >> 63 == w >> 63,
        j < 6 ==> (w | (1u64 << ((9 * j + k) as u64))) >> 54 == w >> 54,
        j < 6 ==> (w | (1u64 << ((9 * j + k) as u64))) >> 58 == w >> 58,
{
}

/// Setting bit `k` of a grid sets that cell and no other, and keeps the grid
/// within nine bits.
pub proof fn lemma_grid_set(g: u64, k: u64, i: u64)
    by (bit_vector)
    requires
        g <= 0b111111111,
        k < 9,
        i < 9,
    ensures
        bit(g | (1u64 << k), i) == (bit(g, i) || i == k),
        g | (1u64 << k) <= 0b111111111,
{
}

/// Rewriting the four bits above the sixth field changes them and nothing
/// else.
pub proof fn lemma_top_field_set(w: u64, z: u64, i: u64)
    by (bit_vector)
    requires
        z <= 15,
        i < 6,
    ensures
        field((w & 0xfc3f_ffff_ffff_ffffu64) | (z << 54), i) == field(w, i),
        (((w & 0xfc3f_ffff_ffff_ffffu64) | (z << 54)) >> 54) & 0b1111 == z,
        ((w & 0xfc3f_ffff_ffff_ffffu64) | (z << 54)) >> 58 == w >> 58,
{
}

/// A set bit added to one of two disjoint grids keeps them disjoint exactly
/// when the other grid does not hold that bit.
pub proof fn lemma_disjoint_set(a: u64, b: u64, k: u64)
    by (bit_vector)
    requires
        k < 9,
        a & b == 0,
    ensures
        ((a | (1u64 << k)) & b == 0) == !bit(b, k),
        (a & (b | (1u64 << k)) == 0) == !bit(a, k),
        !(bit(a, k) && bit(b, k)),
{
}

/// Two grids with the same nine cells are the same grid.
pub proof fn lemma_grid_ext(a: u64, b: u64)
    by (bit_vector)
    requires
        a <= 0b111111111,
        b <= 0b111111111,
        bit(a, 0) == bit(b, 0),
        bit(a, 1) == bit(b, 1),
        bit(a, 2) == bit(b, 2),
        bit(a, 3) == bit(b, 3),
        bit(a, 4) == bit(b, 4),
        bit(a, 5) == bit(b, 5),
        bit(a, 6) == bit(b, 6),
        bit(a, 7) == bit(b, 7),
        bit(a, 8) == bit(b, 8),
    ensures
        a == b,
{
}

/// The fields of the two words that an empty board is made of.
pub proof fn lemma_empty_fields(j: u64)
    by (bit_vector)
    requires
        j < 7,
    ensures
        field(0, j) == 0,
        j < 6 ==> field(9u64 << 54, j) == 0,
        ((9u64 << 54) >> 54) & 0b1111 == 9,
        (0u64 >> 54) & 0b1111 == 0,
        0u64 & 0u64 == 0,
        !bit(0, j),
        !bit(0, 7),
        !bit(0, 8),
        0u64 >> 63 == 0,
        0u64 >> 58 == 0,
        (9u64 << 54) >> 58 == 0,
{
}

/// Each of the low nine bits of a word, isolated, is 0 or 1.
pub proof fn lemma_bit_values(x: u64)
    by (bit_vector)
    ensures
        (x >> 0) & 1 == 0 || (x >> 0) & 1 == 1,
        (x >> 1) & 1 == 0 || (x >> 1) & 1 == 1,
        (x >> 2) & 1 == 0 || (x >> 2) & 1 == 1,
        (x >> 3) & 1 == 0 || (x >> 3) & 1 == 1,
        (x >> 4) & 1 == 0 || (x >> 4) & 1 == 1,
        (x >> 5) & 1 == 0 || (x >> 5) & 1 == 1,
        (x >> 6) & 1 == 0 || (x >> 6) & 1 == 1,
        (x >> 7) & 1 == 0 || (x >> 7) & 1 == 1,
        (x >> 8) & 1 == 0 || (x >> 8) & 1 == 1,
{
}

/// Two grids packed into one table index.
pub proof fn lemma_key(us: u64, them: u64)
    by (bit_vector)
    requires
        us <= 0b111111111,
        them <= 0b111111111,
    ensures
        (them << 9) | us == 512 * them + us,
{
}

/// Two words with the same seven fields and the same top bit are the same
/// word.
pub proof fn lemma_word_ext(a: u64, b: u64)
    by (bit_vector)
    requires
        field(a, 0) == field(b, 0),
        field(a, 1) == field(b, 1),
        field(a, 2) == field(b, 2),
        field(a, 3) == field(b, 3),
        field(a, 4) == field(b, 4),
        field(a, 5) == field(b, 5),
        field(a, 6) == field(b, 6),
        a >> 63 == b >> 63,
    ensures
        a == b,
{
}

/// Two words with the same six fields, the same four bits above them and
/// the same bits above those are the same word.
pub proof fn lemma_share_ext(a: u64, b: u64)
    by (bit_vector)
    requires
        field(a, 0) == field(b, 0),
        field(a, 1) == field(b, 1),
        field(a, 2) == field(b, 2),
        field(a, 3) == field(b, 3),
        field(a, 4) == field(b, 4),
        field(a, 5) == field(b, 5),
        (a >> 54) & 0b1111 == (b >> 54) & 0b1111,
        a >> 58 == b >> 58,
    ensures
        a == b,
{
}

/// A cell is set in the union of two grids exactly if it is set in one of
/// them.
pub proof fn lemma_union_bit(a: u64, b: u64, k: u64)
    by (bit_vector)
    requires
        k < 9,
    ensures
        bit(a | b, k) == (bit(a, k) || bit(b, k)),
{
}

/// Two grids of which no cell is set in both share no cell.
pub proof fn lemma_disjoint_ext(a: u64, b: u64)
    by (bit_vector)
    requires
        a <= 0b111111111,
        b <= 0b111111111,
        !(bit(a, 0) && bit(b, 0)),
        !(bit(a, 1) && bit(b, 1)),
        !(bit(a, 2) && bit(b, 2)),
        !(bit(a, 3) && bit(b, 3)),
        !(bit(a, 4) && bit(b, 4)),
        !(bit(a, 5) && bit(b, 5)),
        !(bit(a, 6) && bit(b, 6)),
        !(bit(a, 7) && bit(b, 7)),
        !(bit(a, 8) && bit(b, 8)),
    ensures
        a & b == 0,
        b & a == 0,
{
}

} // verus!
