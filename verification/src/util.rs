//! Packing and unpacking of the 64-bit display state into its eight columns.
//!
//! A display state is one `u64` understood as 8 packed columns; column 0 is
//! the least-significant byte and column 7 the most-significant byte. The
//! encode and decode functions below fix that byte order explicitly, so no
//! raw memory reinterpretation (and no platform endianness) is involved.

use vstd::prelude::*;

use crate::display::Column;

verus! {

/// Column `k` of a packed display state: byte `k` of the 64-bit value,
/// least-significant byte first.
pub open spec fn col_of(v: u64, k: int) -> Column
    recommends
        0 <= k < 8,
{
    ((v >> ((8 * k) as u64)) & 0xff) as u8
}

/// The eight columns of a packed display state, in column order.
pub open spec fn cols_of(v: u64) -> Seq<Column> {
    Seq::new(8, |k: int| col_of(v, k))
}

/// Two packed states with the same eight columns are the same value.
pub proof fn lemma_eq_by_cols(a: u64, b: u64)
    requires
        forall|k: int| 0 <= k < 8 ==> col_of(a, k) == col_of(b, k),
    ensures
        a == b,
{
    assert(a == b) by (bit_vector)
        requires
            col_of(a, 0) == col_of(b, 0),
            col_of(a, 1) == col_of(b, 1),
            col_of(a, 2) == col_of(b, 2),
            col_of(a, 3) == col_of(b, 3),
            col_of(a, 4) == col_of(b, 4),
            col_of(a, 5) == col_of(b, 5),
            col_of(a, 6) == col_of(b, 6),
            col_of(a, 7) == col_of(b, 7),
    ;
}

/// All columns of the zero state are zero.
pub proof fn lemma_zero_cols()
    ensures
        forall|k: int| 0 <= k < 8 ==> col_of(0u64, k) == 0u8,
{
    assert(col_of(0u64, 0) == 0u8 && col_of(0u64, 1) == 0u8 && col_of(0u64, 2) == 0u8
        && col_of(0u64, 3) == 0u8 && col_of(0u64, 4) == 0u8 && col_of(0u64, 5) == 0u8
        && col_of(0u64, 6) == 0u8 && col_of(0u64, 7) == 0u8) by (bit_vector);
}

/// Unpack a display state into its eight columns.
pub fn to_columns(u: u64) -> (r: [Column; 8])
    ensures
        r@ =~= cols_of(u),
{
    [
        ((u >> 0u64) & 0xff) as u8,
        ((u >> 8u64) & 0xff) as u8,
        ((u >> 16u64) & 0xff) as u8,
        ((u >> 24u64) & 0xff) as u8,
        ((u >> 32u64) & 0xff) as u8,
        ((u >> 40u64) & 0xff) as u8,
        ((u >> 48u64) & 0xff) as u8,
        ((u >> 56u64) & 0xff) as u8,
    ]
}

/// Pack eight columns into a display state; column 0 becomes the
/// least-significant byte.
pub fn from_columns(columns: [Column; 8]) -> (r: u64)
    ensures
        cols_of(r) =~= columns@,
{
    let c0 = columns[0];
    let c1 = columns[1];
    let c2 = columns[2];
    let c3 = columns[3];
    let c4 = columns[4];
    let c5 = columns[5];
    let c6 = columns[6];
    let c7 = columns[7];
    let r = (c0 as u64) | ((c1 as u64) << 8u64) | ((c2 as u64) << 16u64) | ((c3 as u64) << 24u64)
        | ((c4 as u64) << 32u64) | ((c5 as u64) << 40u64) | ((c6 as u64) << 48u64)
        | ((c7 as u64) << 56u64);
    proof {
        assert(col_of(r, 0) == c0 && col_of(r, 1) == c1 && col_of(r, 2) == c2 && col_of(r, 3) == c3
            && col_of(r, 4) == c4 && col_of(r, 5) == c5 && col_of(r, 6) == c6 && col_of(r, 7)
            == c7) by (bit_vector)
            requires
                r == (c0 as u64) | ((c1 as u64) << 8u64) | ((c2 as u64) << 16u64) | ((c3 as u64)
                    << 24u64) | ((c4 as u64) << 32u64) | ((c5 as u64) << 40u64) | ((c6 as u64)
                    << 48u64) | ((c7 as u64) << 56u64),
        ;
    }
    r
}

} // verus!
