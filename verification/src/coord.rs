//! The logical-to-physical coordinate map of the LED matrix.
//!
//! Writing to logical location (0,0) does not light the corner LED: the
//! matrix is wired so that each logical column occupies two physical column
//! slots (only the even one is connected), and the rows are soldered with an
//! off-by-one rotation: the last logical row sits at physical y=7 while
//! logical rows 0..=6 sit at y=6 down to y=0. The table below records those
//! wiring facts; it is a board property, not a formula to derive.

use vstd::prelude::*;

verus! {

/// A physical LED address as the display controller expects it.
#[derive(Clone, Copy, Debug, PartialEq, Eq, Structural)]
pub struct PhysCoord {
    /// The physical column slot; only even slots are wired.
    pub x: u8,
    /// The physical row.
    pub y: u8,
}

/// The physical address of a logical (row, column) cell, as the board is
/// wired.
pub open spec fn spec_physical(row: int, col: int) -> PhysCoord
    recommends
        0 <= row < 8 && 0 <= col < 8,
{
    PhysCoord {
        x: if col == 0 {
            0
        } else if col == 1 {
            2
        } else if col == 2 {
            4
        } else if col == 3 {
            6
        } else if col == 4 {
            8
        } else if col == 5 {
            10
        } else if col == 6 {
            12
        } else {
            14
        },
        y: if row == 0 {
            6
        } else if row == 1 {
            5
        } else if row == 2 {
            4
        } else if row == 3 {
            3
        } else if row == 4 {
            2
        } else if row == 5 {
            1
        } else if row == 6 {
            0
        } else {
            7
        },
    }
}

/// Translate a logical (row, column) cell of the 8x8 grid into the physical
/// address the display controller needs. Total over the logical grid;
/// indices outside it are a caller bug and are ruled out.
pub fn physical(row: u8, col: u8) -> (r: PhysCoord)
    requires
        row < 8,
        col < 8,
    ensures
        r == spec_physical(row as int, col as int),
{
    let x: u8 = match col {
        0 => 0,
        1 => 2,
        2 => 4,
        3 => 6,
        4 => 8,
        5 => 10,
        6 => 12,
        _ => 14,
    };
    let y: u8 = match row {
        0 => 6,
        1 => 5,
        2 => 4,
        3 => 3,
        4 => 2,
        5 => 1,
        6 => 0,
        _ => 7,
    };
    PhysCoord { x, y }
}

/// The coordinate map is injective: distinct logical cells land on distinct
/// physical addresses, so the 64 logical cells cover 64 distinct LEDs.
pub proof fn lemma_physical_injective(r1: int, c1: int, r2: int, c2: int)
    requires
        0 <= r1 < 8,
        0 <= c1 < 8,
        0 <= r2 < 8,
        0 <= c2 < 8,
        !(r1 == r2 && c1 == c2),
    ensures
        spec_physical(r1, c1) != spec_physical(r2, c2),
{
}

} // verus!
