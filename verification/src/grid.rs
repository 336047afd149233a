//! The fixed seating permutation: translation of a raw memory slot index
//! into a canonical battle-grid position.

use vstd::prelude::*;

verus! {

/// Grid position for a raw slot index. The twenty known raw indices map onto
/// the twenty grid positions following the game's physical seating order;
/// every other index is unplaced (-1).
pub open spec fn grid_of(raw: int) -> int {
    if raw == 14 {
        0
    } else if raw == 12 {
        1
    } else if raw == 10 {
        2
    } else if raw == 11 {
        3
    } else if raw == 13 {
        4
    } else if raw == 19 {
        5
    } else if raw == 17 {
        6
    } else if raw == 15 {
        7
    } else if raw == 16 {
        8
    } else if raw == 18 {
        9
    } else if raw == 9 {
        10
    } else if raw == 7 {
        11
    } else if raw == 5 {
        12
    } else if raw == 6 {
        13
    } else if raw == 8 {
        14
    } else if raw == 4 {
        15
    } else if raw == 2 {
        16
    } else if raw == 0 {
        17
    } else if raw == 1 {
        18
    } else if raw == 3 {
        19
    } else {
        -1
    }
}

/// Raw slot index whose seat is the given grid position: the inverse of the
/// seating permutation, meaningful on the twenty grid positions only.
pub open spec fn raw_of(grid: int) -> int {
    if grid == 0 {
        14
    } else if grid == 1 {
        12
    } else if grid == 2 {
        10
    } else if grid == 3 {
        11
    } else if grid == 4 {
        13
    } else if grid == 5 {
        19
    } else if grid == 6 {
        17
    } else if grid == 7 {
        15
    } else if grid == 8 {
        16
    } else if grid == 9 {
        18
    } else if grid == 10 {
        9
    } else if grid == 11 {
        7
    } else if grid == 12 {
        5
    } else if grid == 13 {
        6
    } else if grid == 14 {
        8
    } else if grid == 15 {
        4
    } else if grid == 16 {
        2
    } else if grid == 17 {
        0
    } else if grid == 18 {
        1
    } else {
        3
    }
}

/// The seating map is total: the twenty known raw indices are carried
/// bijectively onto the twenty grid positions, and every raw index outside
/// them is unplaced.
pub proof fn lemma_grid_map_total(raw: int)
    ensures
        0 <= raw < 20 ==> 0 <= grid_of(raw) < 20 && raw_of(grid_of(raw)) == raw,
        !(0 <= raw < 20) ==> grid_of(raw) == -1,
{
}

/// The inverse direction of the seating bijection.
pub proof fn lemma_grid_map_inverse(grid: int)
    requires
        0 <= grid < 20,
    ensures
        0 <= raw_of(grid) < 20,
        grid_of(raw_of(grid)) == grid,
{
}

/// A grid position is always the unplaced sentinel or a seat on the grid.
pub proof fn lemma_grid_of_range(raw: int)
    ensures
        grid_of(raw) == -1 || 0 <= grid_of(raw) < 20,
{
}

/// Grid position for a raw slot index held in a machine integer.
pub fn grid_position(raw: i32) -> (r: i32)
    ensures
        r == grid_of(raw as int),
{
    match raw {
        14 => 0,
        12 => 1,
        10 => 2,
        11 => 3,
        13 => 4,
        19 => 5,
        17 => 6,
        15 => 7,
        16 => 8,
        18 => 9,
        9 => 10,
        7 => 11,
        5 => 12,
        6 => 13,
        8 => 14,
        4 => 15,
        2 => 16,
        0 => 17,
        1 => 18,
        3 => 19,
        _ => -1,
    }
}

/// Raw slot index for a grid position held in a machine integer.
pub fn raw_index(grid: i32) -> (r: i32)
    requires
        0 <= grid < 20,
    ensures
        r == raw_of(grid as int),
{
    match grid {
        0 => 14,
        1 => 12,
        2 => 10,
        3 => 11,
        4 => 13,
        5 => 19,
        6 => 17,
        7 => 15,
        8 => 16,
        9 => 18,
        10 => 9,
        11 => 7,
        12 => 5,
        13 => 6,
        14 => 8,
        15 => 4,
        16 => 2,
        17 => 0,
        18 => 1,
        _ => 3,
    }
}

} // verus!
