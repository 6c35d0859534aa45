//! Constants of Keccak-f[1600] and the addressing of the 5x5 lane matrix.

use vstd::prelude::*;

verus! {

/// Number of rounds of one Keccak-f[1600] permutation.
pub const PERMUTATION: usize = 24;

/// Number of bits in a lane.
pub const LANE_SIZE: u32 = 64;

/// Number of lanes of the next message block that an absorb step mixes in.
pub const NEXT_INPUTS_LANES: usize = 17;

/// Rotation offsets of the rho step, indexed `[x][y]`.
pub const ROTATION_CONSTANTS: [[u32; 5]; 5] = [
    [0, 36, 3, 41, 18],
    [1, 44, 10, 45, 2],
    [62, 6, 43, 15, 61],
    [28, 55, 25, 21, 56],
    [27, 20, 39, 8, 14],
];

/// Round constants of the iota step, one per round.
pub const ROUND_CONSTANTS: [u64; 24] = [
    0x0000000000000001,
    0x0000000000008082,
    0x800000000000808A,
    0x8000000080008000,
    0x000000000000808B,
    0x0000000080000001,
    0x8000000080008081,
    0x8000000000008009,
    0x000000000000008A,
    0x0000000000000088,
    0x0000000080008009,
    0x000000008000000A,
    0x000000008000808B,
    0x800000000000008B,
    0x8000000000008089,
    0x8000000000008003,
    0x8000000000008002,
    0x8000000000000080,
    0x000000000000800A,
    0x800000008000000A,
    0x8000000080008081,
    0x8000000000008080,
    0x0000000080000001,
    0x8000000080008008,
];

/// Flat position of lane `(x, y)` in a state of 25 lanes.
pub open spec fn lane_index(x: int, y: int) -> int {
    5 * x + y
}

/// Rotation offset of lane `(x, y)`.
pub open spec fn rotation(x: int, y: int) -> int {
    ROTATION_CONSTANTS[x][y] as int
}

/// Round constant of round `i`.
pub open spec fn round_constant(i: int) -> u64 {
    ROUND_CONSTANTS[i]
}

/// Flat position of lane `(x, y)`.
pub fn lane_position(x: usize, y: usize) -> (k: usize)
    requires
        x < 5,
        y < 5,
    ensures
        k == lane_index(x as int, y as int),
        k < 25,
{
    5 * x + y
}

/// Rotation offset of the lane at flat position `k`.
pub fn rotation_of(k: usize) -> (r: u32)
    requires
        k < 25,
    ensures
        r == rotation(k as int / 5, k as int % 5),
        r < 64,
{
    let r: u32 = ROTATION_CONSTANTS[k / 5][k % 5];
    proof {
        lemma_rotation_bound(k as int / 5, k as int % 5);
    }
    r
}

/// Round constant of round `i`.
pub fn round_constant_of(i: usize) -> (rc: u64)
    requires
        i < 24,
    ensures
        rc == round_constant(i as int),
{
    ROUND_CONSTANTS[i]
}

/// Every rotation offset is below the lane size.
pub proof fn lemma_rotation_bound(x: int, y: int)
    requires
        0 <= x < 5,
        0 <= y < 5,
    ensures
        0 <= rotation(x, y) < 64,
{
    assert(rotation(0, 0) == 0 && rotation(4, 4) == 14);
}

} // verus!
