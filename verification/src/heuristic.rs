//! The fast midgame heuristic: a linear combination of regional disk-count
//! differences, a mobility term signed by the side to move, and a stability
//! term counting corner clusters that cannot be recaptured. A side left
//! without a move short-circuits to a large multiple of the disk difference.

use vstd::prelude::*;
use crate::bitcount::{pop64, popcount64, lemma_pop64_le};
use crate::othello_board::{spec_moves, number_of_moves, spec_eval};

verus! {

/// 2x2 corner clusters, one per corner.
pub const STABLE_2_0: u64 = 0b00000000_00000000_00000000_00000000_00000000_00000000_00000001_00000011u64;

pub const STABLE_2_1: u64 = 0b00000000_00000000_00000000_00000000_00000000_00000000_10000000_11000000u64;

pub const STABLE_2_2: u64 = 0b00000011_00000001_00000000_00000000_00000000_00000000_00000000_00000000u64;

pub const STABLE_2_3: u64 = 0b11000000_10000000_00000000_00000000_00000000_00000000_00000000_00000000u64;

/// 3x3 corner triangles, one per corner.
pub const STABLE_3_0: u64 = 0b00000000_00000000_00000000_00000000_00000000_00000001_00000011_00000111u64;

pub const STABLE_3_1: u64 = 0b00000111_00000011_00000001_00000000_00000000_00000000_00000000_00000000u64;

pub const STABLE_3_2: u64 = 0b00000000_00000000_00000000_00000000_00000000_10000000_11000000_11100000u64;

pub const STABLE_3_3: u64 = 0b11100000_11000000_10000000_00000000_00000000_00000000_00000000_00000000u64;

/// Regional weight term: the disk-count difference inside `mask`, weighted.
pub open spec fn region_term(black: u64, white: u64, mask: u64, coef: int) -> int {
    coef * (pop64(black & mask) - pop64(white & mask))
}

/// The board-region score: hand-tuned weights per region of the board.
pub open spec fn spec_board_weight(black: u64, white: u64) -> int {
    region_term(black, white, 9295429630892703873u64, 120) + region_term(
        black,
        white,
        4792111478498951490u64,
        -20,
    ) + region_term(black, white, 2594215222373842980u64, 20) + region_term(
        black,
        white,
        1729382813125312536u64,
        5,
    ) + region_term(black, white, 18577348462920192u64, -40) + region_term(
        black,
        white,
        16961350949551104u64,
        -5,
    ) + region_term(black, white, 39582420959232u64, 15) + region_term(
        black,
        white,
        26646985310208u64,
        3,
    )
}

/// Stability score of one side: one point per held 2x2 corner cluster, and
/// one more per held 3x3 corner triangle.
pub open spec fn side_stability(b: u64) -> int {
    (if b & STABLE_2_0 == STABLE_2_0 {
        1int + if b & STABLE_3_0 == STABLE_3_0 {
            1int
        } else {
            0int
        }
    } else {
        0int
    }) + (if b & STABLE_2_1 == STABLE_2_1 {
        1int + if b & STABLE_3_1 == STABLE_3_1 {
            1int
        } else {
            0int
        }
    } else {
        0int
    }) + (if b & STABLE_2_2 == STABLE_2_2 {
        1int + if b & STABLE_3_2 == STABLE_3_2 {
            1int
        } else {
            0int
        }
    } else {
        0int
    }) + (if b & STABLE_2_3 == STABLE_2_3 {
        1int + if b & STABLE_3_3 == STABLE_3_3 {
            1int
        } else {
            0int
        }
    } else {
        0int
    })
}

/// The stability term: black's clusters less white's.
pub open spec fn spec_stability(black: u64, white: u64) -> int {
    side_stability(black) - side_stability(white)
}

/// The full fast heuristic from black's point of view, with the mobility
/// term signed by whose turn `ply` says it is.
pub open spec fn spec_heuristic_fast(ply: u8, black: u64, white: u64) -> int {
    let moves = if ply & 1 == 0 {
        pop64(spec_moves(black, white))
    } else {
        pop64(spec_moves(white, black))
    };
    if moves == 0 {
        1000000 * spec_eval(black, white)
    } else {
        8 * spec_board_weight(black, white) + 202 * -(2 * (ply & 1) as int - 1) * moves as int
            + 2016 * spec_stability(black, white)
    }
}

fn region_count(black: u64, white: u64, mask: u64) -> (r: i32)
    ensures
        r as int == pop64(black & mask) - pop64(white & mask),
        -64 <= r <= 64,
{
    proof {
        lemma_pop64_le(black & mask);
        lemma_pop64_le(white & mask);
    }
    (popcount64(black & mask) as i32) - (popcount64(white & mask) as i32)
}

fn heuristic_board_weight(black: u64, white: u64) -> (r: i32)
    ensures
        r as int == spec_board_weight(black, white),
        -14592 <= r <= 14592,
{
    let mut board_sum: i32 = 0;
    board_sum = board_sum + 120i32 * region_count(black, white, 9295429630892703873u64);
    board_sum = board_sum + -20i32 * region_count(black, white, 4792111478498951490u64);
    board_sum = board_sum + 20i32 * region_count(black, white, 2594215222373842980u64);
    board_sum = board_sum + 5i32 * region_count(black, white, 1729382813125312536u64);
    board_sum = board_sum + -40i32 * region_count(black, white, 18577348462920192u64);
    board_sum = board_sum + -5i32 * region_count(black, white, 16961350949551104u64);
    board_sum = board_sum + 15i32 * region_count(black, white, 39582420959232u64);
    board_sum = board_sum + 3i32 * region_count(black, white, 26646985310208u64);
    board_sum
}

fn corner_term(b: u64, two: u64, three: u64) -> (r: i32)
    ensures
        r as int == if b & two == two {
            1int + if b & three == three {
                1int
            } else {
                0int
            }
        } else {
            0int
        },
        0 <= r <= 2,
{
    if b & two == two {
        1 + if b & three == three {
            1
        } else {
            0
        }
    } else {
        0
    }
}

fn side_stab(b: u64) -> (r: i32)
    ensures
        r as int == side_stability(b),
        0 <= r <= 8,
{
    corner_term(b, STABLE_2_0, STABLE_3_0) + corner_term(b, STABLE_2_1, STABLE_3_1) + corner_term(
        b,
        STABLE_2_2,
        STABLE_3_2,
    ) + corner_term(b, STABLE_2_3, STABLE_3_3)
}

fn heuristic_stability(black: u64, white: u64) -> (r: i32)
    ensures
        r as int == spec_stability(black, white),
        -8 <= r <= 8,
{
    side_stab(black) - side_stab(white)
}

/// The fast material/mobility/stability heuristic from black's point of view.
pub fn heuristic_fast(ply: u8, black: u64, white: u64) -> (r: i32)
    ensures
        r as int == spec_heuristic_fast(ply, black, white),
{
    let moves = if ply & 1 == 0 {
        number_of_moves(black, white)
    } else {
        number_of_moves(white, black)
    };

    if moves == 0 {
        proof {
            lemma_pop64_le(black);
            lemma_pop64_le(white);
        }
        return 1000000i32 * ((popcount64(black) as i32) - (popcount64(white) as i32));
    }
    let board_sum = heuristic_board_weight(black, white);
    let stability = heuristic_stability(black, white);
    proof {
        assert(ply & 1 == 0 || ply & 1 == 1) by (bit_vector);
        lemma_pop64_le(spec_moves(black, white));
        lemma_pop64_le(spec_moves(white, black));
    }
    let mobility: i32 = if ply & 1 == 0 {
        202 * (moves as i32)
    } else {
        -202 * (moves as i32)
    };
    8i32 * board_sum + mobility + 2016 * stability
}

} // verus!
