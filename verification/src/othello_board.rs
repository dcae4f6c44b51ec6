//! The board engine: pure functions over a position held as a pair of 64-bit
//! bitboards (one bit per cell, bit `i` = cell at row `i / 8`, column `i % 8`).
//! Legal-move generation and move application work by shift-based propagation:
//! for each of the 8 directions, the contiguous run of enemy disks adjacent to
//! an own disk is grown by repeated shift-and-mask steps (6 steps, since a run
//! spans at most 6 interior cells).

use vstd::prelude::*;
use crate::bitcount::{
    bit64, pop64, popcount64, lemma_pop64_le, lemma_pop64_disjoint, lemma_pop64_nonzero,
    lemma_pop64_zero, lemma_pop64_single, lemma_pop64_remove_bit, lemma_single_bit_facts,
    lemma_remove_bit_facts,
};

verus! {

/// Cells of column 0.
pub const FILE_A: u64 = 0x0101_0101_0101_0101u64;

/// Cells of column 7.
pub const FILE_H: u64 = 0x8080_8080_8080_8080u64;

/// One step north (toward higher rows).
pub open spec fn s_n(b: u64) -> u64 {
    b << 8
}

/// One step south.
pub open spec fn s_s(b: u64) -> u64 {
    b >> 8
}

/// One step west, dropping cells that would wrap off column 0.
pub open spec fn s_w(b: u64) -> u64 {
    (b & !FILE_A) >> 1
}

/// One step east, dropping cells that would wrap off column 7.
pub open spec fn s_e(b: u64) -> u64 {
    (b & !FILE_H) << 1
}

pub open spec fn s_ne(b: u64) -> u64 {
    s_n(s_e(b))
}

pub open spec fn s_nw(b: u64) -> u64 {
    s_n(s_w(b))
}

pub open spec fn s_se(b: u64) -> u64 {
    s_s(s_e(b))
}

pub open spec fn s_sw(b: u64) -> u64 {
    s_s(s_w(b))
}

fn shift_n(bb: u64) -> (r: u64)
    ensures
        r == s_n(bb),
{
    bb << 8u64
}

fn shift_s(bb: u64) -> (r: u64)
    ensures
        r == s_s(bb),
{
    bb >> 8u64
}

fn shift_w(bb: u64) -> (r: u64)
    ensures
        r == s_w(bb),
{
    (bb & !FILE_A) >> 1u64
}

fn shift_e(bb: u64) -> (r: u64)
    ensures
        r == s_e(bb),
{
    (bb & !FILE_H) << 1u64
}

fn shift_ne(bb: u64) -> (r: u64)
    ensures
        r == s_ne(bb),
{
    shift_n(shift_e(bb))
}

fn shift_nw(bb: u64) -> (r: u64)
    ensures
        r == s_nw(bb),
{
    shift_n(shift_w(bb))
}

fn shift_se(bb: u64) -> (r: u64)
    ensures
        r == s_se(bb),
{
    shift_s(shift_e(bb))
}

fn shift_sw(bb: u64) -> (r: u64)
    ensures
        r == s_sw(bb),
{
    shift_s(shift_w(bb))
}

/// Enemy disks reachable from a disk of `x` by stepping north through
/// contiguous enemy disks (at most 6 steps).
pub open spec fn fill_n(x: u64, enemy: u64) -> u64 {
    let c = s_n(x) & enemy;
    let c = c | (s_n(c) & enemy);
    let c = c | (s_n(c) & enemy);
    let c = c | (s_n(c) & enemy);
    let c = c | (s_n(c) & enemy);
    let c = c | (s_n(c) & enemy);
    c
}

pub open spec fn fill_s(x: u64, enemy: u64) -> u64 {
    let c = s_s(x) & enemy;
    let c = c | (s_s(c) & enemy);
    let c = c | (s_s(c) & enemy);
    let c = c | (s_s(c) & enemy);
    let c = c | (s_s(c) & enemy);
    let c = c | (s_s(c) & enemy);
    c
}

pub open spec fn fill_w(x: u64, enemy: u64) -> u64 {
    let c = s_w(x) & enemy;
    let c = c | (s_w(c) & enemy);
    let c = c | (s_w(c) & enemy);
    let c = c | (s_w(c) & enemy);
    let c = c | (s_w(c) & enemy);
    let c = c | (s_w(c) & enemy);
    c
}

pub open spec fn fill_e(x: u64, enemy: u64) -> u64 {
    let c = s_e(x) & enemy;
    let c = c | (s_e(c) & enemy);
    let c = c | (s_e(c) & enemy);
    let c = c | (s_e(c) & enemy);
    let c = c | (s_e(c) & enemy);
    let c = c | (s_e(c) & enemy);
    c
}

pub open spec fn fill_ne(x: u64, enemy: u64) -> u64 {
    let c = s_ne(x) & enemy;
    let c = c | (s_ne(c) & enemy);
    let c = c | (s_ne(c) & enemy);
    let c = c | (s_ne(c) & enemy);
    let c = c | (s_ne(c) & enemy);
    let c = c | (s_ne(c) & enemy);
    c
}

pub open spec fn fill_nw(x: u64, enemy: u64) -> u64 {
    let c = s_nw(x) & enemy;
    let c = c | (s_nw(c) & enemy);
    let c = c | (s_nw(c) & enemy);
    let c = c | (s_nw(c) & enemy);
    let c = c | (s_nw(c) & enemy);
    let c = c | (s_nw(c) & enemy);
    c
}

pub open spec fn fill_se(x: u64, enemy: u64) -> u64 {
    let c = s_se(x) & enemy;
    let c = c | (s_se(c) & enemy);
    let c = c | (s_se(c) & enemy);
    let c = c | (s_se(c) & enemy);
    let c = c | (s_se(c) & enemy);
    let c = c | (s_se(c) & enemy);
    c
}

pub open spec fn fill_sw(x: u64, enemy: u64) -> u64 {
    let c = s_sw(x) & enemy;
    let c = c | (s_sw(c) & enemy);
    let c = c | (s_sw(c) & enemy);
    let c = c | (s_sw(c) & enemy);
    let c = c | (s_sw(c) & enemy);
    let c = c | (s_sw(c) & enemy);
    c
}

/// The legal destination cells for the side holding `me`: one step beyond a
/// captured run in each direction, restricted to empty cells.
pub open spec fn spec_moves(me: u64, enemy: u64) -> u64 {
    (s_n(fill_n(me, enemy)) | s_s(fill_s(me, enemy)) | s_e(fill_e(me, enemy)) | s_w(
        fill_w(me, enemy),
    ) | s_ne(fill_ne(me, enemy)) | s_nw(fill_nw(me, enemy)) | s_se(fill_se(me, enemy)) | s_sw(
        fill_sw(me, enemy),
    )) & !(me | enemy)
}

/// Disks flipped by playing `mov` (a one-bit board), in the direction whose
/// run grows north of the move cell: the run counts only if an own disk
/// stands just beyond it.
pub open spec fn flips_dir_n(mov: u64, me: u64, enemy: u64) -> u64 {
    let cap = fill_n(mov, enemy);
    if s_n(cap) & me != 0 {
        cap
    } else {
        0
    }
}

pub open spec fn flips_dir_s(mov: u64, me: u64, enemy: u64) -> u64 {
    let cap = fill_s(mov, enemy);
    if s_s(cap) & me != 0 {
        cap
    } else {
        0
    }
}

pub open spec fn flips_dir_w(mov: u64, me: u64, enemy: u64) -> u64 {
    let cap = fill_w(mov, enemy);
    if s_w(cap) & me != 0 {
        cap
    } else {
        0
    }
}

pub open spec fn flips_dir_e(mov: u64, me: u64, enemy: u64) -> u64 {
    let cap = fill_e(mov, enemy);
    if s_e(cap) & me != 0 {
        cap
    } else {
        0
    }
}

pub open spec fn flips_dir_ne(mov: u64, me: u64, enemy: u64) -> u64 {
    let cap = fill_ne(mov, enemy);
    if s_ne(cap) & me != 0 {
        cap
    } else {
        0
    }
}

pub open spec fn flips_dir_nw(mov: u64, me: u64, enemy: u64) -> u64 {
    let cap = fill_nw(mov, enemy);
    if s_nw(cap) & me != 0 {
        cap
    } else {
        0
    }
}

pub open spec fn flips_dir_se(mov: u64, me: u64, enemy: u64) -> u64 {
    let cap = fill_se(mov, enemy);
    if s_se(cap) & me != 0 {
        cap
    } else {
        0
    }
}

pub open spec fn flips_dir_sw(mov: u64, me: u64, enemy: u64) -> u64 {
    let cap = fill_sw(mov, enemy);
    if s_sw(cap) & me != 0 {
        cap
    } else {
        0
    }
}

/// All disks flipped by playing `mov`.
pub open spec fn spec_flips(mov: u64, me: u64, enemy: u64) -> u64 {
    flips_dir_n(mov, me, enemy) | flips_dir_s(mov, me, enemy) | flips_dir_e(mov, me, enemy)
        | flips_dir_w(mov, me, enemy) | flips_dir_ne(mov, me, enemy) | flips_dir_nw(mov, me, enemy)
        | flips_dir_se(mov, me, enemy) | flips_dir_sw(mov, me, enemy)
}

/// The mover's board after playing `mov`: the placed disk plus every flipped run.
pub open spec fn spec_make_self(mov: u64, me: u64, enemy: u64) -> u64 {
    me | mov | spec_flips(mov, me, enemy)
}

/// The enemy's board after `mov`: the flipped runs are taken away.
pub open spec fn spec_make_enemy(mov: u64, me: u64, enemy: u64) -> u64 {
    enemy & !spec_flips(mov, me, enemy)
}

/// A position is over when the board is full or neither side can move.
pub open spec fn spec_game_over(me: u64, enemy: u64) -> bool {
    (me | enemy) == u64::MAX || (spec_moves(me, enemy) == 0 && spec_moves(enemy, me) == 0)
}

/// Legal-move generation by per-direction run growth (the unrolled
/// shift-and-mask form).
pub fn generate_moves2(bb_self: u64, bb_enemy: u64) -> (r: u64)
    ensures
        r == spec_moves(bb_self, bb_enemy),
{
    let mut captured: u64;

    captured = shift_n(bb_self) & bb_enemy;
    captured = captured | (shift_n(captured) & bb_enemy);
    captured = captured | (shift_n(captured) & bb_enemy);
    captured = captured | (shift_n(captured) & bb_enemy);
    captured = captured | (shift_n(captured) & bb_enemy);
    captured = captured | (shift_n(captured) & bb_enemy);
    let m_n: u64 = shift_n(captured);

    captured = shift_s(bb_self) & bb_enemy;
    captured = captured | (shift_s(captured) & bb_enemy);
    captured = captured | (shift_s(captured) & bb_enemy);
    captured = captured | (shift_s(captured) & bb_enemy);
    captured = captured | (shift_s(captured) & bb_enemy);
    captured = captured | (shift_s(captured) & bb_enemy);
    let m_s: u64 = shift_s(captured);

    captured = shift_e(bb_self) & bb_enemy;
    captured = captured | (shift_e(captured) & bb_enemy);
    captured = captured | (shift_e(captured) & bb_enemy);
    captured = captured | (shift_e(captured) & bb_enemy);
    captured = captured | (shift_e(captured) & bb_enemy);
    captured = captured | (shift_e(captured) & bb_enemy);
    let m_e: u64 = shift_e(captured);

    captured = shift_w(bb_self) & bb_enemy;
    captured = captured | (shift_w(captured) & bb_enemy);
    captured = captured | (shift_w(captured) & bb_enemy);
    captured = captured | (shift_w(captured) & bb_enemy);
    captured = captured | (shift_w(captured) & bb_enemy);
    captured = captured | (shift_w(captured) & bb_enemy);
    let m_w: u64 = shift_w(captured);

    captured = shift_ne(bb_self) & bb_enemy;
    captured = captured | (shift_ne(captured) & bb_enemy);
    captured = captured | (shift_ne(captured) & bb_enemy);
    captured = captured | (shift_ne(captured) & bb_enemy);
    captured = captured | (shift_ne(captured) & bb_enemy);
    captured = captured | (shift_ne(captured) & bb_enemy);
    let m_ne: u64 = shift_ne(captured);

    captured = shift_nw(bb_self) & bb_enemy;
    captured = captured | (shift_nw(captured) & bb_enemy);
    captured = captured | (shift_nw(captured) & bb_enemy);
    captured = captured | (shift_nw(captured) & bb_enemy);
    captured = captured | (shift_nw(captured) & bb_enemy);
    captured = captured | (shift_nw(captured) & bb_enemy);
    let m_nw: u64 = shift_nw(captured);

    captured = shift_se(bb_self) & bb_enemy;
    captured = captured | (shift_se(captured) & bb_enemy);
    captured = captured | (shift_se(captured) & bb_enemy);
    captured = captured | (shift_se(captured) & bb_enemy);
    captured = captured | (shift_se(captured) & bb_enemy);
    captured = captured | (shift_se(captured) & bb_enemy);
    let m_se: u64 = shift_se(captured);

    captured = shift_sw(bb_self) & bb_enemy;
    captured = captured | (shift_sw(captured) & bb_enemy);
    captured = captured | (shift_sw(captured) & bb_enemy);
    captured = captured | (shift_sw(captured) & bb_enemy);
    captured = captured | (shift_sw(captured) & bb_enemy);
    captured = captured | (shift_sw(captured) & bb_enemy);
    let m_sw: u64 = shift_sw(captured);

    (m_n | m_s | m_e | m_w | m_ne | m_nw | m_se | m_sw) & !(bb_self | bb_enemy)
}

/// Legal-move generation: the same propagation engine under the name the
/// search and serving layers call.
pub fn generate_moves(bb_self: u64, bb_enemy: u64) -> (r: u64)
    ensures
        r == spec_moves(bb_self, bb_enemy),
{
    generate_moves2(bb_self, bb_enemy)
}

/// Place the disk `mov` for the side holding `bb_self` and flip every
/// bracketed run, in place.
pub fn make_move_inplace(mov: u64, bb_self: &mut u64, bb_enemy: &mut u64)
    ensures
        *final(bb_self) == spec_make_self(mov, *old(bb_self), *old(bb_enemy)),
        *final(bb_enemy) == spec_make_enemy(mov, *old(bb_self), *old(bb_enemy)),
{
    let me: u64 = *bb_self;
    let enemy: u64 = *bb_enemy;
    let mut captured: u64;

    captured = shift_n(mov) & enemy;
    captured = captured | (shift_n(captured) & enemy);
    captured = captured | (shift_n(captured) & enemy);
    captured = captured | (shift_n(captured) & enemy);
    captured = captured | (shift_n(captured) & enemy);
    captured = captured | (shift_n(captured) & enemy);
    let f_n: u64 = if shift_n(captured) & me != 0 {
        captured
    } else {
        0
    };

    captured = shift_s(mov) & enemy;
    captured = captured | (shift_s(captured) & enemy);
    captured = captured | (shift_s(captured) & enemy);
    captured = captured | (shift_s(captured) & enemy);
    captured = captured | (shift_s(captured) & enemy);
    captured = captured | (shift_s(captured) & enemy);
    let f_s: u64 = if shift_s(captured) & me != 0 {
        captured
    } else {
        0
    };

    captured = shift_e(mov) & enemy;
    captured = captured | (shift_e(captured) & enemy);
    captured = captured | (shift_e(captured) & enemy);
    captured = captured | (shift_e(captured) & enemy);
    captured = captured | (shift_e(captured) & enemy);
    captured = captured | (shift_e(captured) & enemy);
    let f_e: u64 = if shift_e(captured) & me != 0 {
        captured
    } else {
        0
    };

    captured = shift_w(mov) & enemy;
    captured = captured | (shift_w(captured) & enemy);
    captured = captured | (shift_w(captured) & enemy);
    captured = captured | (shift_w(captured) & enemy);
    captured = captured | (shift_w(captured) & enemy);
    captured = captured | (shift_w(captured) & enemy);
    let f_w: u64 = if shift_w(captured) & me != 0 {
        captured
    } else {
        0
    };

    captured = shift_ne(mov) & enemy;
    captured = captured | (shift_ne(captured) & enemy);
    captured = captured | (shift_ne(captured) & enemy);
    captured = captured | (shift_ne(captured) & enemy);
    captured = captured | (shift_ne(captured) & enemy);
    captured = captured | (shift_ne(captured) & enemy);
    let f_ne: u64 = if shift_ne(captured) & me != 0 {
        captured
    } else {
        0
    };

    captured = shift_nw(mov) & enemy;
    captured = captured | (shift_nw(captured) & enemy);
    captured = captured | (shift_nw(captured) & enemy);
    captured = captured | (shift_nw(captured) & enemy);
    captured = captured | (shift_nw(captured) & enemy);
    captured = captured | (shift_nw(captured) & enemy);
    let f_nw: u64 = if shift_nw(captured) & me != 0 {
        captured
    } else {
        0
    };

    captured = shift_se(mov) & enemy;
    captured = captured | (shift_se(captured) & enemy);
    captured = captured | (shift_se(captured) & enemy);
    captured = captured | (shift_se(captured) & enemy);
    captured = captured | (shift_se(captured) & enemy);
    captured = captured | (shift_se(captured) & enemy);
    let f_se: u64 = if shift_se(captured) & me != 0 {
        captured
    } else {
        0
    };

    captured = shift_sw(mov) & enemy;
    captured = captured | (shift_sw(captured) & enemy);
    captured = captured | (shift_sw(captured) & enemy);
    captured = captured | (shift_sw(captured) & enemy);
    captured = captured | (shift_sw(captured) & enemy);
    captured = captured | (shift_sw(captured) & enemy);
    let f_sw: u64 = if shift_sw(captured) & me != 0 {
        captured
    } else {
        0
    };

    let flips: u64 = f_n | f_s | f_e | f_w | f_ne | f_nw | f_se | f_sw;
    *bb_self = me | mov | flips;
    *bb_enemy = enemy & !flips;
}

/// As `make_move_inplace`, returning the new pair.
pub fn make_move1(mov: u64, bb_self: u64, bb_enemy: u64) -> (r: (u64, u64))
    ensures
        r.0 == spec_make_self(mov, bb_self, bb_enemy),
        r.1 == spec_make_enemy(mov, bb_self, bb_enemy),
{
    let mut me: u64 = bb_self;
    let mut enemy: u64 = bb_enemy;
    make_move_inplace(mov, &mut me, &mut enemy);
    (me, enemy)
}

/// Apply a move: place the disk and flip the captured runs.
pub fn make_move(mov: u64, bb_self: u64, bb_enemy: u64) -> (r: (u64, u64))
    ensures
        r.0 == spec_make_self(mov, bb_self, bb_enemy),
        r.1 == spec_make_enemy(mov, bb_self, bb_enemy),
{
    make_move1(mov, bb_self, bb_enemy)
}

/// True when the game can go no further: board full, or both sides stuck.
pub fn game_over(bb_p1: u64, bb_p2: u64) -> (r: bool)
    ensures
        r == spec_game_over(bb_p1, bb_p2),
{
    (bb_p1 | bb_p2 == u64::MAX) || (generate_moves2(bb_p1, bb_p2) == 0 && generate_moves2(
        bb_p2,
        bb_p1,
    ) == 0)
}

/// Index of the lowest set bit (64 for the empty board).
pub open spec fn low_idx(x: u64) -> u64 {
    vstd::std_specs::bits::u64_trailing_zeros(x) as u64
}

/// Gets the index of the next move out of `moves` and removes it there.
pub fn next_idx_move(moves: &mut u64) -> (r: u8)
    ensures
        *old(moves) != 0 ==> (r as u64) < 64 && r as u64 == low_idx(*old(moves)) && bit64(
            *old(moves),
            r as u64,
        ) && (forall|j: u64| j < r as u64 ==> !bit64(*old(moves), j)) && *final(moves) == *old(
            moves,
        ) & !(1u64 << (r as u64)),
        *old(moves) == 0 ==> r == 64 && *final(moves) == 0,
{
    let m = *moves;
    proof {
        vstd::std_specs::bits::axiom_u64_trailing_zeros(m);
    }
    if m == 0 {
        64
    } else {
        let i = m.trailing_zeros() as u8;
        *moves = m & !(1u64 << (i as u64));
        i
    }
}

/// Gets the next move out of `moves` as a one-bit board and removes it there.
pub fn next_bit_move(moves: &mut u64) -> (r: u64)
    ensures
        *old(moves) != 0 ==> low_idx(*old(moves)) < 64 && r == 1u64 << low_idx(*old(moves))
            && bit64(*old(moves), low_idx(*old(moves))) && *final(moves) == *old(moves) & !r,
        *old(moves) == 0 ==> r == 0 && *final(moves) == 0,
{
    let m = *moves;
    proof {
        vstd::std_specs::bits::axiom_u64_trailing_zeros(m);
    }
    if m == 0 {
        0
    } else {
        let i = m.trailing_zeros() as u64;
        let mov = 1u64 << i;
        *moves = m & !mov;
        mov
    }
}

/// How many legal moves the side holding `bb_self` has.
pub fn number_of_moves(bb_self: u64, bb_enemy: u64) -> (r: u8)
    ensures
        r == pop64(spec_moves(bb_self, bb_enemy)),
{
    proof {
        lemma_pop64_le(spec_moves(bb_self, bb_enemy));
    }
    popcount64(generate_moves2(bb_self, bb_enemy)) as u8
}

/// The set bits of `moves` as a strictly ascending list of cell indices.
pub fn to_idx_move_vec(moves: u64) -> (r: Vec<u8>)
    ensures
        r@.len() == pop64(moves),
        forall|k: int|
            0 <= k < r@.len() ==> (r@[k] as u64) < 64 && bit64(moves, #[trigger] r@[k] as u64),
        forall|k1: int, k2: int| 0 <= k1 < k2 < r@.len() ==> r@[k1] < r@[k2],
        forall|i: u64| i < 64 && bit64(moves, i) ==> r@.contains(i as u8),
{
    let mut m = moves;
    let mut vec: Vec<u8> = Vec::new();
    while m != 0
        invariant
            vec@.len() + pop64(m) == pop64(moves),
            forall|k: int|
                0 <= k < vec@.len() ==> (vec@[k] as u64) < 64 && bit64(
                    moves,
                    #[trigger] vec@[k] as u64,
                ),
            forall|k1: int, k2: int| 0 <= k1 < k2 < vec@.len() ==> vec@[k1] < vec@[k2],
            forall|k: int, j: u64|
                0 <= k < vec@.len() && j < 64 && #[trigger] bit64(m, j) ==> (#[trigger] vec@[k] as u64)
                    < j,
            forall|i: u64| i < 64 && #[trigger] bit64(moves, i) ==> bit64(m, i) || vec@.contains(i as u8),
            forall|i: u64| i < 64 && #[trigger] bit64(m, i) ==> bit64(moves, i),
        decreases m,
    {
        let ghost m0 = m;
        let ghost vec0 = vec@;
        let i = next_idx_move(&mut m);
        proof {
            lemma_pop64_remove_bit(m0, i as u64);
            assert forall|j: u64| j < 64 implies #[trigger] bit64(m, j) == (bit64(m0, j) && j
                != i as u64) by {
                lemma_remove_bit_facts(m0, i as u64, j);
            }
        }
        vec.push(i);
        proof {
            assert(vec@ == vec0.push(i));
            assert forall|x: u64| x < 64 && #[trigger] bit64(moves, x) implies bit64(m, x)
                || vec@.contains(x as u8) by {
                if !bit64(m, x) {
                    if bit64(m0, x) {
                        assert(x == i as u64);
                        assert(vec@[vec0.len() as int] == i);
                    } else {
                        let k = choose|k: int| 0 <= k < vec0.len() && vec0[k] == x as u8;
                        assert(vec@[k] == x as u8);
                    }
                }
            }
        }
    }
    proof {
        lemma_pop64_zero();
        assert forall|i: u64| i < 64 implies !bit64(0u64, i) by {
            lemma_single_bit_facts(0, 0, i);
        }
    }
    vec
}

/// The set bits of `moves` as an ascending list of one-bit boards.
pub fn to_bit_move_vec(moves: u64) -> (r: Vec<u64>)
    ensures
        r@.len() == pop64(moves),
        forall|k: int|
            0 <= k < r@.len() ==> pop64(#[trigger] r@[k]) == 1 && (r@[k] & moves) == r@[k],
        forall|k1: int, k2: int| 0 <= k1 < k2 < r@.len() ==> r@[k1] < r@[k2],
        forall|i: u64| i < 64 && bit64(moves, i) ==> r@.contains(1u64 << i),
{
    let mut m = moves;
    let mut vec: Vec<u64> = Vec::new();
    while m != 0
        invariant
            vec@.len() + pop64(m) == pop64(moves),
            forall|k: int|
                0 <= k < vec@.len() ==> pop64(#[trigger] vec@[k]) == 1 && (vec@[k] & moves)
                    == vec@[k],
            forall|k1: int, k2: int| 0 <= k1 < k2 < vec@.len() ==> vec@[k1] < vec@[k2],
            forall|k: int, j: u64|
                0 <= k < vec@.len() && j < 64 && #[trigger] bit64(m, j) ==> (#[trigger] vec@[k]) < (
                1u64 << j),
            forall|i: u64|
                i < 64 && #[trigger] bit64(moves, i) ==> bit64(m, i) || vec@.contains(1u64 << i),
            forall|i: u64| i < 64 && #[trigger] bit64(m, i) ==> bit64(moves, i),
        decreases m,
    {
        let ghost m0 = m;
        let ghost vec0 = vec@;
        let mov = next_bit_move(&mut m);
        let ghost i = low_idx(m0);
        proof {
            lemma_pop64_remove_bit(m0, i);
            lemma_pop64_single(i);
            vstd::std_specs::bits::axiom_u64_trailing_zeros(m0);
            lemma_single_bit_facts(moves, i, if i < 63 {
                63
            } else {
                0
            });
            assert forall|j: u64| j < 64 implies #[trigger] bit64(m, j) == (bit64(m0, j) && j != i) by {
                lemma_remove_bit_facts(m0, i, j);
            }
            assert forall|j: u64| j < 64 && bit64(m, j) implies mov < (1u64 << j) by {
                assert(j > i) by {
                    assert(forall|j2: u64| j2 < i ==> !bit64(m0, j2));
                }
                lemma_single_bit_facts(m0, i, j);
            }
        }
        vec.push(mov);
        proof {
            assert(vec@ == vec0.push(mov));
            assert forall|x: u64| x < 64 && #[trigger] bit64(moves, x) implies bit64(m, x)
                || vec@.contains(1u64 << x) by {
                if !bit64(m, x) {
                    if bit64(m0, x) {
                        assert(x == i);
                        assert(vec@[vec0.len() as int] == mov);
                    } else {
                        let k = choose|k: int| 0 <= k < vec0.len() && vec0[k] == 1u64 << x;
                        assert(vec@[k] == 1u64 << x);
                    }
                }
            }
        }
    }
    proof {
        lemma_pop64_zero();
        assert forall|i: u64| i < 64 implies !bit64(0u64, i) by {
            lemma_single_bit_facts(0, 0, i);
        }
    }
    vec
}

/// Final-score evaluation: disk difference, nothing for empty cells.
pub open spec fn spec_eval(black: u64, white: u64) -> int {
    pop64(black) - pop64(white)
}

/// Number of unoccupied cells.
pub open spec fn spec_empties(black: u64, white: u64) -> int {
    64 - pop64(black | white)
}

/// Disk difference with the empty cells awarded to the winner.
pub open spec fn spec_eval_full(black: u64, white: u64) -> int {
    let s = spec_eval(black, white);
    if s > 0 {
        s + spec_empties(black, white)
    } else if s < 0 {
        s - spec_empties(black, white)
    } else {
        0
    }
}

/// Win/loss/draw value biased so that negamax prefers the earliest win and
/// the latest loss: 0 for a tie, else a magnitude above any exact score that
/// grows with the number of cells left unplayed.
pub open spec fn spec_wld(black: u64, white: u64) -> int {
    let s = spec_eval(black, white);
    if s == 0 {
        0
    } else if s > 0 {
        65 + spec_empties(black, white)
    } else {
        -65 - spec_empties(black, white)
    }
}

/// Evaluates the board at the end of the game: disk difference, with no
/// credit for empty cells.
pub fn evaluation(black: u64, white: u64) -> (r: i8)
    ensures
        r as int == spec_eval(black, white),
        -64 <= r as int <= 64,
{
    proof {
        lemma_pop64_le(black);
        lemma_pop64_le(white);
    }
    let pb = popcount64(black);
    let pw = popcount64(white);
    (pb as i8) - (pw as i8)
}

/// Number of unoccupied cells.
pub fn empty_disks(black: u64, white: u64) -> (r: u8)
    ensures
        r as int == spec_empties(black, white),
{
    proof {
        lemma_pop64_le(black | white);
    }
    64 - (popcount64(black | white) as u8)
}

/// Final evaluation with the empty cells awarded to the winner.
pub fn evaluation_full(black: u64, white: u64) -> (r: i8)
    ensures
        r as int == spec_eval_full(black, white),
        -64 <= r as int <= 64,
{
    let score = evaluation(black, white);
    let empties = empty_disks(black, white);
    proof {
        lemma_eval_empties_bound(black, white);
    }
    if score > 0 {
        score + (empties as i8)
    } else if score < 0 {
        score - (empties as i8)
    } else {
        0
    }
}

/// With at least `d` disks on one board, at most `64 - d` cells are empty.
proof fn lemma_eval_empties_bound(black: u64, white: u64)
    ensures
        spec_eval(black, white) > 0 ==> spec_eval(black, white) + spec_empties(black, white) <= 64,
        spec_eval(black, white) < 0 ==> spec_eval(black, white) - spec_empties(black, white) >= -64,
        spec_empties(black, white) >= 0,
        pop64(black) <= pop64(black | white),
        pop64(white) <= pop64(black | white),
{
    lemma_pop64_le(black | white);
    lemma_pop64_subset(black, white);
    lemma_pop64_subset(white, black);
    assert(white | black == black | white) by (bit_vector);
}

/// A board is no larger than its union with another.
proof fn lemma_pop64_subset(x: u64, y: u64)
    ensures
        pop64(x) <= pop64(x | y),
{
    assert((x | y) == x | (y & !x)) by (bit_vector);
    assert(x & (y & !x) == 0) by (bit_vector);
    lemma_pop64_disjoint(x, y & !x);
}

/// Win/loss/draw value for midgame search. The two center pairs of the
/// starting layout guarantee at least two disks on the board, which keeps the
/// biased value inside the return type.
pub fn wld_evaluation(black: u64, white: u64) -> (r: i8)
    requires
        pop64(black | white) >= 2,
    ensures
        r as int == spec_wld(black, white),
{
    let q = evaluation(black, white);
    proof {
        lemma_eval_empties_bound(black, white);
    }
    if q == 0 {
        0
    } else if q > 0 {
        65 + (empty_disks(black, white) as i8)
    } else {
        -65 - (empty_disks(black, white) as i8)
    }
}

/// `|` and `&` commute (the solver treats bit operations as opaque by default).
pub proof fn lemma_or_comm(x: u64, y: u64)
    by (bit_vector)
    ensures
        x | y == y | x,
        x & y == y & x,
{
}

/// Whatever the position, the flipped disks all lie on the enemy's board.
proof fn lemma_flips_subset(mov: u64, me: u64, enemy: u64)
    by (bit_vector)
    ensures
        spec_flips(mov, me, enemy) & !enemy == 0,
{
}

/// A generated move names an empty cell, reached through one of the eight
/// direction contributions.
proof fn lemma_moves_member(me: u64, enemy: u64, i: u64)
    by (bit_vector)
    requires
        i < 64,
        bit64(spec_moves(me, enemy), i),
    ensures
        (1u64 << i) & (me | enemy) == 0,
        bit64(s_n(fill_n(me, enemy)), i) || bit64(s_s(fill_s(me, enemy)), i) || bit64(
            s_e(fill_e(me, enemy)),
            i,
        ) || bit64(s_w(fill_w(me, enemy)), i) || bit64(s_ne(fill_ne(me, enemy)), i) || bit64(
            s_nw(fill_nw(me, enemy)),
            i,
        ) || bit64(s_se(fill_se(me, enemy)), i) || bit64(s_sw(fill_sw(me, enemy)), i),
{
}

/// A move generated through the north contribution captures a run south of
/// the placed disk.
proof fn lemma_legal_via_n(me: u64, enemy: u64, i: u64)
    by (bit_vector)
    requires
        me & enemy == 0,
        i < 64,
        (1u64 << i) & (me | enemy) == 0,
        bit64(s_n(fill_n(me, enemy)), i),
    ensures
        spec_flips(1u64 << i, me, enemy) != 0,
{
}

proof fn lemma_legal_via_s(me: u64, enemy: u64, i: u64)
    by (bit_vector)
    requires
        me & enemy == 0,
        i < 64,
        (1u64 << i) & (me | enemy) == 0,
        bit64(s_s(fill_s(me, enemy)), i),
    ensures
        spec_flips(1u64 << i, me, enemy) != 0,
{
}

proof fn lemma_legal_via_e(me: u64, enemy: u64, i: u64)
    by (bit_vector)
    requires
        me & enemy == 0,
        i < 64,
        (1u64 << i) & (me | enemy) == 0,
        bit64(s_e(fill_e(me, enemy)), i),
    ensures
        spec_flips(1u64 << i, me, enemy) != 0,
{
}

proof fn lemma_legal_via_w(me: u64, enemy: u64, i: u64)
    by (bit_vector)
    requires
        me & enemy == 0,
        i < 64,
        (1u64 << i) & (me | enemy) == 0,
        bit64(s_w(fill_w(me, enemy)), i),
    ensures
        spec_flips(1u64 << i, me, enemy) != 0,
{
}

proof fn lemma_legal_via_ne(me: u64, enemy: u64, i: u64)
    by (bit_vector)
    requires
        me & enemy == 0,
        i < 64,
        (1u64 << i) & (me | enemy) == 0,
        bit64(s_ne(fill_ne(me, enemy)), i),
    ensures
        spec_flips(1u64 << i, me, enemy) != 0,
{
}

proof fn lemma_legal_via_nw(me: u64, enemy: u64, i: u64)
    by (bit_vector)
    requires
        me & enemy == 0,
        i < 64,
        (1u64 << i) & (me | enemy) == 0,
        bit64(s_nw(fill_nw(me, enemy)), i),
    ensures
        spec_flips(1u64 << i, me, enemy) != 0,
{
}

proof fn lemma_legal_via_se(me: u64, enemy: u64, i: u64)
    by (bit_vector)
    requires
        me & enemy == 0,
        i < 64,
        (1u64 << i) & (me | enemy) == 0,
        bit64(s_se(fill_se(me, enemy)), i),
    ensures
        spec_flips(1u64 << i, me, enemy) != 0,
{
}

proof fn lemma_legal_via_sw(me: u64, enemy: u64, i: u64)
    by (bit_vector)
    requires
        me & enemy == 0,
        i < 64,
        (1u64 << i) & (me | enemy) == 0,
        bit64(s_sw(fill_sw(me, enemy)), i),
    ensures
        spec_flips(1u64 << i, me, enemy) != 0,
{
}

/// A legal move captures at least one disk.
proof fn lemma_legal_flips_nonzero(me: u64, enemy: u64, i: u64)
    requires
        me & enemy == 0,
        i < 64,
        bit64(spec_moves(me, enemy), i),
    ensures
        spec_flips(1u64 << i, me, enemy) != 0,
        (1u64 << i) & (me | enemy) == 0,
{
    lemma_moves_member(me, enemy, i);
    if bit64(s_n(fill_n(me, enemy)), i) {
        lemma_legal_via_n(me, enemy, i);
    } else if bit64(s_s(fill_s(me, enemy)), i) {
        lemma_legal_via_s(me, enemy, i);
    } else if bit64(s_e(fill_e(me, enemy)), i) {
        lemma_legal_via_e(me, enemy, i);
    } else if bit64(s_w(fill_w(me, enemy)), i) {
        lemma_legal_via_w(me, enemy, i);
    } else if bit64(s_ne(fill_ne(me, enemy)), i) {
        lemma_legal_via_ne(me, enemy, i);
    } else if bit64(s_nw(fill_nw(me, enemy)), i) {
        lemma_legal_via_nw(me, enemy, i);
    } else if bit64(s_se(fill_se(me, enemy)), i) {
        lemma_legal_via_se(me, enemy, i);
    } else {
        lemma_legal_via_sw(me, enemy, i);
    }
}

/// Set algebra of applying a move: the boards stay disjoint and together
/// gain exactly the placed disk.
proof fn lemma_apply_algebra(mov: u64, me: u64, enemy: u64, f: u64)
    by (bit_vector)
    requires
        f & !enemy == 0,
        me & enemy == 0,
        mov & (me | enemy) == 0,
    ensures
        (me | mov | f) & (enemy & !f) == 0,
        (me | mov | f) | (enemy & !f) == (me | enemy) | mov,
        (me | mov) & f == 0,
        me & mov == 0,
        enemy == (enemy & !f) | f,
        (enemy & !f) & f == 0,
        (me | enemy) & mov == 0,
{
}

proof fn lemma_union_after_move(mov: u64, me: u64, enemy: u64, f: u64)
    by (bit_vector)
    requires
        f & !enemy == 0,
    ensures
        (me | mov | f) | (enemy & !f) == (me | enemy) | mov,
{
}

/// Whatever the two boards hold, playing a generated move fills exactly one
/// more cell: the board total grows by one and the empty count falls by one.
pub proof fn lemma_apply_cell_count(me: u64, enemy: u64, i: u64)
    requires
        i < 64,
        bit64(spec_moves(me, enemy), i),
    ensures
        ({
            let mov = 1u64 << i;
            let s2 = spec_make_self(mov, me, enemy);
            let e2 = spec_make_enemy(mov, me, enemy);
            &&& (s2 | e2) == (me | enemy) | mov
            &&& pop64((me | enemy) | mov) == pop64(me | enemy) + 1
            &&& spec_empties(s2, e2) == spec_empties(me, enemy) - 1
        }),
{
    let mov = 1u64 << i;
    lemma_moves_member(me, enemy, i);
    lemma_flips_subset(mov, me, enemy);
    lemma_union_after_move(mov, me, enemy, spec_flips(mov, me, enemy));
    lemma_pop64_single(i);
    lemma_or_comm(me | enemy, mov);
    lemma_pop64_disjoint(me | enemy, mov);
}

/// Move legality closure: a cell returned by move generation is empty, and
/// applying it keeps the two boards disjoint, adds exactly one disk to the
/// board total, and grows the mover's count by at least two (the placed disk
/// plus at least one captured disk).
pub proof fn lemma_apply_move(me: u64, enemy: u64, i: u64)
    requires
        me & enemy == 0,
        i < 64,
        bit64(spec_moves(me, enemy), i),
    ensures
        ({
            let mov = 1u64 << i;
            let s2 = spec_make_self(mov, me, enemy);
            let e2 = spec_make_enemy(mov, me, enemy);
            &&& (mov & (me | enemy)) == 0
            &&& (s2 & e2) == 0
            &&& (s2 | e2) == (me | enemy) | mov
            &&& pop64(s2) + pop64(e2) == pop64(me) + pop64(enemy) + 1
            &&& pop64(s2) >= pop64(me) + 2
            &&& spec_empties(s2, e2) == spec_empties(me, enemy) - 1
        }),
{
    let mov = 1u64 << i;
    let f = spec_flips(mov, me, enemy);
    let s2 = spec_make_self(mov, me, enemy);
    let e2 = spec_make_enemy(mov, me, enemy);
    lemma_legal_flips_nonzero(me, enemy, i);
    lemma_flips_subset(mov, me, enemy);
    lemma_apply_algebra(mov, me, enemy, f);
    lemma_pop64_single(i);
    lemma_pop64_nonzero(f);
    lemma_pop64_disjoint(me, mov);
    lemma_pop64_disjoint(me | mov, f);
    lemma_pop64_disjoint(enemy & !f, f);
    lemma_pop64_disjoint(me | enemy, mov);
    assert(s2 | e2 == (me | enemy) | mov);
    assert(pop64(s2) == pop64(me) + 1 + pop64(f));
    assert(pop64(enemy) == pop64(e2) + pop64(f));
    assert(spec_empties(s2, e2) == 64 - pop64((me | enemy) | mov));
}

} // verus!
