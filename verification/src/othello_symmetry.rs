//! The 8 board symmetries (identity, three rotations, two axis flips, two
//! diagonal flips), applied to cell indices and whole bitboards, and the
//! canonicalizer that maps a position to its lexicographically-minimal image.
//!
//! A symmetry is held as three switches: transpose first, then mirror the
//! row, then mirror the column. All 8 combinations together are exactly the
//! board's symmetry group, closed under composition and inverses.

use vstd::prelude::*;
use crate::bitcount::{bit64, lemma_single_bit_facts, lemma_u64_bit_ext};

verus! {

/// One of the board's 8 symmetries.
#[derive(Clone, Copy, PartialEq, Eq, Structural, Debug)]
pub struct Sym {
    /// Swap rows and columns (transpose along the a1-h8 diagonal) first.
    pub swap: bool,
    /// Then replace the row by its mirror.
    pub neg_r: bool,
    /// Then replace the column by its mirror.
    pub neg_c: bool,
}

/// The identity transform.
pub open spec fn sym_id() -> Sym {
    Sym { swap: false, neg_r: false, neg_c: false }
}

/// Where cell `i` lands under `s`.
pub open spec fn sym_loc(s: Sym, i: int) -> int {
    let r = i / 8;
    let c = i % 8;
    let r1 = if s.swap {
        c
    } else {
        r
    };
    let c1 = if s.swap {
        r
    } else {
        c
    };
    let r2 = if s.neg_r {
        7 - r1
    } else {
        r1
    };
    let c2 = if s.neg_c {
        7 - c1
    } else {
        c1
    };
    r2 * 8 + c2
}

/// Applying `a` and then `b` equals applying this one transform.
pub open spec fn sym_compose(a: Sym, b: Sym) -> Sym {
    Sym {
        swap: a.swap != b.swap,
        neg_r: if b.swap {
            b.neg_r != a.neg_c
        } else {
            b.neg_r != a.neg_r
        },
        neg_c: if b.swap {
            b.neg_c != a.neg_r
        } else {
            b.neg_c != a.neg_c
        },
    }
}

/// The transform that undoes `s`.
pub open spec fn sym_inverse(s: Sym) -> Sym {
    if s.swap {
        Sym { swap: true, neg_r: s.neg_c, neg_c: s.neg_r }
    } else {
        s
    }
}

proof fn lemma_div_mod8(r: int, c: int)
    by (nonlinear_arith)
    requires
        0 <= r < 8,
        0 <= c < 8,
    ensures
        (r * 8 + c) / 8 == r,
        (r * 8 + c) % 8 == c,
        0 <= r * 8 + c < 64,
{
}

/// A symmetry keeps cell indices on the board.
pub proof fn lemma_sym_loc_range(s: Sym, i: int)
    requires
        0 <= i < 64,
    ensures
        0 <= sym_loc(s, i) < 64,
{
    lemma_div_mod8(i / 8, i % 8);
    lemma_div_mod8(
        if s.neg_r {
            7 - (if s.swap {
                i % 8
            } else {
                i / 8
            })
        } else {
            if s.swap {
                i % 8
            } else {
                i / 8
            }
        },
        if s.neg_c {
            7 - (if s.swap {
                i / 8
            } else {
                i % 8
            })
        } else {
            if s.swap {
                i / 8
            } else {
                i % 8
            }
        },
    )
}

/// Composition acts pointwise: chasing a cell through `a` then `b` is the
/// same as one step of the composed transform.
pub proof fn lemma_sym_compose_loc(a: Sym, b: Sym, i: int)
    requires
        0 <= i < 64,
    ensures
        sym_loc(b, sym_loc(a, i)) == sym_loc(sym_compose(a, b), i),
{
    let r = i / 8;
    let c = i % 8;
    lemma_div_mod8(r, c);
    let r1 = if a.swap {
        c
    } else {
        r
    };
    let c1 = if a.swap {
        r
    } else {
        c
    };
    let r2 = if a.neg_r {
        7 - r1
    } else {
        r1
    };
    let c2 = if a.neg_c {
        7 - c1
    } else {
        c1
    };
    lemma_div_mod8(r2, c2);
}

/// The inverse undoes the transform on every cell.
pub proof fn lemma_sym_inverse_loc(s: Sym, i: int)
    requires
        0 <= i < 64,
    ensures
        sym_loc(sym_inverse(s), sym_loc(s, i)) == i,
        sym_loc(s, sym_loc(sym_inverse(s), i)) == i,
{
    lemma_sym_compose_loc(s, sym_inverse(s), i);
    lemma_sym_compose_loc(sym_inverse(s), s, i);
    let r = i / 8;
    let c = i % 8;
    lemma_div_mod8(r, c);
}

/// Distinct cells land on distinct cells.
pub proof fn lemma_sym_loc_injective(s: Sym, i: int, j: int)
    requires
        0 <= i < 64,
        0 <= j < 64,
        sym_loc(s, i) == sym_loc(s, j),
    ensures
        i == j,
{
    lemma_sym_inverse_loc(s, i);
    lemma_sym_inverse_loc(s, j);
}

/// Board image under a symmetry, built bit by bit over the low `n` cells.
pub open spec fn sym_bb_rec(s: Sym, bb: u64, n: nat) -> u64
    decreases n,
{
    if n == 0 {
        0u64
    } else {
        sym_bb_rec(s, bb, (n - 1) as nat) | (if bit64(bb, (n - 1) as u64) {
            1u64 << (sym_loc(s, n - 1) as u64)
        } else {
            0u64
        })
    }
}

/// The image of a board under a symmetry: each disk moved to its new cell.
pub open spec fn sym_bb(s: Sym, bb: u64) -> u64 {
    sym_bb_rec(s, bb, 64)
}

proof fn lemma_bit_or_any(x: u64, y: u64, k: u64)
    by (bit_vector)
    ensures
        bit64(x | y, k) == (bit64(x, k) || bit64(y, k)),
        x | 0u64 == x,
{
}

proof fn lemma_sym_bb_rec_bits(s: Sym, bb: u64, n: nat, j: u64)
    requires
        n <= 64,
        j < 64,
    ensures
        bit64(sym_bb_rec(s, bb, n), (sym_loc(s, j as int)) as u64) == (j < n && bit64(bb, j)),
    decreases n,
{
    lemma_sym_loc_range(s, j as int);
    if n == 0 {
        lemma_single_bit_facts(0, 0, (sym_loc(s, j as int)) as u64);
    } else {
        lemma_sym_bb_rec_bits(s, bb, (n - 1) as nat, j);
        let prev = sym_bb_rec(s, bb, (n - 1) as nat);
        let last = (n - 1) as u64;
        lemma_sym_loc_range(s, last as int);
        let tgt = (sym_loc(s, j as int)) as u64;
        let add = if bit64(bb, last) {
            1u64 << (sym_loc(s, last as int) as u64)
        } else {
            0u64
        };
        lemma_bit_or_any(prev, add, tgt);
        lemma_single_bit_facts(0, (sym_loc(s, last as int)) as u64, tgt);
        if sym_loc(s, last as int) == sym_loc(s, j as int) {
            lemma_sym_loc_injective(s, last as int, j as int);
        }
    }
}

/// What each bit of the image holds: the disk of the source cell.
pub proof fn lemma_sym_bb_bits(s: Sym, bb: u64, j: u64)
    requires
        j < 64,
    ensures
        bit64(sym_bb(s, bb), (sym_loc(s, j as int)) as u64) == bit64(bb, j),
{
    lemma_sym_bb_rec_bits(s, bb, 64, j);
}

/// Transforms agreeing on every cell give the same image.
pub proof fn lemma_sym_bb_congruent(a: Sym, b: Sym, bb: u64)
    requires
        forall|i: int| 0 <= i < 64 ==> #[trigger] sym_loc(a, i) == sym_loc(b, i),
    ensures
        sym_bb(a, bb) == sym_bb(b, bb),
{
    assert forall|k: u64| k < 64 implies (#[trigger] bit64(sym_bb(a, bb), k)) == bit64(
        sym_bb(b, bb),
        k,
    ) by {
        lemma_sym_inverse_loc(a, k as int);
        let j = sym_loc(sym_inverse(a), k as int);
        lemma_sym_loc_range(sym_inverse(a), k as int);
        lemma_sym_bb_bits(a, bb, j as u64);
        lemma_sym_bb_bits(b, bb, j as u64);
    }
    lemma_u64_bit_ext(sym_bb(a, bb), sym_bb(b, bb));
}

/// Applying `a` and then `b` to a board equals applying their composition.
pub proof fn lemma_sym_bb_compose(a: Sym, b: Sym, bb: u64)
    ensures
        sym_bb(b, sym_bb(a, bb)) == sym_bb(sym_compose(a, b), bb),
{
    let lhs = sym_bb(b, sym_bb(a, bb));
    let rhs = sym_bb(sym_compose(a, b), bb);
    assert forall|k: u64| k < 64 implies (#[trigger] bit64(lhs, k)) == bit64(rhs, k) by {
        let c = sym_compose(a, b);
        lemma_sym_inverse_loc(c, k as int);
        let j = sym_loc(sym_inverse(c), k as int);
        lemma_sym_loc_range(sym_inverse(c), k as int);
        lemma_sym_compose_loc(a, b, j);
        lemma_sym_loc_range(a, j);
        lemma_sym_bb_bits(c, bb, j as u64);
        lemma_sym_bb_bits(a, bb, j as u64);
        lemma_sym_bb_bits(b, sym_bb(a, bb), (sym_loc(a, j)) as u64);
    }
    lemma_u64_bit_ext(lhs, rhs);
}

/// The identity transform leaves every board unchanged.
pub proof fn lemma_sym_bb_id(bb: u64)
    ensures
        sym_bb(sym_id(), bb) == bb,
{
    assert forall|k: u64| k < 64 implies (#[trigger] bit64(sym_bb(sym_id(), bb), k)) == bit64(
        bb,
        k,
    ) by {
        assert(sym_loc(sym_id(), k as int) == k as int) by {
            lemma_div_mod8(k as int / 8, k as int % 8);
        }
        lemma_sym_bb_bits(sym_id(), bb, k);
    }
    lemma_u64_bit_ext(sym_bb(sym_id(), bb), bb);
}

/// Where cell `i` lands under `s`.
pub fn sym_apply_loc(s: Sym, i: u8) -> (r: u8)
    requires
        i < 64,
    ensures
        r as int == sym_loc(s, i as int),
        r < 64,
{
    proof {
        lemma_sym_loc_range(s, i as int);
    }
    let row = i / 8;
    let col = i % 8;
    let r1 = if s.swap {
        col
    } else {
        row
    };
    let c1 = if s.swap {
        row
    } else {
        col
    };
    let r2 = if s.neg_r {
        7 - r1
    } else {
        r1
    };
    let c2 = if s.neg_c {
        7 - c1
    } else {
        c1
    };
    r2 * 8 + c2
}

/// Applies a transform to a single bitboard.
pub fn sym_apply_to_bb(transform: Sym, bb: u64) -> (r: u64)
    ensures
        r == sym_bb(transform, bb),
{
    let mut new_board: u64 = 0;
    let mut i: u8 = 0;
    while i < 64
        invariant
            i <= 64,
            new_board == sym_bb_rec(transform, bb, i as nat),
        decreases 64 - i,
    {
        if (bb >> (i as u64)) & 1u64 == 1u64 {
            let t = sym_apply_loc(transform, i);
            new_board = new_board | (1u64 << (t as u64));
        } else {
            proof {
                lemma_bit_or_any(new_board, 0, 0);
            }
        }
        i = i + 1;
    }
    new_board
}

/// Applies a transform to both boards of a position.
pub fn sym_apply_to(transform: Sym, m: u64, e: u64) -> (r: (u64, u64))
    ensures
        r.0 == sym_bb(transform, m),
        r.1 == sym_bb(transform, e),
{
    (sym_apply_to_bb(transform, m), sym_apply_to_bb(transform, e))
}

/// The image of a position under a symmetry.
pub open spec fn sym_image(s: Sym, me: u64, enemy: u64) -> (u64, u64) {
    (sym_bb(s, me), sym_bb(s, enemy))
}

/// Lexicographic order on positions: the mover's board first.
pub open spec fn pos_le(a: (u64, u64), b: (u64, u64)) -> bool {
    a.0 < b.0 || (a.0 == b.0 && a.1 <= b.1)
}

fn sym_min_step(cur_m: u64, cur_e: u64, cur_t: Sym, s: Sym, me: u64, enemy: u64) -> (r: (
    u64,
    u64,
    Sym,
))
    requires
        cur_m == sym_bb(cur_t, me),
        cur_e == sym_bb(cur_t, enemy),
    ensures
        r.0 == sym_bb(r.2, me) && r.1 == sym_bb(r.2, enemy),
        pos_le((r.0, r.1), (cur_m, cur_e)),
        pos_le((r.0, r.1), sym_image(s, me, enemy)),
        pos_le((cur_m, cur_e), sym_image(s, me, enemy)) ==> (r.0 == cur_m && r.1 == cur_e && r.2
            == cur_t),
{
    let (m, e) = sym_apply_to(s, me, enemy);
    if (m < cur_m) || ((m == cur_m) && (e < cur_e)) {
        (m, e, s)
    } else {
        (cur_m, cur_e, cur_t)
    }
}

/// Find the minimum symmetry of a board: the lexicographically smallest of
/// its 8 images, preferring the identity on ties, together with the
/// transform that produced it.
#[verifier::rlimit(100)]
pub fn sym_min_board(me: u64, enemy: u64) -> (r: (u64, u64, Sym))
    ensures
        r.0 == sym_bb(r.2, me) && r.1 == sym_bb(r.2, enemy),
        forall|s: Sym| pos_le((r.0, r.1), #[trigger] sym_image(s, me, enemy)),
        (forall|s: Sym| pos_le((me, enemy), #[trigger] sym_image(s, me, enemy))) ==> (r.0 == me
            && r.1 == enemy && r.2 == sym_id()),
{
    proof {
        lemma_sym_bb_id(me);
        lemma_sym_bb_id(enemy);
    }
    let t0 = Sym { swap: false, neg_r: false, neg_c: false };
    let (m1, e1, t1) = sym_min_step(me, enemy, t0, Sym { swap: true, neg_r: true, neg_c: false }, me, enemy);
    let (m2, e2, t2) = sym_min_step(m1, e1, t1, Sym { swap: false, neg_r: true, neg_c: true }, me, enemy);
    let (m3, e3, t3) = sym_min_step(m2, e2, t2, Sym { swap: true, neg_r: false, neg_c: true }, me, enemy);
    let (m4, e4, t4) = sym_min_step(m3, e3, t3, Sym { swap: false, neg_r: true, neg_c: false }, me, enemy);
    let (m5, e5, t5) = sym_min_step(m4, e4, t4, Sym { swap: false, neg_r: false, neg_c: true }, me, enemy);
    let (m6, e6, t6) = sym_min_step(m5, e5, t5, Sym { swap: true, neg_r: false, neg_c: false }, me, enemy);
    let (m7, e7, t7) = sym_min_step(m6, e6, t6, Sym { swap: true, neg_r: true, neg_c: true }, me, enemy);
    proof {
        assert forall|s: Sym| pos_le((m7, e7), #[trigger] sym_image(s, me, enemy)) by {
            assert(sym_image(sym_id(), me, enemy) == (me, enemy));
        }
    }
    (m7, e7, t7)
}

/// Given a transform and a board location (like a move index), applies the
/// inverse of the transformation by scanning for the cell whose image is the
/// given one.
pub fn sym_invert_loc(transform: Sym, pos: u8) -> (r: u8)
    requires
        pos < 64,
    ensures
        r < 64,
        sym_loc(transform, r as int) == pos as int,
{
    proof {
        lemma_sym_inverse_loc(transform, pos as int);
        lemma_sym_loc_range(sym_inverse(transform), pos as int);
    }
    let mut i: u8 = 0;
    while i < 64
        invariant
            i <= 64,
            forall|k: int| 0 <= k < i ==> #[trigger] sym_loc(transform, k) != pos as int,
            sym_loc(transform, sym_loc(sym_inverse(transform), pos as int)) == pos as int,
            0 <= sym_loc(sym_inverse(transform), pos as int) < 64,
        decreases 64 - i,
    {
        if sym_apply_loc(transform, i) == pos {
            return i;
        }
        i = i + 1;
    }
    proof {
        assert(false);
    }
    0
}

/// Canonicalization idempotence: once a position is the minimal image of its
/// symmetry class, none of its own images is smaller, so canonicalizing it
/// again returns the position itself with the identity transform (by the
/// tie-preference clause of `sym_min_board`).
pub proof fn lemma_canonical_idempotent(me: u64, enemy: u64, t: Sym, m: u64, e: u64)
    requires
        m == sym_bb(t, me),
        e == sym_bb(t, enemy),
        forall|s: Sym| pos_le((m, e), #[trigger] sym_image(s, me, enemy)),
    ensures
        forall|s: Sym| pos_le((m, e), #[trigger] sym_image(s, m, e)),
{
    assert forall|s: Sym| pos_le((m, e), #[trigger] sym_image(s, m, e)) by {
        lemma_sym_bb_compose(t, s, me);
        lemma_sym_bb_compose(t, s, enemy);
        assert(sym_image(s, m, e) == sym_image(sym_compose(t, s), me, enemy));
    }
}

/// The canonical position of any image of `p` is the canonical position of
/// `p` itself: the images of an image are exactly the images of `p`.
pub proof fn lemma_canonical_of_image(me: u64, enemy: u64, u: Sym, t: Sym, m: u64, e: u64)
    requires
        m == sym_bb(t, me),
        e == sym_bb(t, enemy),
        forall|s: Sym| pos_le((m, e), #[trigger] sym_image(s, me, enemy)),
    ensures
        forall|s: Sym|
            pos_le((m, e), #[trigger] sym_image(s, sym_bb(u, me), sym_bb(u, enemy))),
        sym_image(sym_compose(sym_inverse(u), t), sym_bb(u, me), sym_bb(u, enemy)) == (m, e),
{
    let um = sym_bb(u, me);
    let ue = sym_bb(u, enemy);
    assert forall|s: Sym| pos_le((m, e), #[trigger] sym_image(s, um, ue)) by {
        lemma_sym_bb_compose(u, s, me);
        lemma_sym_bb_compose(u, s, enemy);
        assert(sym_image(s, um, ue) == sym_image(sym_compose(u, s), me, enemy));
    }
    let w = sym_compose(sym_inverse(u), t);
    lemma_sym_bb_compose(u, w, me);
    lemma_sym_bb_compose(u, w, enemy);
    assert forall|i: int| 0 <= i < 64 implies #[trigger] sym_loc(sym_compose(u, w), i) == sym_loc(
        t,
        i,
    ) by {
        lemma_sym_compose_loc(u, w, i);
        lemma_sym_compose_loc(sym_inverse(u), t, sym_loc(u, i));
        lemma_sym_loc_range(u, i);
        lemma_sym_inverse_loc(u, i);
    }
    lemma_sym_bb_congruent(sym_compose(u, w), t, me);
    lemma_sym_bb_congruent(sym_compose(u, w), t, enemy);
}

} // verus!
