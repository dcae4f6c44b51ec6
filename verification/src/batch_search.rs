//! Search support for a batched leaf evaluator: the positions a
//! depth-bounded negamax would score are collected in search order into one
//! flat list, scored outside in a single batch, and the scores are then
//! walked by the same negamax control flow. The scores are expected in
//! centidisks; finished games short-circuit to the exact centidisk score.

use vstd::prelude::*;
use crate::bitcount::bit64;
use crate::othello_board::{
    spec_moves, spec_game_over, spec_eval, spec_make_self, spec_make_enemy, generate_moves2,
    game_over, evaluation, make_move1, next_idx_move,
};
use crate::classic_search::depth_measure;

verus! {

/// The positions a `depth`-bounded negamax scores at its leaves, in search
/// order: children are explored by ascending cell index, a stuck side
/// passes, and a finished game contributes nothing.
pub open spec fn leaf_seq(me: u64, enemy: u64, depth: int) -> Seq<(u64, u64)>
    decreases depth_measure(depth), 65int,
{
    if spec_game_over(me, enemy) {
        Seq::empty()
    } else if depth <= 0 {
        seq![(me, enemy)]
    } else if spec_moves(me, enemy) == 0 {
        leaf_seq(enemy, me, depth - 1)
    } else {
        leaf_below(me, enemy, depth, 64)
    }
}

/// The leaves contributed by the legal moves with cell index below `n`.
pub open spec fn leaf_below(me: u64, enemy: u64, depth: int, n: int) -> Seq<(u64, u64)>
    decreases depth_measure(depth), n,
{
    if n <= 0 || depth <= 0 {
        Seq::empty()
    } else {
        let rest = leaf_below(me, enemy, depth, n - 1);
        let j = (n - 1) as u64;
        if j < 64 && bit64(spec_moves(me, enemy), j) {
            rest + leaf_seq(
                spec_make_enemy(1u64 << j, me, enemy),
                spec_make_self(1u64 << j, me, enemy),
                depth - 1,
            )
        } else {
            rest
        }
    }
}

/// How many leaf scores a search of this position consumes.
pub open spec fn leaf_count(me: u64, enemy: u64, depth: int) -> int {
    leaf_seq(me, enemy, depth).len() as int
}

/// Cells without a legal move contribute no leaves.
pub proof fn lemma_leaf_skip(me: u64, enemy: u64, depth: int, b: int, n: int)
    requires
        0 <= b <= n <= 64,
        forall|j: u64| b <= j < n ==> !(#[trigger] bit64(spec_moves(me, enemy), j)),
    ensures
        leaf_below(me, enemy, depth, n) == leaf_below(me, enemy, depth, b),
    decreases n,
{
    if b < n {
        lemma_leaf_skip(me, enemy, depth, b, n - 1);
    }
}

/// Collect the leaves of a `depth`-bounded search of this position, in
/// search order, onto the end of `v`.
pub fn collect_leaf_boards(v: &mut Vec<(u64, u64)>, me: u64, enemy: u64, depth: i8)
    ensures
        final(v)@ == old(v)@ + leaf_seq(me, enemy, depth as int),
    decreases depth_measure(depth as int), 65int,
{
    if game_over(me, enemy) {
        proof {
            assert(final(v)@ =~= old(v)@ + leaf_seq(me, enemy, depth as int));
        }
        return ;
    }
    if depth <= 0 {
        v.push((me, enemy));
        proof {
            assert(v@ =~= old(v)@ + leaf_seq(me, enemy, depth as int));
        }
        return ;
    }
    let moves = generate_moves2(me, enemy);
    if moves == 0 {
        collect_leaf_boards(v, enemy, me, depth - 1);
        return ;
    }
    let mut m: u64 = moves;
    let ghost mut b: u64 = 0;
    let ghost v0 = v@;
    proof {
        assert(v@ =~= v0 + leaf_below(me, enemy, depth as int, 0));
    }
    while m != 0
        invariant
            depth > 0,
            moves == spec_moves(me, enemy),
            moves != 0,
            !spec_game_over(me, enemy),
            b <= 64,
            forall|j: u64| j < 64 ==> #[trigger] bit64(m, j) == (bit64(moves, j) && j >= b),
            v@ == v0 + leaf_below(me, enemy, depth as int, b as int),
        decreases m,
    {
        let ghost m0 = m;
        let ghost b0 = b;
        let i = next_idx_move(&mut m);
        proof {
            assert(bit64(moves, i as u64));
            crate::bitcount::lemma_pop64_remove_bit(m0, i as u64);
            assert forall|j: u64| j < 64 implies #[trigger] bit64(m, j) == (bit64(moves, j) && j
                >= i as u64 + 1) by {
                crate::bitcount::lemma_remove_bit_facts(m0, i as u64, j);
            }
            assert forall|j: u64| b0 <= j < i as u64 implies !(#[trigger] bit64(
                spec_moves(me, enemy),
                j,
            )) by {
                assert(!bit64(m0, j));
            }
            lemma_leaf_skip(me, enemy, depth as int, b0 as int, i as int);
        }
        let (cs, ce) = make_move1(1u64 << i, me, enemy);
        collect_leaf_boards(v, ce, cs, depth - 1);
        proof {
            b = (i + 1) as u64;
            assert(v@ =~= v0 + leaf_below(me, enemy, depth as int, b as int));
        }
    }
    proof {
        assert forall|j: u64| b <= j < 64 implies !(#[trigger] bit64(moves, j)) by {
            crate::bitcount::lemma_single_bit_facts(0, 0, j);
            assert(!bit64(m, j));
        }
        lemma_leaf_skip(me, enemy, depth as int, b as int, 64);
        assert(v@ =~= v0 + leaf_seq(me, enemy, depth as int));
    }
}

/// The value a `depth`-bounded negamax reports for this position when its
/// leaves, in search order, hold the scores `v[start..]`: finished games
/// are the exact centidisk score, spent budgets read the next score, and
/// interior nodes take the best negated child value.
pub open spec fn nv_value(v: Seq<i32>, me: u64, enemy: u64, depth: int, start: int) -> int
    decreases depth_measure(depth), 65int,
{
    if spec_game_over(me, enemy) {
        100 * spec_eval(me, enemy)
    } else if depth <= 0 {
        v[start] as int
    } else if spec_moves(me, enemy) == 0 {
        -nv_value(v, enemy, me, depth - 1, start)
    } else {
        nv_below(v, me, enemy, depth, 64, start).0
    }
}

/// Best value and next score offset after the legal moves with cell index
/// below `n`, starting at score offset `off`.
pub open spec fn nv_below(v: Seq<i32>, me: u64, enemy: u64, depth: int, n: int, off: int) -> (
    int,
    int,
)
    decreases depth_measure(depth), n,
{
    if n <= 0 || depth <= 0 {
        (-2000000int, off)
    } else {
        let (best, o) = nv_below(v, me, enemy, depth, n - 1, off);
        let j = (n - 1) as u64;
        if j < 64 && bit64(spec_moves(me, enemy), j) {
            let e2 = spec_make_enemy(1u64 << j, me, enemy);
            let s2 = spec_make_self(1u64 << j, me, enemy);
            let val = -nv_value(v, e2, s2, depth - 1, o);
            let o2 = o + leaf_count(e2, s2, depth - 1);
            (if val > best {
                val
            } else {
                best
            }, o2)
        } else {
            (best, o)
        }
    }
}

/// Skipping cells without a legal move changes neither value nor offset.
pub proof fn lemma_nv_skip(v: Seq<i32>, me: u64, enemy: u64, depth: int, off: int, b: int, n: int)
    requires
        0 <= b <= n <= 64,
        forall|j: u64| b <= j < n ==> !(#[trigger] bit64(spec_moves(me, enemy), j)),
    ensures
        nv_below(v, me, enemy, depth, n, off) == nv_below(v, me, enemy, depth, b, off),
    decreases n,
{
    if b < n {
        lemma_nv_skip(v, me, enemy, depth, off, b, n - 1);
    }
}

/// Fewer moves contribute no more leaves.
pub proof fn lemma_leaf_below_mono(me: u64, enemy: u64, depth: int, b: int, n: int)
    requires
        0 <= b <= n <= 64,
    ensures
        leaf_below(me, enemy, depth, b).len() <= leaf_below(me, enemy, depth, n).len(),
    decreases n,
{
    if b < n {
        lemma_leaf_below_mono(me, enemy, depth, b, n - 1);
    }
}

/// With every leaf score in the model's range and enough scores for the
/// whole search, the reported value stays in that range too.
pub proof fn lemma_nv_bounds(v: Seq<i32>, me: u64, enemy: u64, depth: int, start: int)
    requires
        forall|k: int| 0 <= k < v.len() ==> -1000000 <= (#[trigger] v[k]) <= 1000000,
        0 <= start,
        start + leaf_count(me, enemy, depth) <= v.len(),
    ensures
        -1000000 <= nv_value(v, me, enemy, depth, start) <= 1000000,
    decreases depth_measure(depth), 65int,
{
    if spec_game_over(me, enemy) {
        crate::bitcount::lemma_pop64_le(me);
        crate::bitcount::lemma_pop64_le(enemy);
    } else if depth <= 0 {
    } else if spec_moves(me, enemy) == 0 {
        lemma_nv_bounds(v, enemy, me, depth - 1, start);
    } else {
        crate::bitcount::lemma_nonzero_has_bit(spec_moves(me, enemy));
        lemma_nv_below_bounds(v, me, enemy, depth, 64, start);
    }
}

/// Bounds for the best-below helper: the sentinel exactly when no move lies
/// below `n`, else a value in the model's range.
pub proof fn lemma_nv_below_bounds(v: Seq<i32>, me: u64, enemy: u64, depth: int, n: int, off: int)
    requires
        forall|k: int| 0 <= k < v.len() ==> -1000000 <= (#[trigger] v[k]) <= 1000000,
        0 <= n <= 64,
        depth > 0,
        0 <= off,
        off + leaf_below(me, enemy, depth, n).len() <= v.len(),
    ensures
        (exists|j: u64| j < n && #[trigger] bit64(spec_moves(me, enemy), j)) ==> -1000000
            <= nv_below(v, me, enemy, depth, n, off).0 <= 1000000,
        (forall|j: u64| j < n ==> !(#[trigger] bit64(spec_moves(me, enemy), j))) ==> nv_below(
            v,
            me,
            enemy,
            depth,
            n,
            off,
        ).0 == -2000000,
        nv_below(v, me, enemy, depth, n, off).0 <= 1000000,
    decreases depth_measure(depth), n,
{
    if n > 0 {
        lemma_leaf_below_mono(me, enemy, depth, n - 1, n);
        lemma_nv_below_bounds(v, me, enemy, depth, n - 1, off);
        let j = (n - 1) as u64;
        if bit64(spec_moves(me, enemy), j) {
            let e2 = spec_make_enemy(1u64 << j, me, enemy);
            let s2 = spec_make_self(1u64 << j, me, enemy);
            lemma_nv_offset(v, me, enemy, depth, n - 1, off);
            lemma_nv_bounds(v, e2, s2, depth - 1, nv_below(v, me, enemy, depth, n - 1, off).1);
        }
    }
}

/// Negamax over batched leaf scores: walks the same tree the leaves were
/// collected from, reading one score per leaf in order through `vec_idx`.
#[verifier::rlimit(60)]
pub fn negamax_vec(v: &Vec<i32>, me: u64, enemy: u64, depth: i8, vec_idx: &mut usize) -> (r: i32)
    requires
        forall|k: int| 0 <= k < v@.len() ==> -1000000 <= (#[trigger] v@[k]) <= 1000000,
        *old(vec_idx) + leaf_count(me, enemy, depth as int) <= v@.len(),
    ensures
        r as int == nv_value(v@, me, enemy, depth as int, *old(vec_idx) as int),
        *final(vec_idx) == *old(vec_idx) + leaf_count(me, enemy, depth as int),
        -1000000 <= r <= 1000000,
    decreases depth_measure(depth as int), 65int,
{
    if game_over(me, enemy) {
        proof {
            crate::bitcount::lemma_pop64_le(me);
            crate::bitcount::lemma_pop64_le(enemy);
            assert(leaf_count(me, enemy, depth as int) == 0);
        }
        return 100 * (evaluation(me, enemy) as i32);
    }
    if depth <= 0 {
        proof {
            assert(leaf_seq(me, enemy, depth as int) =~= seq![(me, enemy)]);
            assert(leaf_count(me, enemy, depth as int) == 1);
        }
        let len = v.len();
        let idx0 = *vec_idx;
        proof {
            assert(idx0 < len);
        }
        let r = v[idx0];
        *vec_idx = idx0 + 1;
        return r;
    }
    let moves = generate_moves2(me, enemy);
    if moves == 0 {
        let q = -negamax_vec(v, enemy, me, depth - 1, vec_idx);
        return q;
    }
    let ghost start = *vec_idx;
    let mut best: i32 = -2000000;
    let mut m: u64 = moves;
    let ghost mut b: u64 = 0;
    while m != 0
        invariant
            forall|k: int| 0 <= k < v@.len() ==> -1000000 <= (#[trigger] v@[k]) <= 1000000,
            depth > 0,
            moves == spec_moves(me, enemy),
            moves != 0,
            !spec_game_over(me, enemy),
            b <= 64,
            forall|j: u64| j < 64 ==> #[trigger] bit64(m, j) == (bit64(moves, j) && j >= b),
            start + leaf_below(me, enemy, depth as int, 64).len() <= v@.len(),
            best as int == nv_below(v@, me, enemy, depth as int, b as int, start as int).0,
            *vec_idx == nv_below(v@, me, enemy, depth as int, b as int, start as int).1,
            best == -2000000 || -1000000 <= best <= 1000000,
        decreases m,
    {
        let ghost m0 = m;
        let ghost b0 = b;
        let i = next_idx_move(&mut m);
        proof {
            assert(bit64(moves, i as u64));
            crate::bitcount::lemma_pop64_remove_bit(m0, i as u64);
            assert forall|j: u64| j < 64 implies #[trigger] bit64(m, j) == (bit64(moves, j) && j
                >= i as u64 + 1) by {
                crate::bitcount::lemma_remove_bit_facts(m0, i as u64, j);
            }
            assert forall|j: u64| b0 <= j < i as u64 implies !(#[trigger] bit64(
                spec_moves(me, enemy),
                j,
            )) by {
                assert(!bit64(m0, j));
            }
            lemma_nv_skip(v@, me, enemy, depth as int, start as int, b0 as int, i as int);
            lemma_leaf_skip(me, enemy, depth as int, b0 as int, i as int);
            lemma_nv_offset(v@, me, enemy, depth as int, i as int, start as int);
            lemma_leaf_below_mono(me, enemy, depth as int, i as int + 1, 64);
        }
        let (cs, ce) = make_move1(1u64 << i, me, enemy);
        let q = -negamax_vec(v, ce, cs, depth - 1, vec_idx);
        if q > best {
            best = q;
        }
        proof {
            b = (i + 1) as u64;
        }
    }
    proof {
        assert forall|j: u64| b <= j < 64 implies !(#[trigger] bit64(moves, j)) by {
            crate::bitcount::lemma_single_bit_facts(0, 0, j);
            assert(!bit64(m, j));
        }
        lemma_nv_skip(v@, me, enemy, depth as int, start as int, b as int, 64);
        crate::bitcount::lemma_nonzero_has_bit(moves);
        lemma_nv_below_bounds(v@, me, enemy, depth as int, 64, start as int);
        lemma_nv_offset(v@, me, enemy, depth as int, 64, start as int);
    }
    best
}

/// Root selection over scored children: the first child whose score no
/// other child beats, or the pass sentinel with a below-range score when
/// there is no child.
pub fn select_best_move(children: &Vec<(u8, i32)>) -> (r: (u8, i32))
    ensures
        children@.len() == 0 ==> r == (65u8, -2000000i32),
        children@.len() > 0 ==> exists|k: int|
            #![trigger children@[k]]
            {
                &&& 0 <= k < children@.len()
                &&& children@[k] == r
                &&& forall|k2: int| 0 <= k2 < k ==> (#[trigger] children@[k2]).1 < r.1
            },
        forall|k: int| 0 <= k < children@.len() ==> (#[trigger] children@[k]).1 <= r.1,
{
    if children.len() == 0 {
        return (65, -2000000);
    }
    let mut best: (u8, i32) = children[0];
    let ghost mut bk: int = 0int;
    let mut idx: usize = 1;
    while idx < children.len()
        invariant
            1 <= idx <= children@.len(),
            0 <= bk < idx,
            children@[bk] == best,
            forall|k2: int| 0 <= k2 < bk ==> (#[trigger] children@[k2]).1 < best.1,
            forall|k: int| 0 <= k < idx ==> (#[trigger] children@[k]).1 <= best.1,
        decreases children@.len() - idx,
    {
        let c = children[idx];
        if c.1 > best.1 {
            best = c;
            proof {
                bk = idx as int;
            }
        }
        idx = idx + 1;
    }
    best
}

/// The offset tracks the leaves: after the moves below `n`, exactly their
/// leaf count has been consumed.
pub proof fn lemma_nv_offset(v: Seq<i32>, me: u64, enemy: u64, depth: int, n: int, off: int)
    requires
        0 <= n <= 64,
    ensures
        nv_below(v, me, enemy, depth, n, off).1 == off + leaf_below(me, enemy, depth, n).len(),
    decreases n,
{
    if n > 0 && depth > 0 {
        lemma_nv_offset(v, me, enemy, depth, n - 1, off);
    }
}

} // verus!
