//! The exact endgame solver: fail-soft negamax with alpha-beta pruning whose
//! leaves are actual ends of the game, so the score is the true disk
//! difference wherever it lands inside the search window. Move ordering uses
//! a cheap table heuristic fitted offline, applied while positions are still
//! far from the end and dropped near the leaves where sorting no longer pays.

use vstd::prelude::*;
use crate::bitcount::{bit64, pop64, lemma_pop64_le, lemma_nonzero_has_bit};
use crate::othello_board::{
    spec_moves, spec_game_over, spec_eval, spec_make_self, spec_make_enemy, generate_moves2,
    game_over, evaluation, make_move1, next_idx_move, to_idx_move_vec, lemma_apply_move,
    lemma_apply_cell_count, lemma_or_comm,
};
use crate::eg_weights::{spec_heuristic, heuristic_eg_nega};

verus! {

/// Termination measure for walking the game tree: twice the number of empty
/// cells, plus one when the side to move must pass. A move fills a cell; a
/// pass hands the turn to a side that can move.
pub open spec fn eg_measure(me: u64, enemy: u64) -> int {
    2 * (64 - pop64(me | enemy)) + if spec_moves(me, enemy) == 0 {
        1int
    } else {
        0int
    }
}

/// The exact game value of a position from the mover's point of view: the
/// final disk difference under optimal play by both sides. This is the
/// reference the solver is proved against.
pub open spec fn eg_value(me: u64, enemy: u64) -> int
    decreases eg_measure(me, enemy), 65int,
{
    if spec_game_over(me, enemy) {
        spec_eval(me, enemy)
    } else if spec_moves(me, enemy) == 0 {
        proof {
            lemma_pass_measure(me, enemy);
        }
        -eg_value(enemy, me)
    } else {
        eg_best_below(me, enemy, 64)
    }
}

/// Best value among the legal moves with cell index below `n` (-1000 when
/// there is none).
pub open spec fn eg_best_below(me: u64, enemy: u64, n: int) -> int
    decreases eg_measure(me, enemy), n,
{
    if n <= 0 {
        -1000
    } else {
        let rest = eg_best_below(me, enemy, n - 1);
        let j = (n - 1) as u64;
        if j < 64 && bit64(spec_moves(me, enemy), j) {
            proof {
                lemma_child_measure(me, enemy, j);
            }
            let v = -eg_value(
                spec_make_enemy(1u64 << j, me, enemy),
                spec_make_self(1u64 << j, me, enemy),
            );
            if v > rest {
                v
            } else {
                rest
            }
        } else {
            rest
        }
    }
}

/// The value a move earns the mover: minus the value its child position has
/// for the side that moves next.
pub open spec fn move_val(me: u64, enemy: u64, j: u64) -> int {
    -eg_value(spec_make_enemy(1u64 << j, me, enemy), spec_make_self(1u64 << j, me, enemy))
}

/// A forced pass hands a strictly smaller measure to the other side.
pub proof fn lemma_pass_measure(me: u64, enemy: u64)
    requires
        !spec_game_over(me, enemy),
        spec_moves(me, enemy) == 0,
    ensures
        0 <= eg_measure(enemy, me) < eg_measure(me, enemy),
{
    lemma_or_comm(me, enemy);
    lemma_pop64_le(me | enemy);
}

/// Playing a legal move hands a strictly smaller measure to the other side.
pub proof fn lemma_child_measure(me: u64, enemy: u64, j: u64)
    requires
        j < 64,
        bit64(spec_moves(me, enemy), j),
    ensures
        ({
            let e2 = spec_make_enemy(1u64 << j, me, enemy);
            let s2 = spec_make_self(1u64 << j, me, enemy);
            0 <= eg_measure(e2, s2) < eg_measure(me, enemy)
        }),
{
    let e2 = spec_make_enemy(1u64 << j, me, enemy);
    let s2 = spec_make_self(1u64 << j, me, enemy);
    lemma_apply_cell_count(me, enemy, j);
    lemma_or_comm(e2, s2);
    lemma_or_comm(me, enemy);
    lemma_pop64_le(me | enemy);
    lemma_pop64_le(s2 | e2);
}

/// The game value never leaves the range of final disk differences.
pub proof fn lemma_eg_value_bounds(me: u64, enemy: u64)
    ensures
        -64 <= eg_value(me, enemy) <= 64,
    decreases eg_measure(me, enemy), 65int,
{
    if spec_game_over(me, enemy) {
        lemma_pop64_le(me);
        lemma_pop64_le(enemy);
    } else if spec_moves(me, enemy) == 0 {
        lemma_pass_measure(me, enemy);
        lemma_eg_value_bounds(enemy, me);
    } else {
        lemma_nonzero_has_bit(spec_moves(me, enemy));
        lemma_eg_best_bounds(me, enemy, 64);
    }
}

/// Bounds for the best-below helper: -1000 exactly when no move lies below
/// `n`, else a value in the final-score range.
pub proof fn lemma_eg_best_bounds(me: u64, enemy: u64, n: int)
    requires
        0 <= n <= 64,
    ensures
        (exists|j: u64| j < n && #[trigger] bit64(spec_moves(me, enemy), j)) ==> -64
            <= eg_best_below(me, enemy, n) <= 64,
        (forall|j: u64| j < n ==> !(#[trigger] bit64(spec_moves(me, enemy), j)))
            ==> eg_best_below(me, enemy, n) == -1000,
        eg_best_below(me, enemy, n) <= 64,
    decreases eg_measure(me, enemy), n,
{
    if n > 0 {
        lemma_eg_best_bounds(me, enemy, n - 1);
        let j = (n - 1) as u64;
        if bit64(spec_moves(me, enemy), j) {
            lemma_child_measure(me, enemy, j);
            lemma_eg_value_bounds(
                spec_make_enemy(1u64 << j, me, enemy),
                spec_make_self(1u64 << j, me, enemy),
            );
        }
    }
}

/// The best-below value is no worse than any single move below the bound.
pub proof fn lemma_eg_best_ge(me: u64, enemy: u64, n: int, j: u64)
    requires
        (j as int) < n <= 64,
        bit64(spec_moves(me, enemy), j),
    ensures
        eg_best_below(me, enemy, n) >= move_val(me, enemy, j),
    decreases n,
{
    if j as int == n - 1 {
    } else {
        lemma_eg_best_ge(me, enemy, n - 1, j);
    }
}

/// A best-below value other than -1000 is earned by some legal move.
pub proof fn lemma_eg_best_witness(me: u64, enemy: u64, n: int)
    requires
        0 <= n <= 64,
        eg_best_below(me, enemy, n) != -1000,
    ensures
        exists|j: u64|
            j < n && #[trigger] bit64(spec_moves(me, enemy), j) && eg_best_below(me, enemy, n)
                == move_val(me, enemy, j),
    decreases n,
{
    let j = (n - 1) as u64;
    if n > 0 && bit64(spec_moves(me, enemy), j) && eg_best_below(me, enemy, n) == move_val(
        me,
        enemy,
        j,
    ) {
    } else {
        lemma_eg_best_witness(me, enemy, n - 1);
    }
}

/// Cells without a legal move contribute nothing to the best-below value.
pub proof fn lemma_eg_best_skip(me: u64, enemy: u64, b: int, n: int)
    requires
        0 <= b <= n <= 64,
        forall|j: u64| b <= j < n ==> !(#[trigger] bit64(spec_moves(me, enemy), j)),
    ensures
        eg_best_below(me, enemy, n) == eg_best_below(me, enemy, b),
    decreases n,
{
    if b < n {
        lemma_eg_best_skip(me, enemy, b, n - 1);
    }
}

/// Fail-soft negamax endgame solver without move ordering. The returned
/// score is the exact game value wherever it lands strictly inside the
/// window; outside, it bounds the game value from the side it fails toward.
#[verifier::rlimit(100)]
pub fn solve_endgame_nomo(me: u64, enemy: u64, alpha: i8, beta: i8) -> (r: i8)
    requires
        me & enemy == 0,
        -120 <= alpha < beta <= 120,
    ensures
        -64 <= r <= 64,
        r <= alpha ==> eg_value(me, enemy) <= r,
        r >= beta ==> eg_value(me, enemy) >= r,
        alpha < r < beta ==> r == eg_value(me, enemy),
    decreases eg_measure(me, enemy),
{
    if game_over(me, enemy) {
        proof {
            lemma_pop64_le(me);
            lemma_pop64_le(enemy);
        }
        return evaluation(me, enemy);
    }
    let moves = generate_moves2(me, enemy);
    if moves == 0 {
        proof {
            lemma_pass_measure(me, enemy);
            lemma_or_comm(me, enemy);
            assert(eg_value(me, enemy) == -eg_value(enemy, me));
        }
        let q = -solve_endgame_nomo(enemy, me, -beta, -alpha);
        return q;
    }
    let mut alpha_cur: i8 = alpha;
    let mut best_score: i8 = -127;
    let mut m: u64 = moves;
    let ghost mut b: u64 = 0;
    proof {
        assert forall|j: u64| j < 64 implies #[trigger] bit64(m, j) == (bit64(moves, j) && j
            >= b) by {}
    }
    while m != 0
        invariant
            me & enemy == 0,
            -120 <= alpha < beta <= 120,
            moves == spec_moves(me, enemy),
            moves != 0,
            !spec_game_over(me, enemy),
            b <= 64,
            forall|j: u64| j < 64 ==> #[trigger] bit64(m, j) == (bit64(moves, j) && j >= b),
            best_score == -127 || -64 <= best_score <= 64,
            best_score < beta,
            eg_best_below(me, enemy, b as int) <= best_score as int,
            alpha < best_score ==> eg_best_below(me, enemy, b as int) == best_score as int,
            if best_score > alpha {
                alpha_cur == best_score
            } else {
                alpha_cur == alpha
            },
        decreases m,
    {
        let ghost m0 = m;
        let ghost b0 = b;
        let i = next_idx_move(&mut m);
        proof {
            assert(bit64(moves, i as u64));
            crate::bitcount::lemma_pop64_remove_bit(m0, i as u64);
            assert forall|j: u64| j < 64 implies #[trigger] bit64(m, j) == (bit64(moves, j) && j
                >= i as u64 + 1) by {
                crate::bitcount::lemma_remove_bit_facts(m0, i as u64, j);
            }
            assert forall|j: u64| b0 <= j < i as u64 implies !(#[trigger] bit64(
                spec_moves(me, enemy),
                j,
            )) by {
                assert(!bit64(m0, j));
            }
            lemma_eg_best_skip(me, enemy, b0 as int, i as int);
            lemma_child_measure(me, enemy, i as u64);
            lemma_apply_move(me, enemy, i as u64);
        }
        let (cs, ce) = make_move1(1u64 << i, me, enemy);
        proof {
            lemma_or_comm(cs, ce);
        }
        let q = -solve_endgame_nomo(ce, cs, -beta, -alpha_cur);
        proof {
            assert(move_val(me, enemy, i as u64) == -eg_value(ce, cs));
            assert(eg_best_below(me, enemy, i as int + 1) == if move_val(me, enemy, i as u64)
                > eg_best_below(me, enemy, i as int) {
                move_val(me, enemy, i as u64)
            } else {
                eg_best_below(me, enemy, i as int)
            });
        }
        if q >= beta {
            proof {
                lemma_eg_best_ge(me, enemy, 64, i as u64);
                assert(eg_value(me, enemy) == eg_best_below(me, enemy, 64));
            }
            return q;
        }
        if q > best_score {
            best_score = q;
            if q > alpha_cur {
                alpha_cur = q;
            }
        }
        proof {
            b = (i + 1) as u64;
        }
    }
    proof {
        assert forall|j: u64| b <= j < 64 implies !(#[trigger] bit64(moves, j)) by {
            crate::bitcount::lemma_single_bit_facts(0, 0, j);
            assert(!bit64(m, j));
        }
        lemma_eg_best_skip(me, enemy, b as int, 64);
        lemma_nonzero_has_bit(moves);
        let jw = choose|j: u64| j < 64 && #[trigger] bit64(moves, j);
        lemma_eg_best_bounds(me, enemy, 64);
        assert(eg_value(me, enemy) == eg_best_below(me, enemy, 64));
    }
    best_score
}

/// The child list entry for move `j`: the move-ordering key (lower is
/// searched first), the cell index, and the position after the move.
pub open spec fn root_entry(me: u64, enemy: u64, j: u64) -> (i32, u8, u64, u64) {
    let s2 = spec_make_self(1u64 << j, me, enemy);
    let e2 = spec_make_enemy(1u64 << j, me, enemy);
    ((-spec_heuristic(s2, e2)) as i32, j as u8, s2, e2)
}

/// Whether `t` is the child list entry of some legal move.
pub open spec fn is_entry(me: u64, enemy: u64, t: (i32, u8, u64, u64)) -> bool {
    exists|j: u64|
        j < 64 && bit64(spec_moves(me, enemy), j) && t == #[trigger] root_entry(me, enemy, j)
}

/// The score an entry's move earns the present mover.
pub open spec fn entry_val(t: (i32, u8, u64, u64)) -> int {
    -eg_value(t.3, t.2)
}

/// Builds the keyed child list: one entry per legal move.
pub(crate) fn build_children(me: u64, enemy: u64, moves: u64) -> (r: Vec<(i32, u8, u64, u64)>)
    requires
        moves == spec_moves(me, enemy),
    ensures
        forall|k: int| 0 <= k < r@.len() ==> is_entry(me, enemy, #[trigger] r@[k]),
        forall|j: u64|
            j < 64 && #[trigger] bit64(spec_moves(me, enemy), j) ==> r@.contains(
                root_entry(me, enemy, j),
            ),
{
    let idxs = to_idx_move_vec(moves);
    let mut r: Vec<(i32, u8, u64, u64)> = Vec::new();
    let mut k: usize = 0;
    while k < idxs.len()
        invariant
            moves == spec_moves(me, enemy),
            k <= idxs@.len(),
            r@.len() == k,
            forall|t: int|
                0 <= t < idxs@.len() ==> (idxs@[t] as u64) < 64 && bit64(
                    moves,
                    #[trigger] idxs@[t] as u64,
                ),
            forall|t: int| 0 <= t < k ==> #[trigger] r@[t] == root_entry(me, enemy, idxs@[t] as u64),
        decreases idxs@.len() - k,
    {
        let mov = idxs[k];
        let (s2, e2) = make_move1(1u64 << mov, me, enemy);
        let key = -heuristic_eg_nega(s2, e2);
        r.push((key, mov, s2, e2));
        k = k + 1;
    }
    proof {
        assert forall|t: int| 0 <= t < r@.len() implies is_entry(me, enemy, #[trigger] r@[t]) by {
            assert(r@[t] == root_entry(me, enemy, idxs@[t] as u64));
        }
        assert forall|j: u64| j < 64 && #[trigger] bit64(spec_moves(me, enemy), j) implies r@
            .contains(root_entry(me, enemy, j)) by {
            assert(idxs@.contains(j as u8));
            let t = choose|t: int| 0 <= t < idxs@.len() && idxs@[t] == j as u8;
            assert(r@[t] == root_entry(me, enemy, j));
        }
    }
    r
}

pub(crate) fn insert_pos(out: &Vec<(i32, u8, u64, u64)>, key: i32) -> (p: usize)
    ensures
        p <= out@.len(),
        forall|t: int| 0 <= t < p ==> (#[trigger] out@[t]).0 <= key,
        p < out@.len() ==> out@[p as int].0 > key,
{
    let mut p: usize = 0;
    while p < out.len() && out[p].0 <= key
        invariant
            p <= out@.len(),
            forall|t: int| 0 <= t < p ==> (#[trigger] out@[t]).0 <= key,
        decreases out@.len() - p,
    {
        p = p + 1;
    }
    p
}

/// Sorts the child list by key, best-looking move first, keeping exactly the
/// same entries.
pub(crate) fn sort_children(v: Vec<(i32, u8, u64, u64)>) -> (r: Vec<(i32, u8, u64, u64)>)
    ensures
        r@.len() == v@.len(),
        forall|k: int| 0 <= k < r@.len() ==> v@.contains(#[trigger] r@[k]),
        forall|k: int| 0 <= k < v@.len() ==> r@.contains(#[trigger] v@[k]),
        forall|k1: int, k2: int| 0 <= k1 < k2 < r@.len() ==> r@[k1].0 <= r@[k2].0,
{
    let mut out: Vec<(i32, u8, u64, u64)> = Vec::new();
    let mut idx: usize = 0;
    while idx < v.len()
        invariant
            idx <= v@.len(),
            out@.len() == idx,
            forall|k: int| 0 <= k < out@.len() ==> v@.contains(#[trigger] out@[k]),
            forall|k: int| 0 <= k < idx ==> out@.contains(#[trigger] v@[k]),
            forall|k1: int, k2: int| 0 <= k1 < k2 < out@.len() ==> out@[k1].0 <= out@[k2].0,
        decreases v@.len() - idx,
    {
        let ghost out0 = out@;
        let x = v[idx];
        let p = insert_pos(&out, x.0);
        out.insert(p, x);
        proof {
            assert(out@ == out0.insert(p as int, x));
            out0.insert_ensures(p as int, x);
            assert(out@[p as int] == x);
            assert(v@.contains(x));
            assert forall|k: int| 0 <= k < out@.len() implies v@.contains(#[trigger] out@[k]) by {
                if k < p {
                    assert(out@[k] == out0[k]);
                } else if k > p {
                    assert(out@[k] == out0[k - 1]);
                }
            }
            assert forall|k: int| 0 <= k < idx + 1 implies out@.contains(#[trigger] v@[k]) by {
                if k < idx {
                    let k0 = choose|k0: int| 0 <= k0 < out0.len() && out0[k0] == v@[k];
                    if k0 < p {
                        assert(out@[k0] == v@[k]);
                    } else {
                        assert(out@[k0 + 1] == v@[k]);
                    }
                }
            }
            assert forall|k1: int, k2: int| 0 <= k1 < k2 < out@.len() implies out@[k1].0
                <= out@[k2].0 by {
                let a = if k1 < p {
                    out0[k1]
                } else if k1 == p {
                    x
                } else {
                    out0[k1 - 1]
                };
                let b = if k2 < p {
                    out0[k2]
                } else if k2 == p {
                    x
                } else {
                    out0[k2 - 1]
                };
                assert(out@[k1] == a);
                assert(out@[k2] == b);
            }
        }
        idx = idx + 1;
    }
    out
}

/// Fail-soft endgame solver with move ordering: children are searched in
/// heuristic order while more than `stop_mo_at_empties` cells are empty, and
/// without ordering closer to the end, where sorting no longer pays.
#[verifier::rlimit(100)]
fn solve_endgame_mo(me: u64, enemy: u64, alpha: i8, beta: i8, stop_mo_at_empties: u8) -> (r: i8)
    requires
        me & enemy == 0,
        -120 <= alpha < beta <= 120,
    ensures
        -64 <= r <= 64,
        r <= alpha ==> eg_value(me, enemy) <= r,
        r >= beta ==> eg_value(me, enemy) >= r,
        alpha < r < beta ==> r == eg_value(me, enemy),
    decreases eg_measure(me, enemy),
{
    if game_over(me, enemy) {
        proof {
            lemma_pop64_le(me);
            lemma_pop64_le(enemy);
        }
        return evaluation(me, enemy);
    }
    let moves = generate_moves2(me, enemy);
    if moves == 0 {
        proof {
            lemma_pass_measure(me, enemy);
            lemma_or_comm(me, enemy);
            assert(eg_value(me, enemy) == -eg_value(enemy, me));
        }
        let q = -solve_endgame_mo(enemy, me, -beta, -alpha, stop_mo_at_empties);
        return q;
    }
    let states = sort_children(build_children(me, enemy, moves));
    let empties = crate::othello_board::empty_disks(me, enemy);
    let mut alpha_cur: i8 = alpha;
    let mut best_score: i8 = -127;
    let mut idx: usize = 0;
    while idx < states.len()
        invariant
            me & enemy == 0,
            -120 <= alpha < beta <= 120,
            moves == spec_moves(me, enemy),
            moves != 0,
            !spec_game_over(me, enemy),
            idx <= states@.len(),
            forall|k: int| 0 <= k < states@.len() ==> is_entry(me, enemy, #[trigger] states@[k]),
            forall|j: u64|
                j < 64 && #[trigger] bit64(spec_moves(me, enemy), j) ==> states@.contains(
                    root_entry(me, enemy, j),
                ),
            best_score == -127 || -64 <= best_score <= 64,
            best_score < beta,
            forall|k: int| 0 <= k < idx ==> entry_val(#[trigger] states@[k]) <= best_score as int,
            alpha < best_score ==> exists|k: int|
                0 <= k < idx && entry_val(#[trigger] states@[k]) == best_score as int,
            if best_score > alpha {
                alpha_cur == best_score
            } else {
                alpha_cur == alpha
            },
        decreases states@.len() - idx,
    {
        let entry = states[idx];
        let ghost j = choose|j: u64|
            j < 64 && bit64(spec_moves(me, enemy), j) && entry == root_entry(me, enemy, j);
        proof {
            assert(is_entry(me, enemy, entry));
            lemma_child_measure(me, enemy, j);
            lemma_apply_move(me, enemy, j);
            lemma_or_comm(entry.2, entry.3);
        }
        let q = if empties > stop_mo_at_empties {
            -solve_endgame_mo(entry.3, entry.2, -beta, -alpha_cur, stop_mo_at_empties)
        } else {
            -solve_endgame_nomo(entry.3, entry.2, -beta, -alpha_cur)
        };
        proof {
            assert(entry_val(entry) == move_val(me, enemy, j));
        }
        if q >= beta {
            proof {
                lemma_eg_best_ge(me, enemy, 64, j);
                assert(eg_value(me, enemy) == eg_best_below(me, enemy, 64));
            }
            return q;
        }
        if q > best_score {
            best_score = q;
            if q > alpha_cur {
                alpha_cur = q;
            }
        }
        idx = idx + 1;
    }
    proof {
        lemma_eg_best_bounds(me, enemy, 64);
        lemma_nonzero_has_bit(moves);
        assert(eg_value(me, enemy) == eg_best_below(me, enemy, 64));
        if eg_best_below(me, enemy, 64) != -1000 {
            lemma_eg_best_witness(me, enemy, 64);
            let jw = choose|j: u64|
                j < 64 && #[trigger] bit64(spec_moves(me, enemy), j) && eg_best_below(me, enemy, 64)
                    == move_val(me, enemy, j);
            assert(states@.contains(root_entry(me, enemy, jw)));
            let kw = choose|k: int|
                0 <= k < states@.len() && states@[k] == root_entry(me, enemy, jw);
            assert(entry_val(states@[kw]) == move_val(me, enemy, jw));
        }
        if alpha < best_score < beta {
            let ke = choose|k: int|
                0 <= k < idx && entry_val(#[trigger] states@[k]) == best_score as int;
            assert(is_entry(me, enemy, states@[ke]));
            let je = choose|j: u64|
                j < 64 && bit64(spec_moves(me, enemy), j) && states@[ke] == #[trigger] root_entry(
                    me,
                    enemy,
                    j,
                );
            lemma_eg_best_ge(me, enemy, 64, je);
        }
    }
    best_score
}

/// Solves the endgame from the root: returns the best move and its fail-soft
/// score. With the game already over, the pass sentinel and the final score;
/// with no legal move, the pass sentinel and the negated value of the
/// opponent's search.
#[verifier::rlimit(100)]
pub fn solve_endgame_root(me: u64, enemy: u64, alpha: i8, beta: i8) -> (r: (u8, i8))
    requires
        me & enemy == 0,
        -120 <= alpha < beta <= 120,
    ensures
        spec_game_over(me, enemy) ==> r.0 == 65 && r.1 as int == spec_eval(me, enemy),
        !spec_game_over(me, enemy) ==> -64 <= r.1 <= 64 && (r.1 <= alpha ==> eg_value(me, enemy)
            <= r.1) && (r.1 >= beta ==> eg_value(me, enemy) >= r.1) && (alpha < r.1 < beta ==> r.1
            == eg_value(me, enemy)),
        !spec_game_over(me, enemy) && spec_moves(me, enemy) == 0 ==> r.0 == 65,
        !spec_game_over(me, enemy) && spec_moves(me, enemy) != 0 ==> (r.0 as u64) < 64 && bit64(
            spec_moves(me, enemy),
            r.0 as u64,
        ),
        !spec_game_over(me, enemy) && spec_moves(me, enemy) != 0 && alpha < r.1 < beta ==> move_val(
            me,
            enemy,
            r.0 as u64,
        ) == r.1,
        !spec_game_over(me, enemy) && spec_moves(me, enemy) != 0 && r.1 >= beta ==> move_val(
            me,
            enemy,
            r.0 as u64,
        ) >= r.1,
{
    if game_over(me, enemy) {
        proof {
            lemma_pop64_le(me);
            lemma_pop64_le(enemy);
        }
        return (65, evaluation(me, enemy));
    }
    let moves = generate_moves2(me, enemy);
    if moves == 0 {
        proof {
            lemma_pass_measure(me, enemy);
            lemma_or_comm(me, enemy);
            assert(eg_value(me, enemy) == -eg_value(enemy, me));
        }
        let q = -solve_endgame_mo(enemy, me, -beta, -alpha, 7);
        return (65, q);
    }
    let states = sort_children(build_children(me, enemy, moves));
    let mut alpha_cur: i8 = alpha;
    let mut best_score: i8 = -127;
    let mut best_move: u8 = 65;
    let mut idx: usize = 0;
    while idx < states.len()
        invariant
            me & enemy == 0,
            -120 <= alpha < beta <= 120,
            moves == spec_moves(me, enemy),
            moves != 0,
            !spec_game_over(me, enemy),
            idx <= states@.len(),
            forall|k: int| 0 <= k < states@.len() ==> is_entry(me, enemy, #[trigger] states@[k]),
            forall|j: u64|
                j < 64 && #[trigger] bit64(spec_moves(me, enemy), j) ==> states@.contains(
                    root_entry(me, enemy, j),
                ),
            best_score == -127 || -64 <= best_score <= 64,
            best_score < beta,
            forall|k: int| 0 <= k < idx ==> entry_val(#[trigger] states@[k]) <= best_score as int,
            alpha < best_score ==> exists|k: int|
                0 <= k < idx && entry_val(#[trigger] states@[k]) == best_score as int,
            if best_score > alpha {
                alpha_cur == best_score
            } else {
                alpha_cur == alpha
            },
            best_score == -127 ==> best_move == 65,
            best_score != -127 ==> (best_move as u64) < 64 && bit64(
                spec_moves(me, enemy),
                best_move as u64,
            ),
            alpha < best_score < beta ==> move_val(me, enemy, best_move as u64)
                == best_score as int,
        decreases states@.len() - idx,
    {
        let entry = states[idx];
        let ghost j = choose|j: u64|
            j < 64 && bit64(spec_moves(me, enemy), j) && entry == root_entry(me, enemy, j);
        proof {
            assert(is_entry(me, enemy, entry));
            lemma_child_measure(me, enemy, j);
            lemma_apply_move(me, enemy, j);
            lemma_or_comm(entry.2, entry.3);
        }
        let q = -solve_endgame_mo(entry.3, entry.2, -beta, -alpha_cur, 7);
        proof {
            assert(entry_val(entry) == move_val(me, enemy, j));
            assert(entry.1 as u64 == j);
        }
        if q >= beta {
            proof {
                lemma_eg_best_ge(me, enemy, 64, j);
                assert(eg_value(me, enemy) == eg_best_below(me, enemy, 64));
            }
            return (entry.1, q);
        }
        if q > best_score {
            best_score = q;
            best_move = entry.1;
            if q > alpha_cur {
                alpha_cur = q;
            }
        }
        idx = idx + 1;
    }
    proof {
        lemma_eg_best_bounds(me, enemy, 64);
        lemma_nonzero_has_bit(moves);
        assert(eg_value(me, enemy) == eg_best_below(me, enemy, 64));
        if eg_best_below(me, enemy, 64) != -1000 {
            lemma_eg_best_witness(me, enemy, 64);
            let jw = choose|j: u64|
                j < 64 && #[trigger] bit64(spec_moves(me, enemy), j) && eg_best_below(me, enemy, 64)
                    == move_val(me, enemy, j);
            assert(states@.contains(root_entry(me, enemy, jw)));
            let kw = choose|k: int|
                0 <= k < states@.len() && states@[k] == root_entry(me, enemy, jw);
            assert(entry_val(states@[kw]) == move_val(me, enemy, jw));
        }
        if alpha < best_score < beta {
            let ke = choose|k: int|
                0 <= k < idx && entry_val(#[trigger] states@[k]) == best_score as int;
            assert(is_entry(me, enemy, states@[ke]));
            let je = choose|j: u64|
                j < 64 && bit64(spec_moves(me, enemy), j) && states@[ke] == #[trigger] root_entry(
                    me,
                    enemy,
                    j,
                );
            lemma_eg_best_ge(me, enemy, 64, je);
        }
    }
    (best_move, best_score)
}

} // verus!
