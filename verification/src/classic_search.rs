//! The midgame search: fail-soft negamax with alpha-beta pruning under a
//! depth budget, scoring leaves with the table heuristic and finished games
//! with the exact disk difference in centidisks. Moves are ordered by the
//! heuristic until the position nears the end of the game.

use vstd::prelude::*;
use crate::bitcount::{bit64, lemma_pop64_le, lemma_nonzero_has_bit};
use crate::othello_board::{
    spec_moves, spec_game_over, spec_eval, spec_make_self, spec_make_enemy, generate_moves2,
    game_over, evaluation, empty_disks, lemma_apply_move, lemma_or_comm,
};
use crate::eg_weights::spec_heuristic;
use crate::endgame::{build_children, sort_children, root_entry, is_entry, lemma_child_measure};

verus! {

/// Depth part of the termination measure: budgets at or below zero are spent.
pub open spec fn depth_measure(depth: int) -> int {
    if depth > 0 {
        depth
    } else {
        0
    }
}

/// The value of a position searched to budget `depth`, from the mover's
/// point of view: the final disk difference in centidisks at finished games,
/// the table heuristic at exhausted budgets, and otherwise the best of the
/// negated child values (a pass costs one budget step).
pub open spec fn mid_value(me: u64, enemy: u64, depth: int) -> int
    decreases depth_measure(depth), 65int,
{
    if spec_game_over(me, enemy) {
        100 * spec_eval(me, enemy)
    } else if depth <= 0 {
        spec_heuristic(me, enemy)
    } else if spec_moves(me, enemy) == 0 {
        -mid_value(enemy, me, depth - 1)
    } else {
        mid_best_below(me, enemy, depth, 64)
    }
}

/// Best value among the legal moves with cell index below `n` (-2000000 when
/// there is none; every reachable value is strictly larger).
pub open spec fn mid_best_below(me: u64, enemy: u64, depth: int, n: int) -> int
    decreases depth_measure(depth), n,
{
    if n <= 0 || depth <= 0 {
        -2000000
    } else {
        let rest = mid_best_below(me, enemy, depth, n - 1);
        let j = (n - 1) as u64;
        if j < 64 && bit64(spec_moves(me, enemy), j) {
            let v = -mid_value(
                spec_make_enemy(1u64 << j, me, enemy),
                spec_make_self(1u64 << j, me, enemy),
                depth - 1,
            );
            if v > rest {
                v
            } else {
                rest
            }
        } else {
            rest
        }
    }
}

/// The score a move earns the mover at the next budget step.
pub open spec fn mid_move_val(me: u64, enemy: u64, depth: int, j: u64) -> int {
    -mid_value(
        spec_make_enemy(1u64 << j, me, enemy),
        spec_make_self(1u64 << j, me, enemy),
        depth - 1,
    )
}

/// Negamax symmetry at budget zero: each side's search value is the exact
/// negation of the other side's, whichever of the two leaf rules applies.
pub proof fn lemma_negamax_symmetry(me: u64, enemy: u64)
    ensures
        mid_value(me, enemy, 0) == -mid_value(enemy, me, 0),
{
    lemma_or_comm(me, enemy);
    crate::eg_weights::lemma_heuristic_antisym(me, enemy);
}

/// The midgame search value stays within the heuristic's range widened to
/// the centidisk scale of finished games.
pub proof fn lemma_mid_value_bounds(me: u64, enemy: u64, depth: int)
    ensures
        -1048576 <= mid_value(me, enemy, depth) <= 1048576,
    decreases depth_measure(depth), 65int,
{
    if spec_game_over(me, enemy) {
        lemma_pop64_le(me);
        lemma_pop64_le(enemy);
    } else if depth <= 0 {
    } else if spec_moves(me, enemy) == 0 {
        lemma_mid_value_bounds(enemy, me, depth - 1);
    } else {
        lemma_nonzero_has_bit(spec_moves(me, enemy));
        lemma_mid_best_bounds(me, enemy, depth, 64);
    }
}

/// Bounds for the best-below helper: the sentinel exactly when no move lies
/// below `n`, else a value in the search range.
pub proof fn lemma_mid_best_bounds(me: u64, enemy: u64, depth: int, n: int)
    requires
        0 <= n <= 64,
        depth > 0,
    ensures
        (exists|j: u64| j < n && #[trigger] bit64(spec_moves(me, enemy), j)) ==> -1048576
            <= mid_best_below(me, enemy, depth, n) <= 1048576,
        (forall|j: u64| j < n ==> !(#[trigger] bit64(spec_moves(me, enemy), j)))
            ==> mid_best_below(me, enemy, depth, n) == -2000000,
        mid_best_below(me, enemy, depth, n) <= 1048576,
    decreases depth_measure(depth), n,
{
    if n > 0 {
        lemma_mid_best_bounds(me, enemy, depth, n - 1);
        let j = (n - 1) as u64;
        if bit64(spec_moves(me, enemy), j) {
            lemma_mid_value_bounds(
                spec_make_enemy(1u64 << j, me, enemy),
                spec_make_self(1u64 << j, me, enemy),
                depth - 1,
            );
        }
    }
}

/// The best-below value is no worse than any single move below the bound.
pub proof fn lemma_mid_best_ge(me: u64, enemy: u64, depth: int, n: int, j: u64)
    requires
        (j as int) < n <= 64,
        depth > 0,
        bit64(spec_moves(me, enemy), j),
    ensures
        mid_best_below(me, enemy, depth, n) >= mid_move_val(me, enemy, depth, j),
    decreases n,
{
    if j as int == n - 1 {
    } else {
        lemma_mid_best_ge(me, enemy, depth, n - 1, j);
    }
}

/// A best-below value other than the sentinel is earned by some legal move.
pub proof fn lemma_mid_best_witness(me: u64, enemy: u64, depth: int, n: int)
    requires
        0 <= n <= 64,
        depth > 0,
        mid_best_below(me, enemy, depth, n) != -2000000,
    ensures
        exists|j: u64|
            j < n && #[trigger] bit64(spec_moves(me, enemy), j) && mid_best_below(
                me,
                enemy,
                depth,
                n,
            ) == mid_move_val(me, enemy, depth, j),
    decreases n,
{
    let j = (n - 1) as u64;
    if n > 0 && bit64(spec_moves(me, enemy), j) && mid_best_below(me, enemy, depth, n)
        == mid_move_val(me, enemy, depth, j) {
    } else {
        lemma_mid_best_witness(me, enemy, depth, n - 1);
    }
}

/// Fail-soft midgame negamax without move ordering.
#[verifier::rlimit(100)]
pub fn classic_search_nomo(me: u64, enemy: u64, alpha: i32, beta: i32, depth: i8) -> (r: i32)
    requires
        me & enemy == 0,
        -1900000 <= alpha < beta <= 1900000,
    ensures
        -1048576 <= r <= 1048576,
        r <= alpha ==> mid_value(me, enemy, depth as int) <= r,
        r >= beta ==> mid_value(me, enemy, depth as int) >= r,
        alpha < r < beta ==> r == mid_value(me, enemy, depth as int),
        depth <= 0 ==> r == mid_value(me, enemy, depth as int),
        spec_game_over(me, enemy) ==> r as int == 100 * spec_eval(me, enemy),
    decreases depth_measure(depth as int),
{
    if game_over(me, enemy) {
        proof {
            lemma_pop64_le(me);
            lemma_pop64_le(enemy);
        }
        return 100 * (evaluation(me, enemy) as i32);
    }
    if depth <= 0 {
        return crate::eg_weights::heuristic_eg_nega(me, enemy);
    }
    let moves = generate_moves2(me, enemy);
    if moves == 0 {
        proof {
            lemma_or_comm(me, enemy);
            assert(mid_value(me, enemy, depth as int) == -mid_value(enemy, me, depth as int - 1));
        }
        let q = -classic_search_nomo(enemy, me, -beta, -alpha, depth - 1);
        return q;
    }
    let mut alpha_cur: i32 = alpha;
    let mut best_score: i32 = -2000000;
    let mut m: u64 = moves;
    let ghost mut b: u64 = 0;
    proof {
        assert forall|j: u64| j < 64 implies #[trigger] bit64(m, j) == (bit64(moves, j) && j
            >= b) by {}
    }
    while m != 0
        invariant
            me & enemy == 0,
            -1900000 <= alpha < beta <= 1900000,
            depth > 0,
            moves == spec_moves(me, enemy),
            moves != 0,
            !spec_game_over(me, enemy),
            b <= 64,
            forall|j: u64| j < 64 ==> #[trigger] bit64(m, j) == (bit64(moves, j) && j >= b),
            best_score == -2000000 || -1048576 <= best_score <= 1048576,
            best_score < beta,
            mid_best_below(me, enemy, depth as int, b as int) <= best_score as int,
            alpha < best_score ==> mid_best_below(me, enemy, depth as int, b as int)
                == best_score as int,
            if best_score > alpha {
                alpha_cur == best_score
            } else {
                alpha_cur == alpha
            },
        decreases m,
    {
        let ghost m0 = m;
        let ghost b0 = b;
        let i = crate::othello_board::next_idx_move(&mut m);
        proof {
            assert(bit64(moves, i as u64));
            crate::bitcount::lemma_pop64_remove_bit(m0, i as u64);
            assert forall|j: u64| j < 64 implies #[trigger] bit64(m, j) == (bit64(moves, j) && j
                >= i as u64 + 1) by {
                crate::bitcount::lemma_remove_bit_facts(m0, i as u64, j);
            }
            assert forall|j: u64| b0 <= j < i as u64 implies !(#[trigger] bit64(
                spec_moves(me, enemy),
                j,
            )) by {
                assert(!bit64(m0, j));
            }
            lemma_mid_best_skip(me, enemy, depth as int, b0 as int, i as int);
            lemma_child_measure(me, enemy, i as u64);
            lemma_apply_move(me, enemy, i as u64);
        }
        let (cs, ce) = crate::othello_board::make_move1(1u64 << i, me, enemy);
        proof {
            lemma_or_comm(cs, ce);
        }
        let q = -classic_search_nomo(ce, cs, -beta, -alpha_cur, depth - 1);
        proof {
            assert(mid_move_val(me, enemy, depth as int, i as u64) == -mid_value(
                ce,
                cs,
                depth as int - 1,
            ));
            assert(mid_best_below(me, enemy, depth as int, i as int + 1) == if mid_move_val(
                me,
                enemy,
                depth as int,
                i as u64,
            ) > mid_best_below(me, enemy, depth as int, i as int) {
                mid_move_val(me, enemy, depth as int, i as u64)
            } else {
                mid_best_below(me, enemy, depth as int, i as int)
            });
        }
        if q >= beta {
            proof {
                lemma_mid_best_ge(me, enemy, depth as int, 64, i as u64);
                assert(mid_value(me, enemy, depth as int) == mid_best_below(
                    me,
                    enemy,
                    depth as int,
                    64,
                ));
            }
            return q;
        }
        if q > best_score {
            best_score = q;
            if q > alpha_cur {
                alpha_cur = q;
            }
        }
        proof {
            b = (i + 1) as u64;
        }
    }
    proof {
        assert forall|j: u64| b <= j < 64 implies !(#[trigger] bit64(moves, j)) by {
            crate::bitcount::lemma_single_bit_facts(0, 0, j);
            assert(!bit64(m, j));
        }
        lemma_mid_best_skip(me, enemy, depth as int, b as int, 64);
        lemma_nonzero_has_bit(moves);
        lemma_mid_best_bounds(me, enemy, depth as int, 64);
        assert(mid_value(me, enemy, depth as int) == mid_best_below(me, enemy, depth as int, 64));
    }
    best_score
}

/// The score an entry's move earns the present mover at the next budget step.
pub open spec fn mid_entry_val(t: (i32, u8, u64, u64), depth: int) -> int {
    -mid_value(t.3, t.2, depth - 1)
}

/// Fail-soft midgame negamax with move ordering: children are searched best
/// heuristic first while more than `stop_mo_at_empties` cells are empty.
#[verifier::rlimit(100)]
fn classic_search_mo(
    me: u64,
    enemy: u64,
    alpha: i32,
    beta: i32,
    depth: i8,
    stop_mo_at_empties: u8,
) -> (r: i32)
    requires
        me & enemy == 0,
        -1900000 <= alpha < beta <= 1900000,
    ensures
        -1048576 <= r <= 1048576,
        r <= alpha ==> mid_value(me, enemy, depth as int) <= r,
        r >= beta ==> mid_value(me, enemy, depth as int) >= r,
        alpha < r < beta ==> r == mid_value(me, enemy, depth as int),
        depth <= 0 ==> r == mid_value(me, enemy, depth as int),
        spec_game_over(me, enemy) ==> r as int == 100 * spec_eval(me, enemy),
    decreases depth_measure(depth as int),
{
    if game_over(me, enemy) {
        proof {
            lemma_pop64_le(me);
            lemma_pop64_le(enemy);
        }
        return 100 * (evaluation(me, enemy) as i32);
    }
    if depth <= 0 {
        return crate::eg_weights::heuristic_eg_nega(me, enemy);
    }
    let moves = generate_moves2(me, enemy);
    if moves == 0 {
        proof {
            lemma_or_comm(me, enemy);
            assert(mid_value(me, enemy, depth as int) == -mid_value(enemy, me, depth as int - 1));
        }
        let q = -classic_search_mo(enemy, me, -beta, -alpha, depth - 1, stop_mo_at_empties);
        return q;
    }
    let states = sort_children(build_children(me, enemy, moves));
    let empties = empty_disks(me, enemy);
    let mut alpha_cur: i32 = alpha;
    let mut best_score: i32 = -2000000;
    let mut idx: usize = 0;
    while idx < states.len()
        invariant
            me & enemy == 0,
            -1900000 <= alpha < beta <= 1900000,
            depth > 0,
            moves == spec_moves(me, enemy),
            moves != 0,
            !spec_game_over(me, enemy),
            idx <= states@.len(),
            forall|k: int| 0 <= k < states@.len() ==> is_entry(me, enemy, #[trigger] states@[k]),
            forall|j: u64|
                j < 64 && #[trigger] bit64(spec_moves(me, enemy), j) ==> states@.contains(
                    root_entry(me, enemy, j),
                ),
            best_score == -2000000 || -1048576 <= best_score <= 1048576,
            best_score < beta,
            forall|k: int|
                0 <= k < idx ==> mid_entry_val(#[trigger] states@[k], depth as int)
                    <= best_score as int,
            alpha < best_score ==> exists|k: int|
                0 <= k < idx && mid_entry_val(#[trigger] states@[k], depth as int)
                    == best_score as int,
            if best_score > alpha {
                alpha_cur == best_score
            } else {
                alpha_cur == alpha
            },
        decreases states@.len() - idx,
    {
        let entry = states[idx];
        let ghost j = choose|j: u64|
            j < 64 && bit64(spec_moves(me, enemy), j) && entry == root_entry(me, enemy, j);
        proof {
            assert(is_entry(me, enemy, entry));
            lemma_apply_move(me, enemy, j);
            lemma_or_comm(entry.2, entry.3);
        }
        let q = if empties > stop_mo_at_empties {
            -classic_search_mo(entry.3, entry.2, -beta, -alpha_cur, depth - 1, stop_mo_at_empties)
        } else {
            -classic_search_nomo(entry.3, entry.2, -beta, -alpha_cur, depth - 1)
        };
        proof {
            assert(mid_entry_val(entry, depth as int) == mid_move_val(me, enemy, depth as int, j));
        }
        if q >= beta {
            proof {
                lemma_mid_best_ge(me, enemy, depth as int, 64, j);
                assert(mid_value(me, enemy, depth as int) == mid_best_below(
                    me,
                    enemy,
                    depth as int,
                    64,
                ));
            }
            return q;
        }
        if q > best_score {
            best_score = q;
            if q > alpha_cur {
                alpha_cur = q;
            }
        }
        idx = idx + 1;
    }
    proof {
        lemma_mid_best_bounds(me, enemy, depth as int, 64);
        lemma_nonzero_has_bit(moves);
        assert(mid_value(me, enemy, depth as int) == mid_best_below(me, enemy, depth as int, 64));
        if mid_best_below(me, enemy, depth as int, 64) != -2000000 {
            lemma_mid_best_witness(me, enemy, depth as int, 64);
            let jw = choose|j: u64|
                j < 64 && #[trigger] bit64(spec_moves(me, enemy), j) && mid_best_below(
                    me,
                    enemy,
                    depth as int,
                    64,
                ) == mid_move_val(me, enemy, depth as int, j);
            assert(states@.contains(root_entry(me, enemy, jw)));
            let kw = choose|k: int|
                0 <= k < states@.len() && states@[k] == root_entry(me, enemy, jw);
            assert(mid_entry_val(states@[kw], depth as int) == mid_move_val(
                me,
                enemy,
                depth as int,
                jw,
            ));
        }
        if alpha < best_score < beta {
            let ke = choose|k: int|
                0 <= k < idx && mid_entry_val(#[trigger] states@[k], depth as int)
                    == best_score as int;
            assert(is_entry(me, enemy, states@[ke]));
            let je = choose|j: u64|
                j < 64 && bit64(spec_moves(me, enemy), j) && states@[ke] == #[trigger] root_entry(
                    me,
                    enemy,
                    j,
                );
            lemma_mid_best_ge(me, enemy, depth as int, 64, je);
        }
    }
    best_score
}

/// The midgame search from the root: returns the best move and its fail-soft
/// centidisk score. With the game already over, the pass sentinel and the
/// final score; with no legal move, the pass sentinel and the negated value
/// of the opponent's search.
#[verifier::rlimit(100)]
pub fn classic_search_root(me: u64, enemy: u64, alpha: i32, beta: i32, depth: i8) -> (r: (u8, i32))
    requires
        me & enemy == 0,
        -1900000 <= alpha < beta <= 1900000,
        1 <= depth,
    ensures
        spec_game_over(me, enemy) ==> r.0 == 65 && r.1 as int == 100 * spec_eval(me, enemy),
        !spec_game_over(me, enemy) ==> -1048576 <= r.1 <= 1048576 && (r.1 <= alpha ==> mid_value(
            me,
            enemy,
            depth as int,
        ) <= r.1) && (r.1 >= beta ==> mid_value(me, enemy, depth as int) >= r.1) && (alpha < r.1
            < beta ==> r.1 == mid_value(me, enemy, depth as int)),
        !spec_game_over(me, enemy) && spec_moves(me, enemy) == 0 ==> r.0 == 65,
        !spec_game_over(me, enemy) && spec_moves(me, enemy) != 0 ==> (r.0 as u64) < 64 && bit64(
            spec_moves(me, enemy),
            r.0 as u64,
        ),
        !spec_game_over(me, enemy) && spec_moves(me, enemy) != 0 && alpha < r.1 < beta
            ==> mid_move_val(me, enemy, depth as int, r.0 as u64) == r.1,
        !spec_game_over(me, enemy) && spec_moves(me, enemy) != 0 && r.1 >= beta ==> mid_move_val(
            me,
            enemy,
            depth as int,
            r.0 as u64,
        ) >= r.1,
{
    if game_over(me, enemy) {
        proof {
            lemma_pop64_le(me);
            lemma_pop64_le(enemy);
        }
        return (65, 100 * (evaluation(me, enemy) as i32));
    }
    let moves = generate_moves2(me, enemy);
    if moves == 0 {
        proof {
            lemma_or_comm(me, enemy);
            assert(mid_value(me, enemy, depth as int) == -mid_value(enemy, me, depth as int - 1));
        }
        let q = -classic_search_mo(enemy, me, -beta, -alpha, depth - 1, 7);
        return (65, q);
    }
    let states = sort_children(build_children(me, enemy, moves));
    let mut alpha_cur: i32 = alpha;
    let mut best_score: i32 = -2000000;
    let mut best_move: u8 = 65;
    let mut idx: usize = 0;
    while idx < states.len()
        invariant
            me & enemy == 0,
            -1900000 <= alpha < beta <= 1900000,
            depth >= 1,
            moves == spec_moves(me, enemy),
            moves != 0,
            !spec_game_over(me, enemy),
            idx <= states@.len(),
            forall|k: int| 0 <= k < states@.len() ==> is_entry(me, enemy, #[trigger] states@[k]),
            forall|j: u64|
                j < 64 && #[trigger] bit64(spec_moves(me, enemy), j) ==> states@.contains(
                    root_entry(me, enemy, j),
                ),
            best_score == -2000000 || -1048576 <= best_score <= 1048576,
            best_score < beta,
            forall|k: int|
                0 <= k < idx ==> mid_entry_val(#[trigger] states@[k], depth as int)
                    <= best_score as int,
            alpha < best_score ==> exists|k: int|
                0 <= k < idx && mid_entry_val(#[trigger] states@[k], depth as int)
                    == best_score as int,
            if best_score > alpha {
                alpha_cur == best_score
            } else {
                alpha_cur == alpha
            },
            best_score == -2000000 ==> best_move == 65,
            best_score != -2000000 ==> (best_move as u64) < 64 && bit64(
                spec_moves(me, enemy),
                best_move as u64,
            ),
            alpha < best_score < beta ==> mid_move_val(me, enemy, depth as int, best_move as u64)
                == best_score as int,
        decreases states@.len() - idx,
    {
        let entry = states[idx];
        let ghost j = choose|j: u64|
            j < 64 && bit64(spec_moves(me, enemy), j) && entry == root_entry(me, enemy, j);
        proof {
            assert(is_entry(me, enemy, entry));
            lemma_apply_move(me, enemy, j);
            lemma_or_comm(entry.2, entry.3);
        }
        let q = -classic_search_mo(entry.3, entry.2, -beta, -alpha_cur, depth - 1, 7);
        proof {
            assert(mid_entry_val(entry, depth as int) == mid_move_val(me, enemy, depth as int, j));
            assert(entry.1 as u64 == j);
        }
        if q >= beta {
            proof {
                lemma_mid_best_ge(me, enemy, depth as int, 64, j);
                assert(mid_value(me, enemy, depth as int) == mid_best_below(
                    me,
                    enemy,
                    depth as int,
                    64,
                ));
            }
            return (entry.1, q);
        }
        if q > best_score {
            best_score = q;
            best_move = entry.1;
            if q > alpha_cur {
                alpha_cur = q;
            }
        }
        idx = idx + 1;
    }
    proof {
        lemma_mid_best_bounds(me, enemy, depth as int, 64);
        lemma_nonzero_has_bit(moves);
        assert(mid_value(me, enemy, depth as int) == mid_best_below(me, enemy, depth as int, 64));
        if mid_best_below(me, enemy, depth as int, 64) != -2000000 {
            lemma_mid_best_witness(me, enemy, depth as int, 64);
            let jw = choose|j: u64|
                j < 64 && #[trigger] bit64(spec_moves(me, enemy), j) && mid_best_below(
                    me,
                    enemy,
                    depth as int,
                    64,
                ) == mid_move_val(me, enemy, depth as int, j);
            assert(states@.contains(root_entry(me, enemy, jw)));
            let kw = choose|k: int|
                0 <= k < states@.len() && states@[k] == root_entry(me, enemy, jw);
            assert(mid_entry_val(states@[kw], depth as int) == mid_move_val(
                me,
                enemy,
                depth as int,
                jw,
            ));
        }
        if alpha < best_score < beta {
            let ke = choose|k: int|
                0 <= k < idx && mid_entry_val(#[trigger] states@[k], depth as int)
                    == best_score as int;
            assert(is_entry(me, enemy, states@[ke]));
            let je = choose|j: u64|
                j < 64 && bit64(spec_moves(me, enemy), j) && states@[ke] == #[trigger] root_entry(
                    me,
                    enemy,
                    j,
                );
            lemma_mid_best_ge(me, enemy, depth as int, 64, je);
        }
    }
    (best_move, best_score)
}

/// Cells without a legal move contribute nothing to the best-below value.
pub proof fn lemma_mid_best_skip(me: u64, enemy: u64, depth: int, b: int, n: int)
    requires
        0 <= b <= n <= 64,
        forall|j: u64| b <= j < n ==> !(#[trigger] bit64(spec_moves(me, enemy), j)),
    ensures
        mid_best_below(me, enemy, depth, n) == mid_best_below(me, enemy, depth, b),
    decreases n,
{
    if b < n {
        lemma_mid_best_skip(me, enemy, depth, b, n - 1);
    }
}

} // verus!
