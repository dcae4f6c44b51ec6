use othello_engine::endgame::{solve_endgame_nomo, solve_endgame_root};
use othello_engine::eg_weights::heuristic_eg_nega;
use othello_engine::classic_search::{classic_search_nomo, classic_search_root};
use othello_engine::heuristic::heuristic_fast;

const START_BLACK: u64 = 0b00000000_00000000_00000000_00001000_00010000_00000000_00000000_00000000;
const START_WHITE: u64 = 0b00000000_00000000_00000000_00010000_00001000_00000000_00000000_00000000;

// A tiny position: the mover holds only b1, the enemy only a1. The mover has
// no legal move; the enemy (to move after the pass) has one.
const STUCK_ME: u64 = 0x2;
const STUCK_ENEMY: u64 = 0x1;

#[test]
fn endgame_root_passes_and_negates() {
    let (mov, q) = solve_endgame_root(STUCK_ME, STUCK_ENEMY, -64, 64);
    assert_eq!(mov, 65);
    let (_, q2) = solve_endgame_root(STUCK_ENEMY, STUCK_ME, -64, 64);
    assert_eq!(q, -q2);
    assert_eq!(q, -3);
}

#[test]
fn endgame_root_on_finished_game() {
    let (mov, q) = solve_endgame_root(u64::MAX, 0, -64, 64);
    assert_eq!(mov, 65);
    assert_eq!(q, 64);
}

#[test]
fn endgame_scores_stay_bounded() {
    // fail-soft: whatever the window, the score never leaves the terminal range
    for (a, b) in [(-1i8, 1i8), (-32, 32), (-64, 64), (-120, 120)] {
        let (_, q) = solve_endgame_root(STUCK_ME, STUCK_ENEMY, a, b);
        assert!(-64 <= q && q <= 64);
        let q2 = solve_endgame_nomo(STUCK_ENEMY, STUCK_ME, a, b);
        assert!(-64 <= q2 && q2 <= 64);
    }
}

#[test]
fn endgame_windows_agree_inside() {
    // a narrow window still reports win/loss/draw consistently with the
    // exact search
    let (_, exact) = solve_endgame_root(STUCK_ME, STUCK_ENEMY, -64, 64);
    let (_, wld) = solve_endgame_root(STUCK_ME, STUCK_ENEMY, -1, 1);
    assert!(exact < 0);
    assert!(wld <= -1);
}

#[test]
fn negamax_symmetry_at_budget_zero() {
    let cases = [
        (START_BLACK, START_WHITE),
        (STUCK_ME, STUCK_ENEMY),
        (0x0000_0018_1810_0000u64, 0x0000_2400_0024_1800u64),
    ];
    for (me, enemy) in cases {
        let a = classic_search_nomo(me, enemy, -1900000, 1900000, 0);
        let b = classic_search_nomo(enemy, me, -1900000, 1900000, 0);
        assert_eq!(a, -b);
    }
}

#[test]
fn heuristic_eg_nega_antisymmetric() {
    let me = 0x0000_0018_1810_0000u64;
    let enemy = 0x0000_2400_0024_1800u64;
    assert_eq!(heuristic_eg_nega(me, enemy), -heuristic_eg_nega(enemy, me));
    assert_eq!(heuristic_eg_nega(0, 0), 0);
}

#[test]
fn classic_root_finds_a_legal_start_move() {
    let (mov, q) = classic_search_root(START_BLACK, START_WHITE, -1900000, 1900000, 3);
    assert!([19u8, 26, 37, 44].contains(&mov));
    assert!(-1048576 <= q && q <= 1048576);
}

#[test]
fn classic_root_on_finished_game() {
    let (mov, q) = classic_search_root(u64::MAX ^ 0b1, 0b1, -1900000, 1900000, 2);
    assert_eq!(mov, 65);
    assert_eq!(q, 100 * 62);
}

#[test]
fn heuristic_fast_start_value() {
    // board and stability terms vanish at the start; four moves for black
    assert_eq!(heuristic_fast(0, START_BLACK, START_WHITE), 808);
    // white to move sees the same mobility with the opposite sign
    assert_eq!(heuristic_fast(1, START_BLACK, START_WHITE), -808);
}

#[test]
fn heuristic_fast_stuck_mover_scores_material() {
    assert_eq!(heuristic_fast(0, STUCK_ME, STUCK_ENEMY), 0);
    let black = 0b111u64;
    assert_eq!(heuristic_fast(0, black, 0), 1000000 * 3);
}
