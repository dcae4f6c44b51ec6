use othello_engine::othello_board::{
    evaluation, evaluation_full, empty_disks, game_over, generate_moves, generate_moves2,
    make_move, make_move1, make_move_inplace, next_bit_move, next_idx_move, number_of_moves,
    to_bit_move_vec, to_idx_move_vec, wld_evaluation,
};
use othello_engine::bitcount::popcount64;

const START_BLACK: u64 = 0b00000000_00000000_00000000_00001000_00010000_00000000_00000000_00000000;
const START_WHITE: u64 = 0b00000000_00000000_00000000_00010000_00001000_00000000_00000000_00000000;

#[test]
fn start_position_has_four_moves() {
    let moves = generate_moves(START_BLACK, START_WHITE);
    assert_eq!(moves, generate_moves2(START_BLACK, START_WHITE));
    assert_eq!(number_of_moves(START_BLACK, START_WHITE), 4);
    assert_eq!(to_idx_move_vec(moves), vec![19, 26, 37, 44]);
}

#[test]
fn start_moves_each_flip_exactly_one() {
    let moves = generate_moves(START_BLACK, START_WHITE);
    for mov in to_idx_move_vec(moves) {
        let (me2, enemy2) = make_move(1u64 << mov, START_BLACK, START_WHITE);
        // the placed disk plus exactly one captured disk
        assert_eq!(popcount64(me2), 4);
        assert_eq!(popcount64(enemy2), 1);
        assert_eq!(me2 & enemy2, 0);
        assert_eq!(me2 | enemy2, START_BLACK | START_WHITE | (1u64 << mov));
    }
}

#[test]
fn make_move_exact_result() {
    let (me2, enemy2) = make_move1(1u64 << 19, START_BLACK, START_WHITE);
    assert_eq!(me2, 0x818080000u64);
    assert_eq!(enemy2, 0x1000000000u64);
    let mut a = START_BLACK;
    let mut b = START_WHITE;
    make_move_inplace(1u64 << 19, &mut a, &mut b);
    assert_eq!((a, b), (me2, enemy2));
}

#[test]
fn full_board_is_over_and_scored_by_count() {
    assert!(game_over(u64::MAX, 0));
    assert_eq!(evaluation(u64::MAX, 0), 64);
    let lower = 0x0000_0000_FFFF_FFFFu64;
    assert!(game_over(lower, !lower));
    assert_eq!(evaluation(lower, !lower), 0);
}

#[test]
fn start_position_not_over() {
    assert!(!game_over(START_BLACK, START_WHITE));
    assert_eq!(empty_disks(START_BLACK, START_WHITE), 60);
}

#[test]
fn evaluation_full_awards_empties_to_winner() {
    // three black disks, nothing else: 3 + 61 empties
    assert_eq!(evaluation_full(0b111, 0), 64);
    assert_eq!(evaluation_full(0, 0b111), -64);
    assert_eq!(evaluation_full(0b11, 0b1100), 0);
}

#[test]
fn wld_evaluation_biases_by_empties() {
    // four black disks against two white: eval 2 with 58 empties
    let black = 0b1111u64;
    let white = 0b11_0000u64;
    assert_eq!(wld_evaluation(black, white), 65 + 58);
    assert_eq!(wld_evaluation(white, black), -65 - 58);
    assert_eq!(wld_evaluation(0b11, 0b1100), 0);
}

#[test]
fn next_moves_walk_ascending() {
    let mut m = 0b1010_0100u64;
    assert_eq!(next_idx_move(&mut m), 2);
    assert_eq!(next_idx_move(&mut m), 5);
    assert_eq!(next_idx_move(&mut m), 7);
    assert_eq!(m, 0);
    assert_eq!(next_idx_move(&mut m), 64);

    let mut b = 0b1010_0100u64;
    assert_eq!(next_bit_move(&mut b), 0b100);
    assert_eq!(next_bit_move(&mut b), 0b10_0000);
    assert_eq!(next_bit_move(&mut b), 0b1000_0000);
    assert_eq!(next_bit_move(&mut b), 0);
}

#[test]
fn move_vec_forms_agree() {
    let m = 0x8000_0000_0000_0101u64;
    assert_eq!(to_idx_move_vec(m), vec![0, 8, 63]);
    assert_eq!(to_bit_move_vec(m), vec![1u64, 1u64 << 8, 1u64 << 63]);
    assert_eq!(to_idx_move_vec(0), Vec::<u8>::new());
}

#[test]
fn popcount_counts() {
    assert_eq!(popcount64(0), 0);
    assert_eq!(popcount64(u64::MAX), 64);
    assert_eq!(popcount64(0b1011), 3);
}
