use othello_engine::protocol::{
    Request, SearchParams, ServerAction, decode_request, encode_response, server_get_move,
};
use othello_engine::opening_book::parse_book;
use othello_engine::othello_state::OthelloState;
use othello_engine::batch_search::{collect_leaf_boards, negamax_vec, select_best_move};

const START_BLACK: u64 = 0b00000000_00000000_00000000_00001000_00010000_00000000_00000000_00000000;
const START_WHITE: u64 = 0b00000000_00000000_00000000_00010000_00001000_00000000_00000000_00000000;

fn request_bytes(me: u64, enemy: u64, time: u16, params: u16) -> Vec<u8> {
    let mut v = Vec::new();
    v.extend_from_slice(&me.to_be_bytes());
    v.extend_from_slice(&enemy.to_be_bytes());
    v.extend_from_slice(&time.to_be_bytes());
    v.extend_from_slice(&params.to_be_bytes());
    v
}

#[test]
fn decode_request_round_trip() {
    let data = request_bytes(START_BLACK, START_WHITE, 1200, 0b0001_0101_0100_1010);
    let q = decode_request(&data).unwrap();
    assert_eq!(
        q,
        Request { me: START_BLACK, enemy: START_WHITE, time: 1200, params: 0b0001_0101_0100_1010 }
    );
}

#[test]
fn decode_request_rejects_short_and_overlapping() {
    assert!(decode_request(&[0u8; 19]).is_none());
    // both boards claim cell 0
    let data = request_bytes(1, 1, 0, 0);
    assert!(decode_request(&data).is_none());
}

#[test]
fn encode_response_exact_bytes() {
    assert_eq!(encode_response(19, 300), vec![19, 0x01, 0x2C]);
    assert_eq!(encode_response(65, -1), vec![65, 0xFF, 0xFF]);
}

#[test]
fn params_decode_and_clamp() {
    // end depth 0 clamps up to 1; mid depth 31 clamps down to 10
    let p = SearchParams::from_u16(0b0011_1111_1110_0000);
    assert_eq!(p.end_depth, 1);
    assert_eq!(p.mid_depth, 10);
    assert!(p.solve_end_adaptive && p.solve_end_exact && p.use_book && p.adj_time);

    let p2 = SearchParams::from_u16(0b0000_0000_0100_0101);
    assert_eq!(p2.end_depth, 5);
    assert_eq!(p2.mid_depth, 2);
    assert!(!p2.solve_end_adaptive && !p2.solve_end_exact && !p2.use_book && !p2.adj_time);
}

#[test]
fn params_adjusted_depth_and_window() {
    let mut p = SearchParams::from_u16(0);
    p.mid_depth = 5;
    assert_eq!(p.adjusted_mid_depth(), 4);
    p.mid_depth = 1;
    assert_eq!(p.adjusted_mid_depth(), 1);

    p.solve_end_exact = false;
    assert_eq!(p.end_window(20), 1);
    p.solve_end_exact = true;
    p.solve_end_adaptive = false;
    assert_eq!(p.end_window(20), 64);
    p.solve_end_adaptive = true;
    assert_eq!(p.end_window(20), 32);
    assert_eq!(p.end_window(10), 64);
}

#[test]
fn server_dispatch_cases() {
    let empty_book = parse_book(&[]);
    let mut p = SearchParams::from_u16(0);
    p.end_depth = 8;
    p.mid_depth = 5;

    // finished game: final score in centidisks
    let r = server_get_move(&empty_book, u64::MAX, 0, &p);
    assert_eq!(r, ServerAction::Reply { mov: 65, score: 6400 });

    // the mover is stuck: the pass sentinel
    let r = server_get_move(&empty_book, 0x2, 0x1, &p);
    match r {
        ServerAction::Reply { mov, score } => {
            assert_eq!(mov, 65);
            assert_eq!(score, i16::MAX);
        },
        _ => panic!("expected a reply"),
    }

    // eight empties: the endgame solver answers with a legal move
    let enemy = 1u64 << 49;
    let me = 0x00FF_FFFF_FFFF_FFFFu64 & !enemy;
    let r = server_get_move(&empty_book, me, enemy, &p);
    match r {
        ServerAction::Reply { mov, score } => {
            assert!(mov < 64);
            assert_eq!(score % 100, 0);
        },
        _ => panic!("expected an endgame reply"),
    }

    // many empties, no book: hand off to the midgame search
    let r = server_get_move(&empty_book, START_BLACK, START_WHITE, &p);
    assert_eq!(r, ServerAction::Midgame { depth: 4 });
}

#[test]
fn state_start_and_moves() {
    let s = OthelloState::starting_state();
    assert_eq!(s.num_black_disks(), 2);
    assert_eq!(s.num_white_disks(), 2);
    assert_eq!(s.disks_placed(), 4);
    assert_eq!(s.empty_disks(), 60);
    assert!(!s.game_over());
    assert!(s.has_move());
    assert_eq!(s.number_of_moves(), 4);
    assert_eq!(s.available_moves(), vec![19, 26, 37, 44]);
    assert_eq!(s.player_coeff(), 1);
    assert_eq!(s.evaluation(), 0);
    assert_eq!(s.winner(), 0);
}

#[test]
fn state_apply_move_and_pass() {
    let s = OthelloState::starting_state();
    let s2 = s.apply_move(19);
    assert_eq!(s2.num_black_disks(), 4);
    assert_eq!(s2.num_white_disks(), 1);
    assert_eq!(s2.player_coeff(), -1);
    assert_eq!(s2.winner(), 1);
    let s3 = s2.pass();
    assert_eq!(s3.num_black_disks(), 4);
    assert_eq!(s3.player_coeff(), 1);
}

#[test]
fn state_short_string_matches_fields() {
    let s = OthelloState::new(7, 1000, 65535, 42);
    assert_eq!(s.to_short_string(), format!("{},{},{},{}", 7, 1000, 65535, 42));
    let z = OthelloState::new(0, 0, 0, 0);
    assert_eq!(z.to_short_string(), "0,0,0,0");
}

#[test]
fn batch_leaves_and_negamax() {
    // depth 0: the position itself is the one leaf and its score is read back
    let mut v: Vec<(u64, u64)> = Vec::new();
    collect_leaf_boards(&mut v, START_BLACK, START_WHITE, 0);
    assert_eq!(v, vec![(START_BLACK, START_WHITE)]);
    let scores = vec![42i32];
    let mut idx: usize = 0;
    assert_eq!(negamax_vec(&scores, START_BLACK, START_WHITE, 0, &mut idx), 42);
    assert_eq!(idx, 1);

    // depth 1 from the start: four children, best of the negated scores
    let mut v: Vec<(u64, u64)> = Vec::new();
    collect_leaf_boards(&mut v, START_BLACK, START_WHITE, 1);
    assert_eq!(v.len(), 4);
    let scores = vec![10i32, 20, 30, 40];
    let mut idx: usize = 0;
    assert_eq!(negamax_vec(&scores, START_BLACK, START_WHITE, 1, &mut idx), -10);
    assert_eq!(idx, 4);

    // a finished game consumes no scores
    let mut v: Vec<(u64, u64)> = Vec::new();
    collect_leaf_boards(&mut v, u64::MAX, 0, 3);
    assert!(v.is_empty());
    let mut idx: usize = 0;
    assert_eq!(negamax_vec(&Vec::new(), u64::MAX, 0, 3, &mut idx), 6400);
    assert_eq!(idx, 0);
}

#[test]
fn select_best_move_takes_first_maximum() {
    assert_eq!(select_best_move(&vec![]), (65, -2000000));
    assert_eq!(select_best_move(&vec![(3, 10)]), (3, 10));
    // ties go to the earlier child
    assert_eq!(select_best_move(&vec![(3, 10), (5, 40), (7, 40), (2, -1)]), (5, 40));
}
