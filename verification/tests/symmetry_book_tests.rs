use othello_engine::othello_symmetry::{Sym, sym_apply_loc, sym_apply_to, sym_invert_loc, sym_min_board};
use othello_engine::opening_book::{OthelloBook, load_book, parse_book, search_book};
use std::io::Write;

const START_BLACK: u64 = 0b00000000_00000000_00000000_00001000_00010000_00000000_00000000_00000000;
const START_WHITE: u64 = 0b00000000_00000000_00000000_00010000_00001000_00000000_00000000_00000000;

fn all_syms() -> Vec<Sym> {
    let mut v = Vec::new();
    for swap in [false, true] {
        for neg_r in [false, true] {
            for neg_c in [false, true] {
                v.push(Sym { swap, neg_r, neg_c });
            }
        }
    }
    v
}

#[test]
fn canonicalize_is_idempotent() {
    let positions = [
        (START_BLACK, START_WHITE),
        (0x2u64, 0x1u64),
        (0x0000_0018_1810_0000u64, 0x0000_2400_0024_1800u64),
        (0x8100_0000_0000_0081u64, 0x0018_0000_0000_1800u64),
    ];
    for (me, enemy) in positions {
        let (m, e, _t) = sym_min_board(me, enemy);
        let (m2, e2, t2) = sym_min_board(m, e);
        assert_eq!((m2, e2), (m, e));
        assert_eq!(t2, Sym { swap: false, neg_r: false, neg_c: false });
    }
}

#[test]
fn all_images_share_one_canonical_position() {
    let me = 0x0000_0018_1810_0000u64;
    let enemy = 0x0000_2400_0024_1800u64;
    let (m, e, _) = sym_min_board(me, enemy);
    for s in all_syms() {
        let (im, ie) = sym_apply_to(s, me, enemy);
        let (m2, e2, _) = sym_min_board(im, ie);
        assert_eq!((m2, e2), (m, e));
    }
}

#[test]
fn invert_loc_undoes_a_transform() {
    for s in all_syms() {
        for i in [0u8, 7, 19, 28, 44, 63] {
            let image = sym_apply_loc(s, i);
            assert_eq!(sym_invert_loc(s, image), i);
        }
    }
}

fn xz_compress(data: &[u8]) -> Vec<u8> {
    let mut enc = xz2::write::XzEncoder::new(Vec::new(), 6);
    enc.write_all(data).unwrap();
    enc.finish().unwrap()
}

fn record(me: u64, enemy: u64, best_move: u8, eval: i8) -> Vec<u8> {
    let mut r = Vec::new();
    r.extend_from_slice(&me.to_le_bytes());
    r.extend_from_slice(&enemy.to_le_bytes());
    r.push(best_move);
    r.push(eval as u8);
    r
}

#[test]
fn book_round_trip_with_all_symmetric_images() {
    // store the canonical form of a mid-game position with a known best move
    let me = START_BLACK;
    let enemy = START_WHITE;
    let (cm, ce, t) = sym_min_board(me, enemy);
    // the move 19 is legal in the caller's frame; store its canonical image
    let stored_move = sym_apply_loc(t, 19);
    let eval: i8 = 3;

    let mut bytes = record(cm, ce, stored_move, eval);
    // a second record for an unrelated canonical position
    let (om, oe, ot) = sym_min_board(0x2, 0x1);
    bytes.extend(record(om, oe, sym_apply_loc(ot, 0), -5));

    let book = load_book(&xz_compress(&bytes)).expect("book must load");

    // the stored position and all of its images answer, each in its own frame
    for s in all_syms() {
        let (im, ie) = sym_apply_to(s, me, enemy);
        let (mv, score) = search_book(&book, im, ie).expect("image must hit the book");
        assert_eq!(score, 50 * (eval as i16));
        // the answered move names the stored cell once carried back to the
        // canonical frame
        let (_, _, ti) = sym_min_board(im, ie);
        assert_eq!(sym_apply_loc(ti, mv), stored_move);
    }

    // a position whose canonical form is absent misses
    assert!(search_book(&book, 0x8100_0000_0000_0081u64, 0).is_none());
}

#[test]
fn short_trailing_record_is_end_of_book() {
    let mut bytes = record(1, 2, 9, 4);
    bytes.extend_from_slice(&[1, 2, 3]);
    let book = parse_book(&bytes);
    assert_eq!(book.len(), 1);
    let empty = parse_book(&[5u8; 17]);
    assert_eq!(empty.len(), 0);
}

#[test]
fn later_record_replaces_earlier() {
    let mut bytes = record(7, 8, 10, 1);
    bytes.extend(record(7, 8, 11, 2));
    let book: OthelloBook = parse_book(&bytes);
    assert_eq!(book.len(), 1);
    let v = book.get(&(((7u128) << 64) | 8u128)).unwrap();
    assert_eq!((v.best_move, v.eval), (11, 2));
}

#[test]
fn corrupt_stream_is_rejected() {
    assert!(load_book(&[0u8, 1, 2, 3, 4, 5]).is_none());
    // and decompression really decompresses: the compressed stream differs
    // from its contents, yet the loaded book matches the plain records
    let bytes = record(3, 4, 12, -2);
    let compressed = xz_compress(&bytes);
    assert_ne!(compressed, bytes);
    let book = load_book(&compressed).unwrap();
    let direct = parse_book(&bytes);
    assert_eq!(book.len(), direct.len());
    let k = ((3u128) << 64) | 4u128;
    assert_eq!(book.get(&k).unwrap().best_move, direct.get(&k).unwrap().best_move);
}
