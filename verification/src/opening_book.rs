//! The opening book: a table of precomputed best moves keyed by the
//! symmetry-canonical form of a position, loaded once from a compressed
//! stream of fixed-size records and queried read-only. A lookup
//! canonicalizes the position, fetches the entry, and carries the stored
//! move back through the inverse of the canonicalizing transform.

use vstd::prelude::*;
use std::collections::HashMap;
use crate::othello_symmetry::{
    Sym, sym_image, sym_bb, sym_loc, pos_le, sym_min_board, sym_invert_loc,
};

verus! {

broadcast use vstd::std_specs::hash::group_hash_axioms;

/// A book key: the canonical position the entry answers for.
#[derive(PartialEq, Eq, Hash, Structural)]
pub struct OthelloBookKey {
    pub me: u64,
    pub enemy: u64,
}

/// A book entry: the best move cell and the evaluation in half disks.
#[derive(Clone, Copy, PartialEq, Eq, Structural)]
pub struct OthelloBookValue {
    /// the best move to make in the position
    pub best_move: u8,
    /// the evaluation of the position in 1/2 disks
    pub eval: i8,
}

/// The loaded book, keyed by the packed canonical position.
pub type OthelloBook = HashMap<u128, OthelloBookValue>;

/// The two boards of a key packed into one map key.
pub open spec fn pack_key(me: u64, enemy: u64) -> u128 {
    ((me as u128) << 64) | (enemy as u128)
}

fn pack_key_exec(me: u64, enemy: u64) -> (r: u128)
    ensures
        r == pack_key(me, enemy),
{
    ((me as u128) << 64u64) | (enemy as u128)
}

/// The smaller of two positions in the book's lexicographic order.
pub open spec fn pos_min(a: (u64, u64), b: (u64, u64)) -> (u64, u64) {
    if pos_le(a, b) {
        a
    } else {
        b
    }
}

/// The canonical form of a position: the lexicographically smallest of its
/// 8 images.
pub open spec fn spec_canonical(me: u64, enemy: u64) -> (u64, u64) {
    pos_min(
        sym_image(Sym { swap: false, neg_r: false, neg_c: false }, me, enemy),
        pos_min(
            sym_image(Sym { swap: true, neg_r: true, neg_c: false }, me, enemy),
            pos_min(
                sym_image(Sym { swap: false, neg_r: true, neg_c: true }, me, enemy),
                pos_min(
                    sym_image(Sym { swap: true, neg_r: false, neg_c: true }, me, enemy),
                    pos_min(
                        sym_image(Sym { swap: false, neg_r: true, neg_c: false }, me, enemy),
                        pos_min(
                            sym_image(Sym { swap: false, neg_r: false, neg_c: true }, me, enemy),
                            pos_min(
                                sym_image(Sym { swap: true, neg_r: false, neg_c: false }, me, enemy),
                                sym_image(Sym { swap: true, neg_r: true, neg_c: true }, me, enemy),
                            ),
                        ),
                    ),
                ),
            ),
        ),
    )
}

/// The minimal image returned by `sym_min_board` is exactly the canonical
/// form: both are images, and each is no larger than the other.
pub proof fn lemma_min_board_canonical(me: u64, enemy: u64, t: Sym, m: u64, e: u64)
    requires
        m == sym_bb(t, me),
        e == sym_bb(t, enemy),
        forall|s: Sym| pos_le((m, e), #[trigger] sym_image(s, me, enemy)),
    ensures
        (m, e) == spec_canonical(me, enemy),
{
    assert((m, e) == sym_image(t, me, enemy));
    let c = spec_canonical(me, enemy);
    assert(pos_le((m, e), c));
    assert(pos_le(c, (m, e))) by {
        assert(pos_le(c, sym_image(t, me, enemy)));
    }
}

/// Little-endian 64-bit integer held in 8 bytes of `s` starting at `off`.
pub open spec fn le64_at(s: Seq<u8>, off: int) -> u64 {
    (s[off] as u64) | ((s[off + 1] as u64) << 8) | ((s[off + 2] as u64) << 16) | ((s[off
        + 3] as u64) << 24) | ((s[off + 4] as u64) << 32) | ((s[off + 5] as u64) << 40) | ((s[off
        + 6] as u64) << 48) | ((s[off + 7] as u64) << 56)
}

/// One 18-byte book record: both boards little-endian, the move cell, and
/// the half-disk evaluation.
pub open spec fn spec_record(me: u64, enemy: u64, best_move: u8, eval: i8) -> Seq<u8> {
    seq![
        (me & 0xFF) as u8,
        ((me >> 8) & 0xFF) as u8,
        ((me >> 16) & 0xFF) as u8,
        ((me >> 24) & 0xFF) as u8,
        ((me >> 32) & 0xFF) as u8,
        ((me >> 40) & 0xFF) as u8,
        ((me >> 48) & 0xFF) as u8,
        ((me >> 56) & 0xFF) as u8,
        (enemy & 0xFF) as u8,
        ((enemy >> 8) & 0xFF) as u8,
        ((enemy >> 16) & 0xFF) as u8,
        ((enemy >> 24) & 0xFF) as u8,
        ((enemy >> 32) & 0xFF) as u8,
        ((enemy >> 40) & 0xFF) as u8,
        ((enemy >> 48) & 0xFF) as u8,
        ((enemy >> 56) & 0xFF) as u8,
        best_move,
        eval as u8,
    ]
}

proof fn lemma_le64_reassemble(x: u64)
    by (bit_vector)
    ensures
        ((x & 0xFF) as u8 as u64) | ((((x >> 8) & 0xFF) as u8 as u64) << 8) | ((((x >> 16)
            & 0xFF) as u8 as u64) << 16) | ((((x >> 24) & 0xFF) as u8 as u64) << 24) | ((((x >> 32)
            & 0xFF) as u8 as u64) << 32) | ((((x >> 40) & 0xFF) as u8 as u64) << 40) | ((((x >> 48)
            & 0xFF) as u8 as u64) << 48) | ((((x >> 56) & 0xFF) as u8 as u64) << 56) == x,
{
}

/// Reading back an encoded record recovers the boards it was made from.
pub proof fn lemma_record_roundtrip(me: u64, enemy: u64, best_move: u8, eval: i8, rest: Seq<u8>)
    ensures
        ({
            let s = spec_record(me, enemy, best_move, eval) + rest;
            &&& s.len() == 18 + rest.len()
            &&& le64_at(s, 0) == me
            &&& le64_at(s, 8) == enemy
            &&& s[16] == best_move
            &&& s[17] == eval as u8
            &&& s.skip(18) == rest
        }),
{
    let s = spec_record(me, enemy, best_move, eval) + rest;
    lemma_le64_reassemble(me);
    lemma_le64_reassemble(enemy);
    assert(s.skip(18) =~= rest);
}

/// The book a byte stream denotes, folded over its 18-byte records onto
/// `acc`: a later record for the same position replaces an earlier one, and
/// a short trailing record ends the stream.
pub open spec fn book_from(s: Seq<u8>, acc: Map<u128, OthelloBookValue>) -> Map<
    u128,
    OthelloBookValue,
>
    decreases s.len(),
{
    if s.len() < 18 {
        acc
    } else {
        book_from(
            s.skip(18),
            acc.insert(
                pack_key(le64_at(s, 0), le64_at(s, 8)),
                OthelloBookValue { best_move: s[16], eval: s[17] as i8 },
            ),
        )
    }
}

/// The key a record is stored under.
pub open spec fn rec_key(r: (u64, u64, u8, i8)) -> u128 {
    pack_key(r.0, r.1)
}

/// The entry a record stores.
pub open spec fn rec_val(r: (u64, u64, u8, i8)) -> OthelloBookValue {
    OthelloBookValue { best_move: r.2, eval: r.3 }
}

/// A whole list of records as one byte stream, in order.
pub open spec fn records_bytes(rs: Seq<(u64, u64, u8, i8)>) -> Seq<u8>
    decreases rs.len(),
{
    if rs.len() == 0 {
        Seq::empty()
    } else {
        spec_record(rs[0].0, rs[0].1, rs[0].2, rs[0].3) + records_bytes(rs.drop_first())
    }
}

/// The records folded into a map, first to last.
pub open spec fn map_of_records(
    rs: Seq<(u64, u64, u8, i8)>,
    acc: Map<u128, OthelloBookValue>,
) -> Map<u128, OthelloBookValue>
    decreases rs.len(),
{
    if rs.len() == 0 {
        acc
    } else {
        map_of_records(rs.drop_first(), acc.insert(rec_key(rs[0]), rec_val(rs[0])))
    }
}

/// One encoded record at the head of a stream parses to one insertion.
pub proof fn lemma_book_from_prepend(
    me: u64,
    enemy: u64,
    best_move: u8,
    eval: i8,
    rest: Seq<u8>,
    acc: Map<u128, OthelloBookValue>,
)
    ensures
        book_from(spec_record(me, enemy, best_move, eval) + rest, acc) == book_from(
            rest,
            acc.insert(pack_key(me, enemy), OthelloBookValue { best_move, eval }),
        ),
{
    lemma_record_roundtrip(me, enemy, best_move, eval, rest);
    assert((eval as u8) as i8 == eval) by (bit_vector);
}

/// Parsing a stream of whole records folds them into the book, first to
/// last.
pub proof fn lemma_book_of_stream(rs: Seq<(u64, u64, u8, i8)>, acc: Map<u128, OthelloBookValue>)
    ensures
        book_from(records_bytes(rs), acc) == map_of_records(rs, acc),
    decreases rs.len(),
{
    if rs.len() > 0 {
        lemma_book_from_prepend(
            rs[0].0,
            rs[0].1,
            rs[0].2,
            rs[0].3,
            records_bytes(rs.drop_first()),
            acc,
        );
        lemma_book_of_stream(rs.drop_first(), acc.insert(rec_key(rs[0]), rec_val(rs[0])));
    }
}

/// Positions none of the records name pass through the fold unchanged.
proof fn lemma_map_of_records_frame(
    rs: Seq<(u64, u64, u8, i8)>,
    acc: Map<u128, OthelloBookValue>,
    k: u128,
)
    requires
        forall|i: int| 0 <= i < rs.len() ==> rec_key(#[trigger] rs[i]) != k,
    ensures
        map_of_records(rs, acc).contains_key(k) == acc.contains_key(k),
        acc.contains_key(k) ==> map_of_records(rs, acc)[k] == acc[k],
    decreases rs.len(),
{
    if rs.len() > 0 {
        let tail = rs.drop_first();
        assert forall|i: int| 0 <= i < tail.len() implies rec_key(#[trigger] tail[i]) != k by {
            assert(tail[i] == rs[i + 1]);
        }
        lemma_map_of_records_frame(tail, acc.insert(rec_key(rs[0]), rec_val(rs[0])), k);
    }
}

proof fn lemma_map_of_records_exact(rs: Seq<(u64, u64, u8, i8)>, acc: Map<u128, OthelloBookValue>)
    requires
        forall|i: int, j: int|
            0 <= i < j < rs.len() ==> rec_key(#[trigger] rs[i]) != rec_key(#[trigger] rs[j]),
    ensures
        forall|i: int|
            0 <= i < rs.len() ==> map_of_records(rs, acc).contains_key(rec_key(#[trigger] rs[i]))
                && map_of_records(rs, acc)[rec_key(rs[i])] == rec_val(rs[i]),
        forall|k: u128|
            #[trigger] map_of_records(rs, acc).contains_key(k) ==> acc.contains_key(k) || exists|
                i: int,
            | 0 <= i < rs.len() && rec_key(#[trigger] rs[i]) == k,
    decreases rs.len(),
{
    if rs.len() > 0 {
        let tail = rs.drop_first();
        let acc2 = acc.insert(rec_key(rs[0]), rec_val(rs[0]));
        assert forall|i: int, j: int| 0 <= i < j < tail.len() implies rec_key(#[trigger] tail[i])
            != rec_key(#[trigger] tail[j]) by {
            assert(tail[i] == rs[i + 1]);
            assert(tail[j] == rs[j + 1]);
        }
        lemma_map_of_records_exact(tail, acc2);
        assert forall|i: int| 0 <= i < tail.len() implies rec_key(#[trigger] tail[i]) != rec_key(
            rs[0],
        ) by {
            assert(tail[i] == rs[i + 1]);
        }
        lemma_map_of_records_frame(tail, acc2, rec_key(rs[0]));
        assert forall|i: int|
            0 <= i < rs.len() implies map_of_records(rs, acc).contains_key(
            rec_key(#[trigger] rs[i]),
        ) && map_of_records(rs, acc)[rec_key(rs[i])] == rec_val(rs[i]) by {
            if i > 0 {
                assert(tail[i - 1] == rs[i]);
            }
        }
        assert forall|k: u128| #[trigger] map_of_records(rs, acc).contains_key(k) implies acc
            .contains_key(k) || exists|i: int| 0 <= i < rs.len() && rec_key(#[trigger] rs[i])
            == k by {
            if !acc.contains_key(k) {
                if k == rec_key(rs[0]) {
                    assert(rec_key(rs[0]) == k);
                } else {
                    assert(acc2.contains_key(k) == acc.contains_key(k));
                    let i0 = choose|i: int| 0 <= i < tail.len() && rec_key(#[trigger] tail[i]) == k;
                    assert(tail[i0] == rs[i0 + 1]);
                    assert(rec_key(rs[i0 + 1]) == k);
                }
            }
        }
    }
}

/// Book round trip, parse half: a stream of whole records for pairwise
/// distinct positions parses to a book holding exactly those entries.
pub proof fn lemma_book_round_trip(rs: Seq<(u64, u64, u8, i8)>)
    requires
        forall|i: int, j: int|
            0 <= i < j < rs.len() ==> rec_key(#[trigger] rs[i]) != rec_key(#[trigger] rs[j]),
    ensures
        forall|i: int|
            0 <= i < rs.len() ==> spec_book(records_bytes(rs)).contains_key(
                rec_key(#[trigger] rs[i]),
            ) && spec_book(records_bytes(rs))[rec_key(rs[i])] == rec_val(rs[i]),
        forall|k: u128|
            #[trigger] spec_book(records_bytes(rs)).contains_key(k) ==> exists|i: int|
                0 <= i < rs.len() && rec_key(#[trigger] rs[i]) == k,
{
    lemma_book_of_stream(rs, Map::empty());
    lemma_map_of_records_exact(rs, Map::empty());
}

/// The book denoted by a whole byte stream.
pub open spec fn spec_book(s: Seq<u8>) -> Map<u128, OthelloBookValue> {
    book_from(s, Map::empty())
}

/// Parse a decoded book stream: one entry per full 18-byte record, in
/// stream order, ignoring a short trailing record.
pub fn parse_book(data: &[u8]) -> (book: OthelloBook)
    ensures
        book@ == spec_book(data@),
{
    let mut book: OthelloBook = HashMap::new();
    let mut off: usize = 0;
    proof {
        assert(data@.skip(0) =~= data@);
    }
    while data.len() - off >= 18
        invariant
            off <= data@.len(),
            spec_book(data@) == book_from(data@.skip(off as int), book@),
        decreases data@.len() - off,
    {
        let me = read_le64(data, off);
        let enemy = read_le64(data, off + 8);
        let best_move = data[off + 16];
        let eval = #[verifier::truncate] (data[off + 17] as i8);
        proof {
            assert(data@.skip(off as int).len() >= 18);
            assert forall|k: int| 0 <= k < 18 implies data@.skip(off as int)[k] == data@[off
                + k] by {}
            assert(le64_at(data@.skip(off as int), 0) == le64_at(data@, off as int));
            assert(le64_at(data@.skip(off as int), 8) == le64_at(data@, off as int + 8));
            assert(data@.skip(off as int).skip(18) =~= data@.skip(off as int + 18));
        }
        book.insert(pack_key_exec(me, enemy), OthelloBookValue { best_move, eval });
        off = off + 18;
    }
    proof {
        assert(data@.skip(off as int).len() < 18);
    }
    book
}

fn read_le64(data: &[u8], off: usize) -> (r: u64)
    requires
        off + 8 <= data@.len(),
    ensures
        r == le64_at(data@, off as int),
{
    (data[off] as u64) | ((data[off + 1] as u64) << 8u64) | ((data[off + 2] as u64) << 16u64) | ((
    data[off + 3] as u64) << 24u64) | ((data[off + 4] as u64) << 32u64) | ((data[off
        + 5] as u64) << 40u64) | ((data[off + 6] as u64) << 48u64) | ((data[off + 7] as u64)
        << 56u64)
}

/// What an xz stream decompresses to; the bytes out are a function of the
/// bytes in alone.
pub uninterp spec fn xz_plain(compressed: Seq<u8>) -> Seq<u8>;

/// Whether a byte stream is a well-formed xz stream, so that decompressing
/// it succeeds; a function of the bytes alone.
pub uninterp spec fn xz_ok(compressed: Seq<u8>) -> bool;

/// Relies on xz2::read::XzDecoder (over a byte slice) to inflate an xz
/// stream; whether it succeeds, and what it yields, depend on the input
/// bytes alone. `None` reports a malformed stream.
#[verifier::external_body]
fn xz_decompress(data: &[u8]) -> (r: Option<Vec<u8>>)
    ensures
        r.is_some() == xz_ok(data@),
        r matches Some(p) ==> p@ == xz_plain(data@),
{
    let mut out: Vec<u8> = Vec::new();
    let mut dec = xz2::read::XzDecoder::new(data);
    match std::io::Read::read_to_end(&mut dec, &mut out) {
        Ok(_) => Some(out),
        Err(_) => None,
    }
}

/// Load the book from the bytes of its compressed file. `None` exactly when
/// the decompressor rejects the stream; serving must not start from that.
pub fn load_book(compressed: &[u8]) -> (r: Option<OthelloBook>)
    ensures
        r.is_some() == xz_ok(compressed@),
        r matches Some(book) ==> book@ == spec_book(xz_plain(compressed@)),
{
    match xz_decompress(compressed) {
        Some(plain) => Some(parse_book(plain.as_slice())),
        None => None,
    }
}

/// Searches the book for a position: canonicalize, fetch, and carry the
/// stored move back into the caller's frame through the transform that
/// canonicalized the position. `Some` exactly when the canonical position
/// is stored with a move that names a cell; the score is the stored
/// half-disk evaluation in centidisks.
pub fn search_book(book: &OthelloBook, me: u64, enemy: u64) -> (r: Option<(u8, i16)>)
    ensures
        ({
            let c = spec_canonical(me, enemy);
            let key = pack_key(c.0, c.1);
            &&& r.is_some() <==> (book@.contains_key(key) && book@[key].best_move < 64)
            &&& (r matches Some(p) ==> p.1 == 50 * (book@[key].eval as int) && (p.0 as u64) < 64
                && exists|t: Sym|
                #![trigger sym_image(t, me, enemy)]
                {
                    &&& sym_image(t, me, enemy) == c
                    &&& sym_loc(t, p.0 as int) == book@[key].best_move as int
                })
        }),
{
    let (m, e, transform) = sym_min_board(me, enemy);
    proof {
        lemma_min_board_canonical(me, enemy, transform, m, e);
    }
    let key = pack_key_exec(m, e);
    match book.get(&key) {
        Some(mq) => {
            if mq.best_move < 64 {
                let mov = sym_invert_loc(transform, mq.best_move);
                proof {
                    assert(sym_image(transform, me, enemy) == (m, e));
                }
                Some((mov, 50 * (mq.eval as i16)))
            } else {
                None
            }
        },
        None => None,
    }
}

} // verus!
