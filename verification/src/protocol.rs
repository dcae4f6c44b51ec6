//! The wire protocol and the serving policy: decoding the fixed 20-byte
//! request (rejecting short buffers and positions whose boards overlap),
//! the search-parameter bitfield, the 3-byte reply, and the decision of how
//! a request is answered: final evaluation, pass, endgame solve, opening
//! book, or a midgame search that the caller must run.

use vstd::prelude::*;
use crate::othello_board::{spec_moves, spec_game_over, spec_eval, generate_moves2, game_over};
use crate::endgame::{eg_value, move_val, solve_endgame_root};
use crate::opening_book::{OthelloBook, spec_canonical, pack_key, search_book};
use crate::othello_symmetry::{Sym, sym_image, sym_loc};
use crate::bitcount::{bit64, pop64};

verus! {

/// Big-endian 64-bit integer held in 8 bytes of `s` starting at `off`.
pub open spec fn be64_at(s: Seq<u8>, off: int) -> u64 {
    ((s[off] as u64) << 56) | ((s[off + 1] as u64) << 48) | ((s[off + 2] as u64) << 40) | ((s[off
        + 3] as u64) << 32) | ((s[off + 4] as u64) << 24) | ((s[off + 5] as u64) << 16) | ((s[off
        + 6] as u64) << 8) | (s[off + 7] as u64)
}

/// Big-endian 16-bit integer held in 2 bytes of `s` starting at `off`.
pub open spec fn be16_at(s: Seq<u8>, off: int) -> u16 {
    (((s[off] as u16) << 8) | (s[off + 1] as u16)) as u16
}

/// A decoded request: the position, the remaining time in tenths of a
/// second, and the raw parameter bitfield.
#[derive(Clone, Copy, PartialEq, Eq, Structural, Debug)]
pub struct Request {
    pub me: u64,
    pub enemy: u64,
    pub time: u16,
    pub params: u16,
}

fn read_be64(data: &[u8], off: usize) -> (r: u64)
    requires
        off + 8 <= data@.len(),
    ensures
        r == be64_at(data@, off as int),
{
    ((data[off] as u64) << 56u64) | ((data[off + 1] as u64) << 48u64) | ((data[off + 2] as u64)
        << 40u64) | ((data[off + 3] as u64) << 32u64) | ((data[off + 4] as u64) << 24u64) | ((
    data[off + 5] as u64) << 16u64) | ((data[off + 6] as u64) << 8u64) | (data[off + 7] as u64)
}

/// Decode a client request: 8 bytes mover board, 8 bytes enemy board, 2
/// bytes remaining time, 2 bytes parameters, all big-endian. A buffer
/// shorter than the fixed size, or a position whose two boards overlap, is
/// rejected.
pub fn decode_request(data: &[u8]) -> (r: Option<Request>)
    ensures
        r.is_some() <==> (data@.len() >= 20 && (be64_at(data@, 0) & be64_at(data@, 8)) == 0),
        r matches Some(q) ==> q.me == be64_at(data@, 0) && q.enemy == be64_at(data@, 8) && q.time
            == be16_at(data@, 16) && q.params == be16_at(data@, 18) && q.me & q.enemy == 0,
{
    if data.len() < 20 {
        return None;
    }
    let me = read_be64(data, 0);
    let enemy = read_be64(data, 8);
    if me & enemy != 0 {
        return None;
    }
    let time = ((data[16] as u16) << 8u16) | (data[17] as u16);
    let params = ((data[18] as u16) << 8u16) | (data[19] as u16);
    Some(Request { me, enemy, time, params })
}

/// The 3-byte reply: the move cell (or the pass sentinel) and the
/// big-endian centidisk score.
pub open spec fn spec_response(mov: u8, q: i16) -> Seq<u8> {
    seq![mov, (((q as u16) >> 8) & 0xFF) as u8, ((q as u16) & 0xFF) as u8]
}

/// Encode a reply for the wire.
pub fn encode_response(mov: u8, q: i16) -> (r: Vec<u8>)
    ensures
        r@ == spec_response(mov, q),
{
    let qu = #[verifier::truncate] (q as u16);
    let mut v: Vec<u8> = Vec::new();
    v.push(mov);
    v.push(#[verifier::truncate] (((qu >> 8u16) & 0xFFu16) as u8));
    v.push(#[verifier::truncate] ((qu & 0xFFu16) as u8));
    proof {
        assert((((q as u16) >> 8) & 0xFF) < 256 && ((q as u16) & 0xFF) < 256) by (bit_vector);
        assert(v@ =~= spec_response(mov, q));
    }
    v
}

/// The search parameters a client's bitfield asks for.
#[derive(Clone, Copy, PartialEq, Eq, Structural)]
pub struct SearchParams {
    /// If true will use remaining time to adjust settings
    pub adj_time: bool,
    /// If true will use the opening book
    pub use_book: bool,
    /// If true will solve exact endgame, If false solves WLD
    pub solve_end_exact: bool,
    /// If true will do a WLD endgame search on deep searches
    pub solve_end_adaptive: bool,
    /// Mid game search depth
    pub mid_depth: u8,
    /// Endgame search depth
    pub end_depth: u8,
}

/// The endgame depth a bitfield asks for, clamped to a sane range.
pub open spec fn spec_end_depth(p: u16) -> u8 {
    let raw = (p & 0b11111) as u8;
    if raw < 1 {
        1u8
    } else if raw > 22 {
        22u8
    } else {
        raw
    }
}

/// The midgame depth a bitfield asks for, clamped to a sane range.
pub open spec fn spec_mid_depth(p: u16) -> u8 {
    let raw = ((p >> 5) & 0b11111) as u8;
    if raw < 1 {
        1u8
    } else if raw > 10 {
        10u8
    } else {
        raw
    }
}

proof fn lemma_param_bits(p: u16)
    by (bit_vector)
    ensures
        (p & 0b11111u16) < 32,
        ((p >> 5) & 0b11111u16) < 32,
{
}

impl SearchParams {
    /// Decodes the algorithm parameters a client requested: five low bits
    /// of endgame depth, five bits of midgame depth, then one bit each for
    /// adaptive endgame, exact-vs-WLD, opening book, and time adjustment.
    pub fn from_u16(p: u16) -> (r: Self)
        ensures
            r.end_depth == spec_end_depth(p),
            r.mid_depth == spec_mid_depth(p),
            r.solve_end_adaptive == (((p >> 10) & 1u16) != 0),
            r.solve_end_exact == (((p >> 11) & 1u16) != 0),
            r.use_book == (((p >> 12) & 1u16) != 0),
            r.adj_time == (((p >> 13) & 1u16) != 0),
            1 <= r.end_depth <= 22,
            1 <= r.mid_depth <= 10,
    {
        proof {
            lemma_param_bits(p);
        }
        let raw_end = (p & 0b11111) as u8;
        let raw_mid = ((p >> 5u16) & 0b11111) as u8;
        let solve_end_adaptive = ((p >> 10u16) & 0b1) != 0;
        let solve_end_exact = ((p >> 11u16) & 0b1) != 0;
        let use_book = ((p >> 12u16) & 0b1) != 0;
        let adj_time = ((p >> 13u16) & 0b1) != 0;

        let end_depth = if raw_end < 1 {
            1
        } else if raw_end > 22 {
            22
        } else {
            raw_end
        };
        let mid_depth = if raw_mid < 1 {
            1
        } else if raw_mid > 10 {
            10
        } else {
            raw_mid
        };
        SearchParams { adj_time, use_book, solve_end_exact, solve_end_adaptive, mid_depth, end_depth }
    }

    /// The depth handed to the midgame search for a true depth of
    /// `mid_depth`: one ply is absorbed by the leaf batch.
    pub fn adjusted_mid_depth(&self) -> (r: u8)
        ensures
            r == if self.mid_depth >= 2 {
                (self.mid_depth - 1) as u8
            } else {
                1u8
            },
    {
        if self.mid_depth >= 2 {
            self.mid_depth - 1
        } else {
            1
        }
    }

    /// The half-width of the endgame search window: 1 for win/loss/draw
    /// only, 64 for the exact score, narrowed to 32 for deep adaptive
    /// searches.
    pub fn end_window(&self, empties: u8) -> (r: i8)
        ensures
            r == self.spec_end_window(empties),
            1 <= r <= 64,
    {
        if !self.solve_end_exact {
            return 1;
        }
        if self.solve_end_adaptive && empties > 17 {
            32
        } else {
            64
        }
    }

    pub open spec fn spec_end_window(&self, empties: u8) -> i8 {
        if !self.solve_end_exact {
            1i8
        } else if self.solve_end_adaptive && empties > 17 {
            32i8
        } else {
            64i8
        }
    }
}

/// How the server answers a decoded request: either a finished reply, or
/// the instruction to run the midgame search to the given depth (that
/// search's leaf evaluator lives outside this crate).
#[derive(Clone, Copy, PartialEq, Eq, Structural, Debug)]
pub enum ServerAction {
    Reply { mov: u8, score: i16 },
    Midgame { depth: i8 },
}

/// Whether the canonical form of a position is stored in the book with a
/// move that names a cell.
pub open spec fn book_hit(bm: Map<u128, crate::opening_book::OthelloBookValue>, me: u64, enemy: u64) -> bool {
    let c = spec_canonical(me, enemy);
    bm.contains_key(pack_key(c.0, c.1)) && bm[pack_key(c.0, c.1)].best_move < 64
}

/// Decide a request: final evaluation when the game is over, a pass when
/// the mover is stuck, an exact endgame solve when few cells are empty, a
/// book answer when the book is on and holds the position, else a midgame
/// search at the adjusted depth.
pub fn server_get_move(book: &OthelloBook, me: u64, enemy: u64, params: &SearchParams) -> (r:
    ServerAction)
    requires
        me & enemy == 0,
        1 <= params.end_depth <= 22,
        1 <= params.mid_depth <= 10,
    ensures
        spec_game_over(me, enemy) ==> (r matches ServerAction::Reply { mov, score } && mov == 65
            && score as int == 100 * spec_eval(me, enemy)),
        !spec_game_over(me, enemy) && spec_moves(me, enemy) == 0 ==> r == (ServerAction::Reply {
            mov: 65u8,
            score: i16::MAX,
        }),
        ({
            let empties = 64 - pop64(me | enemy);
            let w = params.spec_end_window((64 - pop64(me | enemy)) as u8) as int;
            !spec_game_over(me, enemy) && spec_moves(me, enemy) != 0 && empties
                <= params.end_depth as int ==> (r matches ServerAction::Reply { mov, score }
                && (mov as u64) < 64 && bit64(spec_moves(me, enemy), mov as u64) && (-w < eg_value(
                me,
                enemy,
            ) < w ==> score as int == 100 * eg_value(me, enemy) && move_val(me, enemy, mov as u64)
                == eg_value(me, enemy)))
        }),
        ({
            let empties = 64 - pop64(me | enemy);
            !spec_game_over(me, enemy) && spec_moves(me, enemy) != 0 && empties
                > params.end_depth as int && params.use_book && book_hit(book@, me, enemy)
                ==> (r matches ServerAction::Reply { mov, score } && (mov as u64) < 64
                && score as int == 50 * (book@[pack_key(
                spec_canonical(me, enemy).0,
                spec_canonical(me, enemy).1,
            )].eval as int) && exists|t: Sym|
                #![trigger sym_image(t, me, enemy)]
                {
                    &&& sym_image(t, me, enemy) == spec_canonical(me, enemy)
                    &&& sym_loc(t, mov as int) == book@[pack_key(
                        spec_canonical(me, enemy).0,
                        spec_canonical(me, enemy).1,
                    )].best_move as int
                })
        }),
        ({
            let empties = 64 - pop64(me | enemy);
            !spec_game_over(me, enemy) && spec_moves(me, enemy) != 0 && empties
                > params.end_depth as int && !(params.use_book && book_hit(book@, me, enemy)) ==> r
                == (ServerAction::Midgame {
                depth: (if params.mid_depth >= 2 {
                    (params.mid_depth - 1) as u8
                } else {
                    1u8
                }) as i8,
            })
        }),
{
    if game_over(me, enemy) {
        proof {
            crate::bitcount::lemma_pop64_le(me);
            crate::bitcount::lemma_pop64_le(enemy);
        }
        return ServerAction::Reply { mov: 65, score: 100 * (crate::othello_board::evaluation(me, enemy) as i16) };
    }
    if generate_moves2(me, enemy) == 0 {
        return ServerAction::Reply { mov: 65, score: i16::MAX };
    }
    let empties = crate::othello_board::empty_disks(me, enemy);
    if empties <= params.end_depth {
        let window = params.end_window(empties);
        let (mov, q) = solve_endgame_root(me, enemy, -window, window);
        return ServerAction::Reply { mov, score: 100 * (q as i16) };
    }
    if params.use_book {
        match search_book(book, me, enemy) {
            Some(res) => {
                return ServerAction::Reply { mov: res.0, score: res.1 };
            },
            None => {},
        }
    }
    ServerAction::Midgame { depth: params.adjusted_mid_depth() as i8 }
}

} // verus!
