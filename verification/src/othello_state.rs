//! A whole game state: the two boards labeled black and white, the ply
//! counter that says whose turn it is (black moves on even plies), and a
//! caller-maintained hash tag carried along unchanged.

use vstd::prelude::*;
use crate::bitcount::{pop64, popcount64, lemma_pop64_le};
use crate::othello_board::{
    spec_moves, spec_game_over, spec_eval, spec_make_self, spec_make_enemy, generate_moves2,
    game_over, make_move1, to_idx_move_vec,
};

verus! {

/// Decimal digits of `n`, most significant first, as ASCII bytes.
pub open spec fn dec_bytes(n: nat) -> Seq<u8>
    decreases n,
{
    if n < 10 {
        seq![(48 + n) as u8]
    } else {
        dec_bytes(n / 10).push((48 + n % 10) as u8)
    }
}

/// The ASCII bytes read as characters.
pub open spec fn ascii_chars(s: Seq<u8>) -> Seq<char> {
    s.map(|i: int, b: u8| b as char)
}

proof fn lemma_dec_bytes_ascii(n: nat)
    ensures
        forall|k: int| 0 <= k < dec_bytes(n).len() ==> 48 <= #[trigger] dec_bytes(n)[k] < 58,
    decreases n,
{
    if n >= 10 {
        lemma_dec_bytes_ascii(n / 10);
        assert forall|k: int| 0 <= k < dec_bytes(n).len() implies 48 <= #[trigger] dec_bytes(n)[k]
            < 58 by {
            if k < dec_bytes(n / 10).len() {
                assert(dec_bytes(n)[k] == dec_bytes(n / 10)[k]);
            } else {
                assert(dec_bytes(n)[k] == (48 + n % 10) as u8);
            }
        }
    }
}

fn push_dec(v: &mut Vec<u8>, n: u64)
    ensures
        final(v)@ == old(v)@ + dec_bytes(n as nat),
    decreases n,
{
    if n >= 10 {
        proof {
            assert(n / 10 < n) by (nonlinear_arith)
                requires
                    n >= 10,
            ;
        }
        push_dec(v, n / 10);
    }
    v.push(48 + (n % 10) as u8);
    proof {
        assert(v@ =~= old(v)@ + dec_bytes(n as nat));
    }
}


/// Relies on String::from_utf8: bytes below 128 decode to exactly those
/// characters, one each.
#[verifier::external_body]
fn ascii_to_string(v: Vec<u8>) -> (r: String)
    requires
        forall|k: int| 0 <= k < v@.len() ==> v@[k] < 128,
    ensures
        r@.len() == v@.len(),
        forall|k: int| 0 <= k < v@.len() ==> r@[k] == (#[trigger] v@[k]) as char,
{
    String::from_utf8(v).unwrap_or_default()
}

/// The low bit of a counter says the same as its parity.
proof fn lemma_parity(p: u8)
    by (bit_vector)
    ensures
        (p & 1 == 0) == (p % 2 == 0),
{
}

/// A game state: boards by color, the ply counter, and a hash tag.
pub struct OthelloState {
    ply: u8,
    black: u64,
    white: u64,
    hash: u32,
}

/// The comma-separated decimal rendering of a state's four fields.
pub open spec fn spec_short_string(ply: u8, black: u64, white: u64, hash: u32) -> Seq<char> {
    ascii_chars(
        dec_bytes(ply as nat) + seq![44u8] + dec_bytes(black as nat) + seq![44u8] + dec_bytes(
            white as nat,
        ) + seq![44u8] + dec_bytes(hash as nat),
    )
}

impl OthelloState {
    pub closed spec fn spec_ply(&self) -> u8 {
        self.ply
    }

    pub closed spec fn spec_black(&self) -> u64 {
        self.black
    }

    pub closed spec fn spec_white(&self) -> u64 {
        self.white
    }

    pub closed spec fn spec_hash(&self) -> u32 {
        self.hash
    }

    /// The board of the side to move, then the other: black moves on even
    /// plies.
    pub open spec fn spec_mover_boards(&self) -> (u64, u64) {
        if self.spec_ply() % 2 == 0 {
            (self.spec_black(), self.spec_white())
        } else {
            (self.spec_white(), self.spec_black())
        }
    }

    pub fn new(ply: u8, black: u64, white: u64, hash: u32) -> (r: Self)
        ensures
            r.spec_ply() == ply && r.spec_black() == black && r.spec_white() == white
                && r.spec_hash() == hash,
    {
        OthelloState { ply, black, white, hash }
    }

    /// The standard starting layout: the four center disks, black to move.
    pub fn starting_state() -> (r: Self)
        ensures
            r.spec_ply() == 0,
            r.spec_black()
                == 0b00000000_00000000_00000000_00001000_00010000_00000000_00000000_00000000u64,
            r.spec_white()
                == 0b00000000_00000000_00000000_00010000_00001000_00000000_00000000_00000000u64,
            r.spec_hash() == 0,
    {
        OthelloState {
            ply: 0,
            black: 0b00000000_00000000_00000000_00001000_00010000_00000000_00000000_00000000u64,
            white: 0b00000000_00000000_00000000_00010000_00001000_00000000_00000000_00000000u64,
            hash: 0,
        }
    }

    /// +1 when black is to move, -1 when white is.
    pub fn player_coeff(&self) -> (r: i8)
        ensures
            r == if self.spec_ply() % 2 == 0 {
                1i8
            } else {
                -1i8
            },
    {
        proof {
            lemma_parity(self.ply);
        }
        if self.ply & 1 == 0 {
            1
        } else {
            -1
        }
    }

    pub fn num_black_disks(&self) -> (r: u8)
        ensures
            r == pop64(self.spec_black()),
    {
        proof {
            lemma_pop64_le(self.black);
        }
        popcount64(self.black) as u8
    }

    pub fn num_white_disks(&self) -> (r: u8)
        ensures
            r == pop64(self.spec_white()),
    {
        proof {
            lemma_pop64_le(self.white);
        }
        popcount64(self.white) as u8
    }

    pub fn disks_placed(&self) -> (r: u8)
        ensures
            r == pop64(self.spec_black() | self.spec_white()),
    {
        proof {
            lemma_pop64_le(self.black | self.white);
        }
        popcount64(self.black | self.white) as u8
    }

    pub fn empty_disks(&self) -> (r: u8)
        ensures
            r == 64 - pop64(self.spec_black() | self.spec_white()),
    {
        proof {
            lemma_pop64_le(self.black | self.white);
        }
        64 - self.disks_placed()
    }

    pub fn game_over(&self) -> (r: bool)
        ensures
            r == spec_game_over(self.spec_black(), self.spec_white()),
    {
        game_over(self.black, self.white)
    }

    /// Whether the side to move has a legal move.
    pub fn has_move(&self) -> (r: bool)
        ensures
            r == (spec_moves(self.spec_mover_boards().0, self.spec_mover_boards().1) != 0),
    {
        proof {
            lemma_parity(self.ply);
        }
        (if self.ply & 1 == 0 {
            generate_moves2(self.black, self.white)
        } else {
            generate_moves2(self.white, self.black)
        }) != 0
    }

    /// Disk difference from black's point of view.
    pub fn evaluation(&self) -> (r: i8)
        ensures
            r as int == spec_eval(self.spec_black(), self.spec_white()),
            -64 <= r <= 64,
    {
        crate::othello_board::evaluation(self.black, self.white)
    }

    /// The sign of the final disk difference: 1, -1 or 0.
    pub fn winner(&self) -> (r: i8)
        ensures
            r == (if spec_eval(self.spec_black(), self.spec_white()) > 0 {
                1i8
            } else if spec_eval(self.spec_black(), self.spec_white()) < 0 {
                -1i8
            } else {
                0i8
            }),
    {
        let e = self.evaluation();
        if e > 0 {
            1
        } else if e < 0 {
            -1
        } else {
            0
        }
    }

    /// The same position with the turn handed to the other side.
    pub fn pass(&self) -> (r: Self)
        requires
            self.spec_ply() < 255,
        ensures
            r.spec_ply() == self.spec_ply() + 1,
            r.spec_black() == self.spec_black(),
            r.spec_white() == self.spec_white(),
            r.spec_hash() == self.spec_hash(),
    {
        Self::new(self.ply + 1, self.black, self.white, self.hash)
    }

    /// The state after the side to move plays cell `mov`.
    pub fn apply_move(&self, mov: u8) -> (r: Self)
        requires
            mov < 64,
            self.spec_ply() < 255,
        ensures
            r.spec_ply() == self.spec_ply() + 1,
            r.spec_hash() == self.spec_hash(),
            ({
                let (me, enemy) = self.spec_mover_boards();
                let s2 = spec_make_self(1u64 << mov, me, enemy);
                let e2 = spec_make_enemy(1u64 << mov, me, enemy);
                if self.spec_ply() % 2 == 0 {
                    r.spec_black() == s2 && r.spec_white() == e2
                } else {
                    r.spec_white() == s2 && r.spec_black() == e2
                }
            }),
    {
        proof {
            lemma_parity(self.ply);
        }
        if self.ply & 1 == 0 {
            let (me, enemy) = make_move1(1u64 << (mov as u64), self.black, self.white);
            Self::new(self.ply + 1, me, enemy, self.hash)
        } else {
            let (me, enemy) = make_move1(1u64 << (mov as u64), self.white, self.black);
            Self::new(self.ply + 1, enemy, me, self.hash)
        }
    }

    /// How many legal moves the side to move has.
    pub fn number_of_moves(&self) -> (r: u8)
        ensures
            r == pop64(spec_moves(self.spec_mover_boards().0, self.spec_mover_boards().1)),
    {
        proof {
            lemma_parity(self.ply);
        }
        if self.ply & 1 == 0 {
            crate::othello_board::number_of_moves(self.black, self.white)
        } else {
            crate::othello_board::number_of_moves(self.white, self.black)
        }
    }

    /// The legal moves of the side to move, as ascending cell indices.
    pub fn available_moves(&self) -> (r: Vec<u8>)
        ensures
            ({
                let moves = spec_moves(self.spec_mover_boards().0, self.spec_mover_boards().1);
                &&& r@.len() == pop64(moves)
                &&& forall|k: int|
                    0 <= k < r@.len() ==> (r@[k] as u64) < 64 && crate::bitcount::bit64(
                        moves,
                        #[trigger] r@[k] as u64,
                    )
                &&& forall|k1: int, k2: int| 0 <= k1 < k2 < r@.len() ==> r@[k1] < r@[k2]
                &&& forall|i: u64| i < 64 && crate::bitcount::bit64(moves, i) ==> r@.contains(i as u8)
            }),
    {
        proof {
            lemma_parity(self.ply);
        }
        if self.ply & 1 == 0 {
            to_idx_move_vec(generate_moves2(self.black, self.white))
        } else {
            to_idx_move_vec(generate_moves2(self.white, self.black))
        }
    }

    /// The four fields as comma-separated decimal text.
    pub fn to_short_string(&self) -> (r: String)
        ensures
            r@ == spec_short_string(self.spec_ply(), self.spec_black(), self.spec_white(), self.spec_hash()),
    {
        let mut v: Vec<u8> = Vec::new();
        push_dec(&mut v, self.ply as u64);
        v.push(44);
        push_dec(&mut v, self.black);
        v.push(44);
        push_dec(&mut v, self.white);
        v.push(44);
        push_dec(&mut v, self.hash as u64);
        proof {
            lemma_dec_bytes_ascii(self.ply as nat);
            lemma_dec_bytes_ascii(self.black as nat);
            lemma_dec_bytes_ascii(self.white as nat);
            lemma_dec_bytes_ascii(self.hash as nat);
            assert(v@ =~= dec_bytes(self.ply as nat) + seq![44u8] + dec_bytes(self.black as nat)
                + seq![44u8] + dec_bytes(self.white as nat) + seq![44u8] + dec_bytes(
                self.hash as nat,
            ));
        }
        let s = ascii_to_string(v);
        proof {
            assert(s@ =~= spec_short_string(self.ply, self.black, self.white, self.hash));
        }
        s
    }
}

} // verus!
