//! A verified engine for the 8x8 disk-flipping board game: bitboard move
//! generation and move application, fail-soft negamax search with alpha-beta
//! pruning (an exact endgame solver and a depth-bounded midgame search), a
//! fast material/mobility/stability heuristic, symmetry canonicalization of
//! positions, an opening book keyed by canonical positions, and the fixed-size
//! wire protocol the serving layer speaks.

pub mod bitcount;
pub mod othello_board;
pub mod eg_weights;
pub mod endgame;
pub mod classic_search;
pub mod heuristic;
pub mod othello_symmetry;
pub mod opening_book;
pub mod othello_state;
pub mod protocol;
pub mod batch_search;
