//! A verified chess move-generation and search core.
//!
//! The crate models the board as twelve piece bitboards with aggregate
//! occupancies, builds the classic magic-bitboard attack tables with a
//! proof that every lookup returns the exact ray-cast attack set, and
//! verifies pseudo-legal move generation, the make-move state transition
//! with its legality filter, perft counting, and a negamax/quiescence
//! search with killer-move and history ordering.

pub mod bits;
pub mod board;
pub mod attacks;
pub mod movegen;
pub mod perft;
pub mod search;
pub mod fen;
