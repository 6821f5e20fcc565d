//! A 64-bit square set for an 8x8 board.
//!
//! [`BitBoard`] wraps one `u64`; bit `i`, counted from the least significant
//! bit, says whether square `i` of the 0..=63 numbering belongs to the set.
//! Every operation carries a contract over that raw word and over the
//! mathematical set of squares that it stands for.

pub mod bits;
pub mod error;
pub mod bitboard;
pub mod algebra;

pub use bitboard::BitBoard;
pub use error::ChessError;
