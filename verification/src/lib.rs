//! Chess move-generation core: 64-bit square sets with edge-clipped
//! directional shifts, a perfect-hash attack table for sliding pieces,
//! a one-byte-per-square packed board, and pseudolegal move enumeration.
pub mod bitboard;
pub mod bitboard_moves;
pub mod bits;
pub mod byteboard;
pub mod direction;
pub mod errors;
pub mod fen;
pub mod file;
pub mod gather;
pub mod piece;
pub mod rank;
pub mod square;
pub mod state;
