//! The compact board: sixty-four packed bytes, its bulk word codecs,
//! and pseudolegal move generation over it.
pub mod byteboard;
pub mod movegen;
pub mod bytesquare;
