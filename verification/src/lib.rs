//! A chessboard state representation and pseudolegal move generator.
//!
//! The board is a 64-cell array addressed rank-major, with rank 0 the topmost
//! row as written in FEN. Off-board detection uses a "mailbox" scheme: the
//! 8x8 board is embedded in a 10x12 padded grid whose border cells are
//! sentinels, so that adding a fixed per-direction delta is always safe
//! arithmetic and never needs per-edge special cases.
//!
//! The generator produces *pseudolegal* moves only: moves consistent with a
//! piece's movement pattern, with same-color captures excluded. Check safety,
//! castling legality, en-passant execution, promotion and move application are
//! deliberately out of scope.

pub mod board;
pub mod engine;
pub mod mailbox;
pub mod pieces;
pub mod tables;
