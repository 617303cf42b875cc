//! A two-player chess rules engine.
//!
//! The engine tracks an 8 by 8 board, generates legal moves for every piece,
//! detects check, checkmate and stalemate, and executes moves including the
//! special cases of en passant, castling and promotion. Legality is enforced
//! by a two-phase generate-then-filter algorithm: pseudo-legal moves obeying
//! each piece's movement pattern are generated first, and every candidate that
//! would leave the mover's own king attacked is then filtered out by
//! simulating it on a snapshot of the board.

pub mod board;
pub mod chess;
pub mod laws;
pub mod move_calculator;
pub mod piece;
