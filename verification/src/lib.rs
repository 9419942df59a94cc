//! Core engine for a falling-block puzzle game.
//!
//! The crate models the seven tetromino shapes with their fixed rotation
//! views, a walled game board with line clearing, a fair randomized piece
//! dispenser, the falling-piece movement and collision rules, a pure scoring
//! policy, and the game state machine that ties them together and notifies
//! registered listeners of state changes. Terminal rendering and input
//! handling are left to the host program.

pub mod pieces;
pub mod board;
pub mod bag;
pub mod score;
pub mod gamestate;
