//! Adjudicator library for a multiplayer snake game on a torus.
//!
//! The crate contains the verified core of a tournament runner: the text
//! wire protocol shared by players, orchestrator and replay viewer; the
//! torus-grid board state machine; the per-turn decision logic of the game
//! loop; the broadcast planner that orders all outbound messages and log
//! lines; and the match-level statistics and tie-break rules. Process
//! handling, pipes and timing live outside the library and drive it
//! through these types.

pub mod digits;
pub mod game;
pub mod matchrun;
pub mod parse_instruction;
pub mod render;
pub mod rng;
pub mod showgame;
pub mod running;
pub mod text;
pub mod writer;
