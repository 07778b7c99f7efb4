//! Simulation and synchronisation core of a multiplayer 2D space game.
//!
//! The verified part holds the tick-ordered message buffer, the entity
//! registry that ties stable identifiers to solver handles, the per-tick
//! decisions of the server stepper and the client's reconciliation logic.
pub mod circular_buffer;
pub mod game_state;
pub mod movement;
pub mod registry;
pub mod render_effects;
pub mod server;
pub mod user_input;
