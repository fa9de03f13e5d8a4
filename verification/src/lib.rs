//! Core of a turn-based dungeon-crawl simulation: a fixed grid map, a
//! component-based entity model (fighters, AI, items, equipment), combat
//! resolution with death transitions, an inventory with per-slot equipment,
//! visibility-gated monster AI, a turn engine, and an exact byte codec for
//! the whole game state.
//!
//! Everything here is verified. Input/output (prompting, rendering to a
//! terminal, reading and writing save files) lives outside this crate and
//! talks to it through plain values.

pub mod codec;
pub mod combat;
pub mod engine;
pub mod entity;
pub mod inventory;
pub mod render;
mod rng;
pub mod seen;
pub mod tile;
