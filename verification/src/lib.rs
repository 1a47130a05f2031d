//! A minimal entity-component-system runtime, with a solitaire game
//! built on top of it.
//!
//! The `ecs` module is the core: entity identity allocation,
//! per-type component storage behind a compile-time registry, typed
//! queries, and a deterministic system scheduler.  The `game`,
//! `solitaire`, `demo`, and `room` modules hold the component types
//! and systems of a multiplayer solitaire game; `registry` wires
//! those types to one concrete registry.

pub mod ecs;
pub mod game;
pub mod solitaire;
pub mod demo;
pub mod registry;
pub mod room;
