//! A display engine that presents an array of independently connected,
//! fixed-resolution pixel-display clients as one virtual canvas in world
//! space.
//!
//! The engine tracks where each client's physical screen sits in the world,
//! translates drawing operations into per-client pixel and tile coordinates,
//! and produces the hardware-specific binary command stream for each client.
//! World coordinates are fixed-point integers: one world unit is
//! `COORD_SCALE` coordinate steps (see [`geom`]).
//!
//! Network transport, persistence of client attributes and the demo
//! applications that drive the engine live outside this crate; they exchange
//! plain values (bytes, integers, command buffers) with the types here.

pub mod apps;
pub mod client;
pub mod color;
pub mod commands;
pub mod device;
pub mod driver;
pub mod geom;
pub mod sprite;
pub mod tile;
pub mod wire;
pub mod world;
