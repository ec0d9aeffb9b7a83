//! Ingestion of operations that other devices of a library have made.
//!
//! The [`actor`] decides when to ask for operations and when to take them in. The operations on
//! each record are put in the [`order`] of their timestamps, the [`clock`] is told of the newest,
//! and [`process`] decides what to look up and what becomes of them. What is then written is a
//! [`transaction`]; how far each device has come is kept in its [`timestamps`]. The [`laws`] say
//! what holds of all this together.
pub mod actor;
pub mod clock;
pub mod error;
pub mod field_map;
pub mod laws;
pub mod order;
pub mod outside;
pub mod process;
pub mod timestamps;
pub mod transaction;
pub mod types;
