//! Core of an EXA virtual machine: tiny assembly programs run on mobile
//! agents that roam a network of capacity-limited hosts joined by
//! occupancy-gated links, carrying files and trading messages.

pub mod exa;
pub mod file;
pub mod host;
pub mod instruction;
pub mod laws;
pub mod program;
pub mod register;
mod rng;
pub mod step;
pub mod text;
pub mod value;
pub mod world;
