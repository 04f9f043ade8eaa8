//! Project Murmur's deterministic simulation core, verified.
pub mod geom;
pub mod map;
pub mod text;
pub mod loc;
pub mod data;
pub mod world;
pub mod contract;
pub mod campaign;
pub mod layout;
pub mod schedule;
pub mod access;
pub mod actions;
pub mod validation;
pub mod wording;
pub mod perception;
pub mod resolution;
pub mod reachability;
pub mod facts;
pub mod grammar;
pub mod path;
