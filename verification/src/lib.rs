//! Core data structures of a 2-D smoothed-particle-hydrodynamics solver:
//! the uniform bucket grid used for neighbour search, and the length-prefixed
//! binary snapshot format used to persist particle arrays.

pub mod dto;
pub mod grid;
