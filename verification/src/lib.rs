//! Strategies for producing arbitrary values, the value trees through which
//! generated values are shrunk, and a checker for the shrinking contract.

pub mod runner;
pub mod tree;
pub mod strategy;
pub mod sanity;
pub mod map;
