//! A deadline-driven heuristic solver for the Euclidean travelling salesman
//! problem, with distances held in exact fixed-point integers.

pub mod anneal;
pub mod distance;
pub mod greedy;
pub mod phase;
pub mod rng;
pub mod solver;
pub mod three_opt;
pub mod tour;
pub mod two_opt;
