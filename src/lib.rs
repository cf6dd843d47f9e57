//! Metaheuristic search for the symmetric travelling salesman problem.
//!
//! Cities carry integer coordinates in fixed-point micro-units; distances are
//! the floor of the Euclidean distance in the same units, so every length the
//! searches compare is an exact integer.

pub mod geometry;
pub mod tour;
pub mod instance;
pub mod random;
pub mod clock;
pub mod search;
pub mod greedy;
pub mod steepest;
pub mod tabu_list;
pub mod tabu;
pub mod annealing;
pub mod heuristic;
pub mod random_search;
pub mod random_walk;
