//! Lower bounds on the number of steps that a craft needs.
//!
//! For every class of craft states and every number of steps, the solver
//! computes the Pareto front of the progress and quality that the steps can
//! still add. From these frontiers it answers how much quality is in reach
//! within a number of steps, and how many steps the targets take at least.
//! The game's rules come in from outside, as a function that applies one
//! action to a state.

pub mod actions;
pub mod admissibility;
pub mod attainment;
pub mod bounds;
pub mod config;
pub mod effects;
pub mod error;
pub mod estimates;
pub mod events;
pub mod flag;
pub mod frontier;
pub mod glyphs;
pub mod layers;
pub mod minimum_stats;
pub mod monotonicity;
pub mod pareto;
pub mod reduced_state;
pub mod simulation;
pub mod solved_states;
pub mod solver;
pub mod templates;
pub mod text;

pub use error::SolverException;
pub use flag::AtomicFlag;
pub use simulation::SolverSettings;
pub use solver::{StepLbSolver, StepLbSolverStats};
