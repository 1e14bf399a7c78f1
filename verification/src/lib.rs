//! A Monte Carlo engine for two classic probability puzzles: the birthday
//! collision problem and the Monty Hall three-door game.
//!
//! The engine is split into a uniform integer source, per-trial evaluators
//! that turn random draws into a boolean outcome, and a runner that
//! aggregates many independent trials into a success count.

pub mod birthday;
pub mod monty_hall;
pub mod runner;
pub mod source;
