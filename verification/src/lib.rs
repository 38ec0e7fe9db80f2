//! Team-strength rating engine: trains an Elo-family rating table over
//! historical seasons, simulates later seasons from seeded randomness, and
//! reduces simulated-versus-real comparisons to one error value per season.
//!
//! Every scalar that the rating formula works on is an IEEE 754 double,
//! carried here as its 64-bit pattern (`u64`). The arithmetic itself is
//! supplied by an implementation of the `RatingSystem` trait; everything
//! around it — tables, season indexing, the training fold, the simulation
//! loop and its outcome decisions, standings, and error aggregation — is
//! verified.

pub mod bits;
pub mod errors;
pub mod experiment;
pub mod game;
pub mod math;
pub mod rng;
pub mod run_config;
pub mod seasons;
pub mod simulate;
pub mod standings;
pub mod table;
pub mod train;
