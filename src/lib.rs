//! Traffic demand for a tick-based city simulation: scenarios that describe
//! how many agents go where and when, their expansion into individually timed
//! trips, and the bookkeeping of runs checked against expected events.

pub mod tick;
pub mod geometry;
pub mod map;
pub mod neighborhood;
pub mod osmosis;
mod random;
pub mod sim;
pub mod scenario;
pub mod spawn;
pub mod run_loop;
pub mod classification;
pub mod selection;
