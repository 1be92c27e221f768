//! Parity scan over equally long data streams.
//!
//! The byte-wise XOR of the streams is expected to be zero at every position.
//! A scan reads the streams chunk by chunk in lockstep, folds the chunks of
//! one iteration into an accumulator, and reports the first position of every
//! chunk at which the accumulator is not zero.
//!
//! - `geometry`: the sizes of sector, chunk and progress boundary.
//! - `parity`: the accumulator and the search for a mismatch in it.
//! - `scan_loop`: the scan as a state machine that a driver feeds.
//! - `model`: what a scan of given contents has to report.
//! - `memory`: the scan of streams held in memory, proved against `model`.
//! - `laws`: what holds of every scan.
//! - `report`: the lines that a scan prints.
//! - `cli`: what a command line asks for.

pub mod geometry;
pub mod parity;
pub mod scan_loop;
pub mod model;
pub mod memory;
pub mod laws;
pub mod report;
pub mod cli;
