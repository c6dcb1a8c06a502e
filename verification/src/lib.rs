//! A fixed-size grid of repairable cells, worked on by independent agents.
//!
//! The grid stores, per cell, a broken/repaired flag and a ledger of
//! per-worker contribution records; workers move across the grid, attempt
//! repairs, and decide termination from the ledger sum at the cell they
//! currently occupy.

pub mod repairman;
mod rng;
pub mod worker;
pub mod world;
