//! The decisions of a mutation testing run: which source files are mutated, under which cache
//! key their results are kept, in which order mutants are tried, what is tallied, what is kept
//! for the next run, and when the run stops.

pub mod config;
pub mod digest;
pub mod history;
pub mod mutant;
pub mod notice;
pub mod order;
pub mod path;
pub mod pattern;
pub mod plan;
pub mod resolve;
pub mod run;
pub mod steps;
