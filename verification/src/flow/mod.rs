//! Background flow runs: what may start, what is written off, and how a run ends.
pub mod graph;
pub mod outcomes;
pub mod run_plan;
pub mod ids;
pub mod confine;
pub mod state;
pub mod runner;
pub mod launch;
pub mod start;
pub mod laws;
pub mod tools;
pub mod layout;
pub mod env;
pub mod events;
