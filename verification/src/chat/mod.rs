//! The assistant: which providers it can talk to, with whose key, and what is told of a talk that
//! failed.

pub mod egress;
pub mod keys;
pub mod overlay;
pub mod registry;
pub mod resolve;
pub mod send;
