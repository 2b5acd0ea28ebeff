//! What a desktop workspace for coding agents decides: which agents may run, behind which gap, in
//! which order, and what is told of it. Nothing here touches a file, a process or a clock; every
//! fact comes in as a value, and every decision goes out as one.

pub mod agent_env;
pub mod airgap;
pub mod auth;
pub mod chat;
pub mod clock;
pub mod command;
pub mod doc;
pub mod export;
pub mod files;
pub mod flow;
pub mod git;
pub mod graphify;
pub mod json;
pub mod listing;
pub mod pane;
pub mod parse;
pub mod paths;
pub mod pty;
pub mod records;
pub mod remote;
pub mod runs;
pub mod schedules;
pub mod sorting;
pub mod strmap;
pub mod stt;
pub mod text;
pub mod windows;
pub mod workspace;
