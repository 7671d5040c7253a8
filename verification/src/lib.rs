//! Orchestration of AI coding agents: sessions, windows, agents and projects,
//! with a process-supervision model and durable JSON persistence.

pub mod abduco;
pub mod assistant;
pub mod cliargs;
pub mod codec;
pub mod entities;
pub mod errors;
pub mod gitrepo;
pub mod ident;
pub mod persist;
pub mod registry;
pub mod seqsum;
pub mod store;
pub mod strutil;
pub mod supervisor;
pub mod tui;
