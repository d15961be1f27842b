//! A coding agent's verified core.

pub mod agent;
pub mod budget;
pub mod cache;
pub mod callgraph;
pub mod calls;
pub mod cli;
pub mod client;
pub mod clock;
pub mod config;
pub mod consumed;
pub mod context_weights;
pub mod events;
pub mod flowpaths;
pub mod git;
pub mod grep;
pub mod history;
pub mod hooks;
pub mod index;
pub mod init;
pub mod json;
pub mod mcp;
pub mod names;
pub mod narrative;
pub mod number;
pub mod order;
pub mod paths;
pub mod pie;
pub mod pieces;
pub mod plan;
pub mod planner;
pub mod repair;
pub mod results;
pub mod sessions;
pub mod task_memory;
pub mod telemetry;
pub mod text;
pub mod think;
pub mod update;
