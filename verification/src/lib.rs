//! Varda: routes markdown tasks to agents, confines each agent to a sandbox and
//! brokers the sub-tasks that a confined agent may ask the host to run.
//!
//! This crate is the decision core. It holds no I/O: every function takes plain
//! values and returns plain values, and states what it returns.

pub mod board;
pub mod broker;
pub mod changes;
pub mod collect;
pub mod commands;
pub mod config;
pub mod credentials;
pub mod dashboard;
pub mod execution;
pub mod frontmatter;
pub mod globs;
pub mod host;
pub mod images;
pub mod inspect;
pub mod json;
pub mod launch;
pub mod manifest;
pub mod mounts;
pub mod notify;
pub mod orchestration;
pub mod order;
pub mod paths;
pub mod plan;
pub mod plan_document;
pub mod plan_run;
pub mod recap;
pub mod requests;
pub mod resident;
pub mod routing;
pub mod rpc;
pub mod run;
pub mod runner;
pub mod sandbox;
pub mod sessions;
pub mod task;
pub mod text;
pub mod transcripts;
