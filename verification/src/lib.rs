//! Data model, queries and scheduling rules for orbs: durable work items kept in
//! append-only logs.

pub mod text;
pub mod sha256;
pub mod digits;
pub mod id;
pub mod time;
pub mod uuid;
pub mod task;
pub mod review;
pub mod orb;
pub mod log;
pub mod lists;
pub mod orb_store;
pub mod store;
pub mod dep;
pub mod graph;
pub mod blocking;
pub mod schedule;
pub mod dep_store;
pub mod tree;
pub mod trace;
pub mod session;
pub mod paths;
pub mod session_store;
pub mod dated;
pub mod audit;
pub mod audit_store;
pub mod jsonl;
pub mod pipeline;
pub mod labels;
pub mod names;
pub mod commands;
pub mod render;
