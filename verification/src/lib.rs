//! Decision logic of the hex harness.
#![allow(unused_imports)]

pub mod assets;
pub mod assistant;
pub mod calendar;
pub mod cli;
pub mod comments;
pub mod doctor;
pub mod failures;
pub mod harness;
pub mod hook;
pub mod json;
pub mod lists;
pub mod llm_config;
pub mod log_tail;
pub mod memory;
pub mod messaging;
pub mod order;
pub mod paths;
pub mod scipd;
pub mod server;
pub mod stamp;
pub mod telemetry;
pub mod text;
pub mod version;
