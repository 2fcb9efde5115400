//! Control-plane logic of the Agentic File System.
pub mod text;
pub mod paths;
pub mod history;
pub mod protocol;
pub mod client;
pub mod conversation;
pub mod delegation;
pub mod fake_runtime;
pub mod git;
pub mod prompt;
pub mod rpc;
pub mod subtree;
pub mod supervisor;
pub mod waiting;
