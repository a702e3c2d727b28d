//! Verified core of the Agent Skills tooling.

pub mod text;
pub mod skill;
pub mod validator;
pub mod repo;
pub mod sources;
pub mod paths;
pub mod archiver;
pub mod order;
pub mod pipeline;
pub mod releases;
pub mod mcp;
pub mod cli;
pub mod store;
