pub mod types;
pub mod text;
pub mod classifier;
pub mod ai;
pub mod git;
pub mod digest;
pub mod diff;
pub mod config;
pub mod session;
pub mod cli;
