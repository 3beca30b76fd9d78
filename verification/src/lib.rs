//! Interface layer of the Mueller project-management agent: turns command-line
//! subcommands, free-text queries and Slack messages into one prompt payload.

pub mod text;
pub mod unicode;
pub mod types;
pub mod normalizer;
pub mod cli;
pub mod cli_adapter;
pub mod slack_adapter;
pub mod config;
pub mod agent;
pub mod auth;
pub mod observability;
pub mod dispatch;
