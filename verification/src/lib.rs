//! Verified core of a command-line client for Model Context Protocol servers.

pub mod assoc;
pub mod boundary;
pub mod bytes;
pub mod config;
pub mod connection;
pub mod daemon;
pub mod domain;
pub mod error;
pub mod json;
pub mod order;
pub mod output;
pub mod policy;
pub mod runtime;
pub mod text;
pub mod time;
pub mod unix_path;
