pub mod cli;
pub mod client;
pub mod config;
pub mod headers;
pub mod text;
