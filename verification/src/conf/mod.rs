//! Configuration of the service and of the command-line client.

pub mod api;
pub mod cli;
