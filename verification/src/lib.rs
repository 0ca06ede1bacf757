//! Gofer: the core of a container-pipeline orchestrator, with its proofs.
//!
//! The crate holds the data model, the identifier rules, the storage engine's
//! semantics and the run scheduler's decisions, each with a machine-checked
//! contract. Sockets, the database file and the container runtime are driven
//! by the program around this library.

pub mod api;
pub mod codec;
pub mod conf;
pub mod graph;
pub mod models;
pub mod orchestrator;
pub mod scheduler;
pub mod storage;
pub mod string_map;
pub mod text;
