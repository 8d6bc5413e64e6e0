//! A replicated in-memory key/value store that forms an ad-hoc peer cluster.
//!
//! Peers discover one another over multicast, keep pairwise sessions over a
//! framed binary wire protocol, and replicate write commands through a Raft
//! consensus group so that every live peer converges on the same database
//! state.  This crate holds the control plane's data structures and rules:
//! the frame codec, the command model and its wire encoding, the database,
//! the node-lifecycle table, the in-process message bus, and the decision
//! logic that drives the consensus loop and the command server.

pub mod bits;
pub mod cluster;
pub mod cmd_server;
pub mod command;
pub mod config;
pub mod connection;
pub mod db;
pub mod discover;
pub mod node;
pub mod postman;
pub mod protocol;
pub mod runtime;
pub mod until;
pub mod wire;
