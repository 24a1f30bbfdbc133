//! Verified core of MeshNet, a local-network file transfer tool.

pub mod cli;
pub mod completer;
pub mod list;
pub mod order;
pub mod send;
pub mod serve;
pub mod text;
