//! What a server keeps for each connection, and what it decides about
//! connections.

pub mod admission;
pub mod connection;
