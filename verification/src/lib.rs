//! Configuration handling and presence-state logic for a Discord rich presence client.

pub mod text;
pub mod config;
pub mod roundtrip;
pub mod rpc;
pub mod cli;
pub mod laws;
