//! Verified core of a CoolerControl device plugin that exposes TrueNAS disk
//! temperatures as temperature sources.
//!
//! The library holds the project's rules: configuration normalisation, the
//! TrueNAS WebSocket URL, the decisions of the JSON-RPC exchanges, the
//! extraction of disk temperatures from API replies, and the temperature cache
//! with its fail-safe behaviour. Sockets, files, timers and the gRPC server
//! stand outside it and call into it.

pub mod config;
pub mod json;
pub mod text;
pub mod temps;
pub mod service;
pub mod truenas;
