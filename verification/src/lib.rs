//! The verified core of the Watchtower log collection sidecar.
//!
//! Everything here works on plain values: sockets, files, the database and the
//! clock are left to the program around it.

pub mod batching;
pub mod calendar;
pub mod client;
pub mod config;
pub mod duration;
pub mod health;
pub mod http;
pub mod json;
pub mod laws;
pub mod metrics;
pub mod number;
pub mod pipeline;
pub mod proto;
pub mod server;
pub mod sink;
pub mod spillover;
pub mod text;
pub mod viewer;
