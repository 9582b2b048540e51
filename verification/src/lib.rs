//! Queries against Grafana Loki and Prometheus: what to ask, how to read the
//! answer, and how to put it in front of a reader.

pub mod backend;
pub mod config;
pub mod laws;
pub mod loki;
pub mod map;
pub mod number;
pub mod prometheus;
pub mod server;
pub mod text;
pub mod time;
