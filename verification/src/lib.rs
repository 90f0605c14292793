//! Client-side aggregation for Llama Logs, a tool that turns distributed
//! logs into a real time interactive graph.
//!
//! Logs are aggregated by (sender, receiver) and statistics by (component,
//! name) on the client, then collected into one request for the service.
pub mod aggregator;
pub mod args;
pub mod laws;
pub mod llama;
pub mod log;
pub mod proxy;
pub mod text;
pub mod types;
