//! A bridge from Kafka Connect's REST status API to Prometheus text exposition.
pub mod cache;
pub mod config;
pub mod endpoint;
pub mod render;
pub mod status;
pub mod text;
