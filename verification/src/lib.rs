//! A semantic cache for chat completions: what the proxy decides and computes.
pub mod bytes;
pub mod coalescing;
pub mod config;
pub mod digest;
pub mod embeddings;
pub mod endpoints;
pub mod json;
pub mod metrics;
pub mod models;
pub mod point;
pub mod proxy;
pub mod score;
pub mod state;
pub mod text;
pub mod vector_store;
