//! Discovery, partial-header fetching, and content-addressed caching of
//! safetensors checkpoint shards, together with the tensor-table bookkeeping
//! built on top of the fetched headers.

pub mod header;
pub mod fetcher;
pub mod orchestrator;
pub mod resolver;
pub mod config;
pub mod models;
pub mod metadata;
