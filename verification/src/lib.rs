//! Core logic of the ai-memory store: query sanitisation, tier and
//! configuration resolution, and the decisions of the storage layer.

pub mod text;
pub mod fts;
pub mod validate;
pub mod config;
pub mod models;
pub mod store;
pub mod upsert;
pub mod access;
