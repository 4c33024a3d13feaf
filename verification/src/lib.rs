//! An instant-messaging backend: the rules by which messages are stored, read,
//! counted and cleaned up.

pub mod auth;
pub mod benchmark;
pub mod cache;
pub mod calendar;
pub mod clean;
pub mod config;
pub mod counter;
pub mod error;
pub mod filter;
pub mod keyspace;
pub mod laws;
pub mod lookup;
pub mod message;
pub mod migrate;
pub mod order;
pub mod oss;
pub mod postgres;
pub mod provision;
pub mod read;
pub mod save;
pub mod shard;
pub mod store;
pub mod stream;
pub mod text;
pub mod update;
pub mod walk;
