//! Structural schemas for RPC messages, their canonical encoding and stable
//! hash, and the hash-discriminated framing built on top of them.
pub mod schema;
pub mod canonical;
pub mod render;
pub mod display;
pub mod codec;
pub mod dispatch;
pub mod has_schema;
pub mod declare;

pub use canonical::SchemaAndHash;
pub use has_schema::HasSchema;
pub use schema::{Named, Schema};
