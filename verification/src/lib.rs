//! Dynamic RPC invocation engine.
//!
//! The library resolves a remote service's schema through a reflection
//! exchange, navigates the resolved schema to a method descriptor, converts
//! JSON request bodies to protobuf wire bytes (and responses back to JSON)
//! through a descriptor-driven codec, frames outbound requests with routing
//! and authentication metadata, and makes the unary / server-streaming
//! dispatch decisions for a single call.
//!
//! The transport itself (connection setup, the reflection exchange, the
//! actual send/receive) is a collaborator: callers hand the raw frames they
//! received to this library and send the frames it builds.
pub mod invoke;
pub mod metadata;
pub mod pool;
pub mod schema;
pub mod reflection;
pub mod wire;
