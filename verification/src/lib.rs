//! Authentication and API-client authorization core of a model-serving
//! service: token issuance and parsing, credential hashing and verification,
//! a self/other-scoped permission bitset, an in-memory client store, and the
//! request-authorization gate that guards every endpoint.

pub mod auth;
pub mod client;
pub mod config;
pub mod error;
pub mod gate;
pub mod model;
pub mod permission;
pub mod scan;
pub mod task;
