//! A content-addressed paste store.
//!
//! Uploads are streamed into a private staging area while a digest of the
//! bytes is computed incrementally; committing an upload makes the bytes
//! visible under their digest, deduplicating equal content. A human-chosen
//! alias can be bound to a digest and rebound later; reference counts track
//! how many aliases point at each object.

pub mod alias;
pub mod byteops;
pub mod digest;
pub mod errors;
pub mod hex;
pub mod name;
pub mod service;
pub mod staging;
pub mod store;
