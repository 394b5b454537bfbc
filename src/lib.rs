//! A read-only projection of a flat object store as a hierarchical filesystem:
//! the path codec, the known-directory registry, directory synthesis from a key
//! listing, metadata resolution and ranged reads.
pub mod client;
pub mod codec;
pub mod config;
pub mod entry;
pub mod error;
pub mod metadata;
pub mod range;
pub mod registry;
pub mod synth;
