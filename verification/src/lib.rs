//! A caching, streaming engine for range-addressable byte resources.
//!
//! A client asks for a whole resource or a byte range of it; the service
//! either streams the response straight from upstream when caching is
//! undesirable, or serves it from an in-memory byte cache that fills
//! progressively while the first caller streams the body.
//!
//! The core pieces are the sparse interval map that stores partially
//! downloaded bytes ([`sparse_map`]), the byte-weighted LRU cache with
//! per-entry expiry that decides which resources stay resident
//! ([`ttl_cache`]), the adaptive per-request reader that fuses cached bytes
//! with newly fetched bytes into one output stream ([`body_reader`]), and the
//! dispatcher that composes cache, readers and upstream ([`service`]).

pub mod ranges;
pub mod hole_tracker;
pub mod contiguous;
pub mod buffer;
pub mod sparse_map;
pub mod types;
pub mod ttl_cache;
pub mod blocks;
pub mod body_reader;
pub mod response_builder;
pub mod service;
pub mod http_range;
pub mod byte_range;
pub mod config;
pub mod signer;
