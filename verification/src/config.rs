//! Runtime settings of the proxy.

use vstd::prelude::*;

verus! {

/// The proxy's settings: where to fetch from, where to listen, and the two
/// cache sizes in MiB.
pub struct Config {
    /// Base URL to fetch against.
    pub url: String,
    /// Address to bind to for serving.
    pub bind_address: String,
    /// Total capacity of the cache, in MiB.
    pub capacity: usize,
    /// Largest size for which an object can be cached, in MiB; larger
    /// objects are passed through instead.
    pub limit: usize,
}

} // verus!
