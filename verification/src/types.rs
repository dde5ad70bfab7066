//! Shared range types, errors and capability traits of the engine.

use crate::body_reader::BodyStream;
use crate::buffer::ByteBuffer;
use vstd::prelude::*;

verus! {

/// The byte range a caller requests, in one of exactly four shapes.
#[derive(Clone, Copy, PartialEq, Eq, Structural, Debug, Default)]
pub enum RequestRange {
    /// The entire resource.
    #[default]
    Whole,
    /// All bytes starting from this offset.
    AllFrom(usize),
    /// This many bytes at the end of the resource.
    Last(usize),
    /// The half-open range `[start, end)`; well-formed when `start <= end`.
    FromTo(usize, usize),
}

/// The range an upstream response actually carries: the total resource size
/// and the slice of it being returned.
#[derive(Clone, Copy, PartialEq, Eq, Structural, Debug, Default)]
pub struct ResponseRange {
    /// The total number of bytes in the resource.
    pub bytes_len: usize,
    /// The bytes being returned by this response.
    pub bytes_range: RequestRange,
}

impl ResponseRange {
    /// A cacheable response range: either the whole resource, or a
    /// `FromTo(s, e)` slice that fits inside `[0, bytes_len]`.
    pub open spec fn valid(&self) -> bool {
        match self.bytes_range {
            RequestRange::Whole => true,
            RequestRange::FromTo(s, e) => s <= e <= self.bytes_len,
            _ => false,
        }
    }
}

/// An error surfaced by the engine or carried in a body stream.
#[derive(Clone, Copy, PartialEq, Eq, Structural, Debug)]
pub enum StreamError {
    /// An upstream fetch issued to fill a hole answered `Passthrough` even
    /// though caching was already under way.
    InvalidUpstreamStatus,
    /// The upstream transport failed or delivered more bytes than announced.
    UpstreamTransport,
}

impl StreamError {
    /// A short description of the error.
    pub fn message(&self) -> (r: &'static str)
        ensures
            self is InvalidUpstreamStatus ==> r@ == "invalid upstream status"@,
            self is UpstreamTransport ==> r@ == "upstream transport error"@,
    {
        match self {
            StreamError::InvalidUpstreamStatus => "invalid upstream status",
            StreamError::UpstreamTransport => "upstream transport error",
        }
    }
}

/// A cheaply duplicable handle to a shared object. Duplication yields the
/// same handle, so contracts carry across it.
pub trait Handle: Sized {
    /// Another handle to the same object.
    fn dup(&self) -> (r: Self)
        ensures
            r == *self,
    ;
}

impl Handle for usize {
    fn dup(&self) -> (r: Self)
        ensures
            r == *self,
    {
        *self
    }
}

/// An ordered, duplicable identifier for cached resources, compared by its
/// mathematical view.
pub trait CacheKey: View + Sized {
    /// Whether two keys denote the same resource.
    fn key_eq(&self, other: &Self) -> (r: bool)
        ensures
            r == (self@ == other@),
    ;

    /// Another key denoting the same resource.
    fn key_dup(&self) -> (r: Self)
        ensures
            r@ == self@,
    ;
}

impl CacheKey for String {
    fn key_eq(&self, other: &Self) -> (r: bool)
        ensures
            r == (self@ == other@),
    {
        String::eq(self, other)
    }

    fn key_dup(&self) -> (r: Self)
        ensures
            r@ == self@,
    {
        self.clone()
    }
}


/// A lazy, finite source of body chunks, consumed by one reader. Upstream
/// transports implement it; nothing is promised of what an arbitrary source
/// yields, so every reader built over one states what holds of any outcome.
pub trait ByteSource {
    /// Pulls the next chunk, or `None` once the source is exhausted.
    fn next_chunk(&mut self) -> Option<Result<ByteBuffer, StreamError>>;
}

/// The cacheability verdict of one upstream fetch: a response of type `R`
/// with stored metadata of type `D`.
pub enum RequesterStatus<R, D> {
    /// Cache this response: the response itself, the range it carries, the
    /// expiry timepoint if any, and the metadata to store with it.
    Cache(R, ResponseRange, Option<u64>, D),
    /// Pass this response through without caching.
    Passthrough(R),
}

/// What a service answers: whether the response was served through the cache
/// or passed through untouched.
pub enum ServiceStatus<R> {
    /// The response was served through the cache.
    Cache(R),
    /// The response was passed through.
    Passthrough(R),
}

/// A repeatable upstream request bound to one resource. Implementations
/// answer `Cache` only with a response range that is valid for the resource:
/// the whole of it, or a `FromTo` slice inside it.
pub trait Requester<R, D>: Handle + Send + Sync + 'static {
    /// Fetches a fresh copy of the resource with the given range.
    fn fetch(&self, range: &RequestRange) -> (r: Result<RequesterStatus<R, D>, StreamError>)
        ensures
            match r {
                Result::Ok(status) => match status {
                    RequesterStatus::Cache(_, rr, _, _) => rr.valid(),
                    RequesterStatus::Passthrough(_) => true,
                },
                Result::Err(_) => true,
            },
    ;
}

/// A response the engine can take apart and rebuild: cacheable metadata plus
/// a body stream. The engine is generic over the concrete transport.
pub trait Response: Sized {
    /// Metadata stored alongside the cached resource (headers, status).
    type Data: Handle;

    /// The body stream carried by a response of this type.
    type Body: ByteSource;

    /// Builds a response from metadata, the range it carries, and a body
    /// produced by the engine.
    fn from_parts<Q: Requester<Self, Self::Data>>(
        data: Self::Data,
        range: ResponseRange,
        body: BodyStream<Self::Body, Q>,
    ) -> Self;

    /// Consumes the response into its body stream.
    fn into_body(self) -> Self::Body;
}

/// A stateless factory of requesters: given a key, it builds a requester
/// bound to that resource.
pub trait RequestBackend<K, R: Response>: Sized {
    /// The kind of requester this backend builds.
    type Req: Requester<R, R::Data>;

    /// Builds a new requester that fetches this key's resource.
    fn create_for_key(&self, key: &K) -> Self::Req;
}

} // verus!
