//! Building per-range responses for one cached resource.
//!
//! A builder is created on a cache miss from the first upstream response. It
//! holds the resource's total size, the cloneable response metadata, a handle
//! to upstream and the shared byte map. Every later request for any range of
//! the resource gets a fresh response whose body streams cached bytes and
//! fetches holes from upstream.

use crate::blocks::Blocks;
use crate::body_reader::AdaptiveReader;
use crate::types::{Handle, Requester, RequestRange, Response, ResponseRange};
use vstd::prelude::*;

verus! {

/// Builds responses for one resource from its cached bytes and upstream.
pub struct ResponseBuilder<R: Response, Q: Requester<R, R::Data>> {
    requester: Q,
    size: usize,
    data: R::Data,
    blocks: Blocks,
}

impl<R: Response, Q: Requester<R, R::Data>> ResponseBuilder<R, Q> {
    /// The total size in bytes of the resource this builder serves.
    pub closed spec fn spec_size(&self) -> usize {
        self.size
    }

    /// Creates a builder from the first upstream response, and the response
    /// to hand to the first caller: its body is the upstream body, teed into
    /// the builder's fresh byte map as the caller reads it.
    pub fn new(response: R, range: &ResponseRange, data: R::Data, requester: Q) -> (r: (R, Self))
        requires
            range.valid(),
        ensures
            r.1.spec_size() == range.bytes_len,
    {
        let this = ResponseBuilder { requester, size: range.bytes_len, data, blocks: Blocks::new() };
        let reader = AdaptiveReader::new_from_body_stream(this.blocks.dup(), response.into_body());
        let first = this.stream_with_reader(&range.bytes_range, reader);
        (first, this)
    }

    /// A new response for the given range, clipped to the resource size. Its
    /// body serves cached bytes and issues at most one upstream fetch per
    /// contiguous hole it meets.
    pub fn stream(&self, range: &RequestRange) -> R {
        let reader = AdaptiveReader::new_adaptive(self.requester.dup(), self.blocks.dup());
        self.stream_with_reader(range, reader)
    }

    /// Assembles a response from the template metadata, the clipped range and
    /// a reader.
    fn stream_with_reader(&self, range: &RequestRange, reader: AdaptiveReader<R::Body, Q>) -> R {
        let (start, end) = get_start_and_end(self.size, range);
        let out_range = ResponseRange {
            bytes_len: self.size,
            bytes_range: RequestRange::FromTo(start, end),
        };
        R::from_parts(self.data.dup(), out_range, reader.into_stream(start, end))
    }
}

impl<R: Response, Q: Requester<R, R::Data>> Handle for ResponseBuilder<R, Q> {
    fn dup(&self) -> (r: Self)
        ensures
            r == *self,
    {
        ResponseBuilder {
            requester: self.requester.dup(),
            size: self.size,
            data: self.data.dup(),
            blocks: self.blocks.dup(),
        }
    }
}

/// Clips a request range to a resource of `size` bytes, yielding the bounded
/// byte positions `[start, end)` that will be streamed. A whole-resource
/// request spans everything; `AllFrom` and `FromTo` clip their offsets to the
/// size; `Last(n)` takes the final `min(n, size)` bytes, so asking for at
/// least the whole resource yields exactly the whole resource.
pub fn get_start_and_end(size: usize, range: &RequestRange) -> (r: (usize, usize))
    ensures
        r.1 <= size,
        r.0 <= size,
        match *range {
            RequestRange::Whole => r.0 == 0 && r.1 == size,
            RequestRange::AllFrom(s) => r.0 == vstd::math::min(s as int, size as int) && r.1
                == size,
            RequestRange::Last(n) => r.0 == size - vstd::math::min(n as int, size as int) && r.1
                == size,
            RequestRange::FromTo(s, e) => r.0 == vstd::math::min(s as int, size as int) && r.1
                == vstd::math::min(e as int, size as int),
        },
{
    match *range {
        RequestRange::Whole => (0, size),
        RequestRange::AllFrom(s) => (if s < size { s } else { size }, size),
        RequestRange::Last(n) => (size - (if n < size { n } else { size }), size),
        RequestRange::FromTo(s, e) => (
            if s < size { s } else { size },
            if e < size { e } else { size },
        ),
    }
}

} // verus!
