//! Body readers: cached blocks, upstream streams, tee, and the adaptive
//! reader that fuses them.
//!
//! A block reader pulls from the shared byte map and exhausts at the first
//! hole. A stream reader consumes an upstream body. A tee reader writes each
//! upstream chunk into the shared map before yielding it, so later readers of
//! the same resource find the bytes cached; because `put_new` never
//! overwrites, overlapping tees are idempotent. The adaptive reader starts on
//! cached blocks and, on a hole, issues one bounded upstream fetch for the
//! rest of the range and continues through a tee.
//!
//! Every reader advances a caller-owned offset by exactly the length of the
//! chunk it yields and never past `end`.

use crate::blocks::Blocks;
use crate::buffer::ByteBuffer;
use crate::types::{ByteSource, Handle, Requester, RequesterStatus, RequestRange, Response,
    StreamError};
use vstd::prelude::*;

verus! {

/// Pulls from a shared byte map; exhausts when nothing is mapped at the
/// current offset.
pub struct BlockBodyReader {
    blocks: Blocks,
}

impl BlockBodyReader {
    /// The shared map this reader pulls from.
    pub closed spec fn spec_blocks(&self) -> Blocks {
        self.blocks
    }

    pub fn new(blocks: Blocks) -> (r: Self)
        ensures
            r.spec_blocks() == blocks,
    {
        BlockBodyReader { blocks }
    }

    /// Pulls cached bytes at `*offset`. On a hit the offset advances by the
    /// returned chunk's length, staying within `end`; on a miss nothing
    /// changes and nothing is returned.
    pub fn next(&self, offset: &mut usize, end: usize) -> (r: Option<ByteBuffer>)
        requires
            *old(offset) < end,
        ensures
            match r {
                Option::Some(b) => {
                    &&& 0 < b@.len()
                    &&& *final(offset) == *old(offset) + b@.len()
                    &&& *final(offset) <= end
                },
                Option::None => *final(offset) == *old(offset),
            },
    {
        match self.blocks.get(*offset, end - *offset) {
            Some(b) => {
                let l = b.byte_len();
                *offset = *offset + l;
                Some(b)
            },
            None => None,
        }
    }

    /// Consumes the reader back into its shared map handle.
    pub fn into_inner(self) -> (r: Blocks)
        ensures
            r == self.spec_blocks(),
    {
        self.blocks
    }
}

/// Decides the fate of one pulled chunk: a chunk that fits before `end` is
/// forwarded exactly as it came and advances the offset by its length; a
/// chunk that would overshoot `end` — more bytes than the resource announced
/// — fails the stream with a transport error and leaves the offset alone.
fn accept_chunk(b: ByteBuffer, offset: &mut usize, end: usize) -> (r: Option<
    Result<ByteBuffer, StreamError>,
>)
    requires
        *old(offset) <= end,
    ensures
        b@.len() <= end - *old(offset) ==> r == Option::Some(
            Result::<ByteBuffer, StreamError>::Ok(b),
        ) && *final(offset) == *old(offset) + b@.len(),
        b@.len() > end - *old(offset) ==> r == Option::Some(
            Result::<ByteBuffer, StreamError>::Err(StreamError::UpstreamTransport),
        ) && *final(offset) == *old(offset),
{
    let l = b.byte_len();
    if l > end - *offset {
        Some(Err(StreamError::UpstreamTransport))
    } else {
        *offset = *offset + l;
        Some(Ok(b))
    }
}

/// Consumes an upstream body stream; exhausts when the stream does.
pub struct StreamBodyReader<S: ByteSource> {
    stream: S,
}

impl<S: ByteSource> StreamBodyReader<S> {
    pub fn new(stream: S) -> Self {
        StreamBodyReader { stream }
    }

    /// Pulls the next upstream chunk. A chunk advances the offset by its
    /// length; a chunk that would overshoot `end` fails the stream instead,
    /// so the offset never passes `end`.
    pub fn next(&mut self, offset: &mut usize, end: usize) -> (r: Option<
        Result<ByteBuffer, StreamError>,
    >)
        requires
            *old(offset) <= end,
        ensures
            match r {
                Option::Some(Result::Ok(b)) => {
                    &&& *final(offset) == *old(offset) + b@.len()
                    &&& *final(offset) <= end
                },
                Option::Some(Result::Err(_)) => *final(offset) == *old(offset),
                Option::None => *final(offset) == *old(offset),
            },
    {
        match self.stream.next_chunk() {
            None => None,
            Some(Err(e)) => Some(Err(e)),
            Some(Ok(b)) => accept_chunk(b, offset, end),
        }
    }
}

/// Pipes an upstream body into the shared byte map while yielding it.
pub struct TeeBodyReader<S: ByteSource> {
    blocks: Blocks,
    stream_reader: StreamBodyReader<S>,
}

impl<S: ByteSource> TeeBodyReader<S> {
    pub fn new(blocks: Blocks, stream: S) -> Self {
        TeeBodyReader { blocks, stream_reader: StreamBodyReader::new(stream) }
    }

    /// Pulls the next upstream chunk, writes it into the shared map at the
    /// pre-advance offset, and yields it. Already-cached sub-ranges keep
    /// their bytes, which makes overlapping tees idempotent.
    pub fn next(&mut self, offset: &mut usize, end: usize) -> (r: Option<
        Result<ByteBuffer, StreamError>,
    >)
        requires
            *old(offset) <= end,
        ensures
            match r {
                Option::Some(Result::Ok(b)) => {
                    &&& *final(offset) == *old(offset) + b@.len()
                    &&& *final(offset) <= end
                },
                Option::Some(Result::Err(_)) => *final(offset) == *old(offset),
                Option::None => *final(offset) == *old(offset),
            },
    {
        let current = *offset;
        match self.stream_reader.next(offset, end) {
            Some(Ok(b)) => {
                self.blocks.put_new(current, b.dup());
                Some(Ok(b))
            },
            Some(Err(e)) => Some(Err(e)),
            None => None,
        }
    }
}

/// Turns one hole-fill answer into a reader: a cacheable response's body is
/// teed into the shared map; a passthrough answer denies caching after it has
/// begun, which fails the fill; an upstream error fails the fill with that
/// error.
fn tee_from_status<R: Response, D>(
    status: Result<RequesterStatus<R, D>, StreamError>,
    blocks: Blocks,
) -> (r: Result<TeeBodyReader<R::Body>, StreamError>)
    ensures
        status matches Result::Ok(RequesterStatus::Passthrough(_)) ==> r == Result::<
            TeeBodyReader<R::Body>,
            StreamError,
        >::Err(StreamError::InvalidUpstreamStatus),
        status matches Result::Ok(RequesterStatus::Cache(..)) ==> r is Ok,
        status matches Result::Err(e) ==> r == Result::<
            TeeBodyReader<R::Body>,
            StreamError,
        >::Err(e),
{
    match status {
        Err(e) => Err(e),
        Ok(RequesterStatus::Passthrough(_)) => Err(StreamError::InvalidUpstreamStatus),
        Ok(RequesterStatus::Cache(resp, _, _, _)) => Ok(
            TeeBodyReader::new(blocks, resp.into_body()),
        ),
    }
}

/// Issues one upstream fetch for `[start, end)` and hands the verdict to
/// [`tee_from_status`].
fn make_tee_reader<R: Response, Q: Requester<R, R::Data>>(
    requester: &Q,
    blocks: Blocks,
    start: usize,
    end: usize,
) -> Result<TeeBodyReader<R::Body>, StreamError> {
    tee_from_status::<R, R::Data>(requester.fetch(&RequestRange::FromTo(start, end)), blocks)
}

/// A reader that serves cached blocks and, at the first hole, fetches the
/// remaining range from upstream once, teeing it into the shared map.
pub enum AdaptiveReader<B: ByteSource, Q> {
    /// Serving cached bytes; falls back to an upstream fetch on a hole.
    Block(Q, BlockBodyReader),
    /// Streaming an upstream body while teeing it into the shared map.
    Tee(TeeBodyReader<B>),
    /// Transient marker while ownership moves between states; a reader in
    /// this state yields nothing.
    Error,
}

impl<B: ByteSource, Q> AdaptiveReader<B, Q> {
    /// A reader that starts on cached blocks (used for every request after
    /// the first).
    pub fn new_adaptive(requester: Q, blocks: Blocks) -> Self {
        AdaptiveReader::Block(requester, BlockBodyReader::new(blocks))
    }

    /// A reader that starts on an upstream body and tees it (used for the
    /// first, authoritative response).
    pub fn new_from_body_stream(blocks: Blocks, stream: B) -> Self {
        AdaptiveReader::Tee(TeeBodyReader::new(blocks, stream))
    }

    /// Pulls the next chunk: cached bytes while they last, then one upstream
    /// fetch for `[*offset, end)` continued through a tee. A yielded chunk
    /// advances the offset by its length and never past `end`.
    pub fn next<R: Response<Body = B>>(&mut self, offset: &mut usize, end: usize) -> (r: Option<
        Result<ByteBuffer, StreamError>,
    >) where Q: Requester<R, R::Data>
        requires
            *old(offset) < end,
        ensures
            match r {
                Option::Some(Result::Ok(b)) => {
                    &&& *final(offset) == *old(offset) + b@.len()
                    &&& *final(offset) <= end
                },
                Option::Some(Result::Err(_)) => *final(offset) == *old(offset),
                Option::None => *final(offset) == *old(offset),
            },
    {
        let mut taken = AdaptiveReader::Error;
        core::mem::swap(&mut taken, self);
        let mut tee = match taken {
            AdaptiveReader::Error => {
                return None;
            },
            AdaptiveReader::Tee(t) => t,
            AdaptiveReader::Block(requester, reader) => {
                match reader.next(offset, end) {
                    Some(b) => {
                        *self = AdaptiveReader::Block(requester, reader);
                        return Some(Ok(b));
                    },
                    None => {
                        match make_tee_reader::<R, Q>(
                            &requester,
                            reader.into_inner(),
                            *offset,
                            end,
                        ) {
                            Err(e) => {
                                return Some(Err(e));
                            },
                            Ok(t) => t,
                        }
                    },
                }
            },
        };
        let result = tee.next(offset, end);
        *self = AdaptiveReader::Tee(tee);
        result
    }

    /// Consumes the reader into a lazy stream of chunks over `[start, end)`;
    /// a `start` at or past `end` gives the empty stream.
    pub fn into_stream(self, start: usize, end: usize) -> (r: BodyStream<B, Q>)
        ensures
            r.spec_offset() == start,
            r.spec_end() == end,
    {
        BodyStream::new(self, start, end)
    }
}

/// A lazy, finite stream of body chunks: an adaptive reader folded over a
/// half-open range of the resource.
pub struct BodyStream<B: ByteSource, Q> {
    reader: AdaptiveReader<B, Q>,
    offset: usize,
    end: usize,
}

impl<B: ByteSource, Q> BodyStream<B, Q> {
    /// The stream's current position.
    pub closed spec fn spec_offset(&self) -> usize {
        self.offset
    }

    /// The stream's end position.
    pub closed spec fn spec_end(&self) -> usize {
        self.end
    }

    /// A stream over `[start, end)`; when `start >= end` the stream is empty
    /// from the outset.
    pub fn new(reader: AdaptiveReader<B, Q>, start: usize, end: usize) -> (r: Self)
        ensures
            r.spec_offset() == start,
            r.spec_end() == end,
    {
        BodyStream { reader, offset: start, end }
    }

    /// Pulls the next chunk. A stream whose position has reached its end
    /// yields nothing and issues no upstream fetch; a chunk advances the
    /// position by its length, never past the end; an error moves the
    /// position to the end, terminating the stream.
    pub fn next<R: Response<Body = B>>(&mut self) -> (r: Option<Result<ByteBuffer, StreamError>>)
        where Q: Requester<R, R::Data>
        ensures
            final(self).spec_end() == old(self).spec_end(),
            old(self).spec_offset() >= old(self).spec_end() ==> r is None,
            match r {
                Option::Some(Result::Ok(b)) => {
                    &&& final(self).spec_offset() == old(self).spec_offset() + b@.len()
                    &&& final(self).spec_offset() <= final(self).spec_end()
                },
                Option::Some(Result::Err(_)) => final(self).spec_offset() == final(self).spec_end(),
                Option::None => final(self).spec_offset() == old(self).spec_offset(),
            },
    {
        if self.offset >= self.end {
            return None;
        }
        let mut off = self.offset;
        let r = self.reader.next::<R>(&mut off, self.end);
        match r {
            None => None,
            Some(Err(e)) => {
                self.offset = self.end;
                Some(Err(e))
            },
            Some(Ok(b)) => {
                self.offset = off;
                Some(Ok(b))
            },
        }
    }
}

} // verus!
