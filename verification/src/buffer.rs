//! A shared, reference-counted byte buffer.
//!
//! The storage is `bytes::Bytes`, so slicing is cheap and many readers can
//! hold views of the same bytes. Verification sees the buffer through one
//! name, `bytes_contents`, and the trusted methods below state how each
//! `bytes::Bytes` call relates to it.

use crate::contiguous::ContiguousCollection;
use vstd::prelude::*;

verus! {

#[verifier::external_type_specification]
#[verifier::external_body]
pub struct ExBytes(bytes::Bytes);

/// The bytes a `bytes::Bytes` buffer holds.
pub uninterp spec fn bytes_contents(b: bytes::Bytes) -> Seq<u8>;

/// A refcounted byte buffer; cloning and slicing share the underlying storage.
pub struct ByteBuffer {
    pub data: bytes::Bytes,
}

impl View for ByteBuffer {
    type V = Seq<u8>;

    open spec fn view(&self) -> Seq<u8> {
        bytes_contents(self.data)
    }
}

impl ByteBuffer {
    /// Relies on `bytes::Bytes::from(Vec<u8>)`: the buffer holds exactly the
    /// vector's bytes.
    #[verifier::external_body]
    pub fn from_vec(v: Vec<u8>) -> (r: ByteBuffer)
        ensures
            bytes_contents(r.data) == v@,
    {
        ByteBuffer { data: bytes::Bytes::from(v) }
    }

    /// Relies on `Vec::<u8>::from(bytes::Bytes)`: the vector holds exactly the
    /// buffer's bytes.
    #[verifier::external_body]
    pub fn to_vec(&self) -> (r: Vec<u8>)
        ensures
            r@ == bytes_contents(self.data),
    {
        Vec::from(self.data.clone())
    }

    /// Relies on `bytes::Bytes::len`: the number of bytes in the buffer.
    #[verifier::external_body]
    pub fn byte_len(&self) -> (n: usize)
        ensures
            n == bytes_contents(self.data).len(),
    {
        self.data.len()
    }

    /// Relies on `bytes::Bytes::slice`: a view of the bytes in `start..end`,
    /// sharing the same storage.
    #[verifier::external_body]
    pub fn share_slice(&self, start: usize, end: usize) -> (r: ByteBuffer)
        requires
            start <= end <= self@.len(),
        ensures
            bytes_contents(r.data) == bytes_contents(self.data).subrange(start as int, end as int),
    {
        ByteBuffer { data: self.data.slice(start..end) }
    }

    /// Relies on `bytes::Bytes::copy_from_slice`: an owned copy of the bytes
    /// in `start..end`.
    #[verifier::external_body]
    pub fn copy_slice(&self, start: usize, end: usize) -> (r: ByteBuffer)
        requires
            start <= end <= self@.len(),
        ensures
            bytes_contents(r.data) == bytes_contents(self.data).subrange(start as int, end as int),
    {
        ByteBuffer { data: bytes::Bytes::copy_from_slice(&self.data[start..end]) }
    }

    /// Relies on `bytes::Bytes::clone`: another handle to the same bytes.
    #[verifier::external_body]
    pub fn dup(&self) -> (r: ByteBuffer)
        ensures
            bytes_contents(r.data) == bytes_contents(self.data),
    {
        ByteBuffer { data: self.data.clone() }
    }
}

/// The sparse-file instance: a sequence of bytes.
impl ContiguousCollection for ByteBuffer {
    type Elem = u8;

    open spec fn contents(&self) -> Seq<u8> {
        self@
    }

    fn len(&self) -> (n: usize)
        ensures
            n == self.contents().len(),
    {
        self.byte_len()
    }

    fn is_empty(&self) -> (r: bool)
        ensures
            r == (self.contents().len() == 0),
    {
        self.byte_len() == 0
    }

    fn slice(&self, start: usize, end: usize) -> (r: Self)
        ensures
            r.contents() == self.contents().subrange(start as int, end as int),
    {
        self.share_slice(start, end)
    }

    fn slice_unshare(&self, start: usize, end: usize) -> (r: Self)
        ensures
            r.contents() == self.contents().subrange(start as int, end as int),
    {
        self.copy_slice(start, end)
    }
}

} // verus!
