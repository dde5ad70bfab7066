//! A uniform capability over contiguous, sliceable collections.
//!
//! The sparse map stores values of any type that has a length and can be cut
//! with a half-open range. Byte buffers give it the semantics of a sparse
//! file; plain integers (a bare length) give it the semantics of an interval
//! set, which the engine uses to track which regions have been promised
//! without allocating bytes.

use vstd::prelude::*;

verus! {

/// A collection with a length representable as a `usize`, sliceable with a
/// half-open range. Its mathematical content is a sequence of elements.
pub trait ContiguousCollection: Sized {
    /// The mathematical element this collection is a sequence of.
    type Elem;

    /// The sequence of elements this collection holds.
    spec fn contents(&self) -> Seq<Self::Elem>;

    /// The length of this collection.
    fn len(&self) -> (n: usize)
        ensures
            n == self.contents().len(),
    ;

    /// Whether this collection holds no element.
    fn is_empty(&self) -> (r: bool)
        ensures
            r == (self.contents().len() == 0),
    ;

    /// A subset of this collection, possibly sharing its storage.
    fn slice(&self, start: usize, end: usize) -> (r: Self)
        requires
            start <= end <= self.contents().len(),
        ensures
            r.contents() == self.contents().subrange(start as int, end as int),
    ;

    /// An owned copy of a subset of this collection.
    fn slice_unshare(&self, start: usize, end: usize) -> (r: Self)
        requires
            start <= end <= self.contents().len(),
        ensures
            r.contents() == self.contents().subrange(start as int, end as int),
    ;
}

/// A bare length: the interval-set instance. A `usize` stands for that many
/// positions, and slicing it keeps only the length of the cut.
impl ContiguousCollection for usize {
    type Elem = ();

    open spec fn contents(&self) -> Seq<()> {
        Seq::new(*self as nat, |i: int| ())
    }

    fn len(&self) -> (n: usize)
        ensures
            n == self.contents().len(),
    {
        *self
    }

    fn is_empty(&self) -> (r: bool)
        ensures
            r == (self.contents().len() == 0),
    {
        *self == 0
    }

    fn slice(&self, start: usize, end: usize) -> (r: Self)
        ensures
            r.contents() == self.contents().subrange(start as int, end as int),
    {
        proof {
            assert(Seq::new((end - start) as nat, |i: int| ()) =~= self.contents().subrange(
                start as int,
                end as int,
            ));
        }
        end - start
    }

    fn slice_unshare(&self, start: usize, end: usize) -> (r: Self)
        ensures
            r.contents() == self.contents().subrange(start as int, end as int),
    {
        self.slice(start, end)
    }
}

} // verus!
