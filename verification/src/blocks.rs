//! A thread-safe, shared handle to one resource's sparse byte map.
//!
//! One `Blocks` is created per cached resource. The builder that tees the
//! first upstream body into it and every later per-range reader hold
//! duplicates of the same handle, so bytes written by any of them become
//! visible to all. The map lives behind a verified reader-writer lock whose
//! predicate is the map's well-formedness, held only for the duration of one
//! `get` or `put_new`.
//!
//! Because other handles may write between two calls, the contracts here
//! state only what holds of every outcome; the full functional behaviour of
//! the map itself is verified on [`SparseMap`].

use crate::buffer::ByteBuffer;
use crate::sparse_map::{covers, in_block, lemma_cover_unique, SparseMap};
use crate::types::Handle;
use std::sync::Arc;
use vstd::prelude::*;
use vstd::rwlock::RwLock;

verus! {

/// The lock predicate of a shared byte map: it is always well-formed.
pub open spec fn blocks_inv() -> spec_fn(SparseMap<ByteBuffer>) -> bool {
    |m: SparseMap<ByteBuffer>| m.wf()
}

/// A shared handle to a sparse map of byte buffers behind a reader-writer
/// lock. Duplicating the handle shares the underlying map.
pub struct Blocks {
    map: Arc<RwLock<SparseMap<ByteBuffer>, spec_fn(SparseMap<ByteBuffer>) -> bool>>,
}

impl Blocks {
    #[verifier::type_invariant]
    spec fn ty_inv(&self) -> bool {
        (*self.map).pred() == blocks_inv()
    }

    /// A fresh handle to a new, empty map.
    pub fn new() -> (r: Blocks) {
        let map = SparseMap::default();
        let lock = RwLock::new(map, Ghost(blocks_inv()));
        Blocks { map: Arc::new(lock) }
    }

    /// Looks up `offset` in the shared map. Whatever the map holds at the
    /// moment of the call, the result is either nothing or a non-empty
    /// buffer of at most `max_size` bytes.
    pub fn get(&self, offset: usize, max_size: usize) -> (r: Option<ByteBuffer>)
        ensures
            match r {
                Option::Some(b) => 0 < b@.len() <= max_size,
                Option::None => true,
            },
    {
        proof {
            use_type_invariant(self);
        }
        let handle = self.map.acquire_read();
        let r = handle.borrow().get(offset, max_size);
        proof {
            let m = handle.view();
            if r is Some {
                let o = offset as int;
                assert(covers(m@, o));
                let i = choose|i: int| 0 <= i < m@.len() && in_block(#[trigger] m@[i], o);
                lemma_cover_unique(m@, o, i);
            }
        }
        handle.release_read();
        r
    }

    /// Maps `data` at `offset` in the shared map through
    /// [`SparseMap::put_new`]; sub-ranges already present are kept as they
    /// are (first writer wins). A region that would extend past the address
    /// space is ignored.
    pub fn put_new(&self, offset: usize, data: ByteBuffer) {
        proof {
            use_type_invariant(self);
        }
        let (mut map, handle) = self.map.acquire_write();
        if offset <= usize::MAX - data.byte_len() {
            map.put_new(offset, data);
        }
        handle.release_write(map);
    }

    /// Relies on `Arc::clone`: the duplicate shares the same underlying map,
    /// so as a value it is the same handle.
    #[verifier::external_body]
    fn clone_handle(&self) -> (r: Blocks)
        ensures
            r == *self,
    {
        Blocks { map: Arc::clone(&self.map) }
    }
}

impl Handle for Blocks {
    fn dup(&self) -> (r: Self)
        ensures
            r == *self,
    {
        self.clone_handle()
    }
}

} // verus!
