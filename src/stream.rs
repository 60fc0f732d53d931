//! Single-stream hashing in chunks, with points where the caller may yield
//! to its scheduler.
use vstd::prelude::*;
use vstd::slice::slice_subrange;
use crate::digest::{absorbed, hasher_finalize, hasher_new, hasher_update, md5_of, Md5State};

verus! {

/// Inputs up to this many bytes are absorbed in one piece.
pub const SMALL_INPUT_LIMIT: usize = 524288;

/// Inputs above this many bytes are absorbed in large chunks.
pub const LARGE_INPUT_LIMIT: usize = 10485760;

/// Chunk size for inputs above `SMALL_INPUT_LIMIT` up to `LARGE_INPUT_LIMIT`.
pub const MEDIUM_CHUNK: usize = 131072;

/// Chunk size for inputs above `LARGE_INPUT_LIMIT`.
pub const LARGE_CHUNK: usize = 262144;

/// The hasher offers to yield each time this many bytes have been absorbed.
pub const YIELD_INTERVAL: usize = 2097152;

/// The chunk size for an input of `len` bytes: a performance policy only,
/// the digest does not depend on it.
pub open spec fn chunk_size_for(len: nat) -> nat {
    if len > LARGE_INPUT_LIMIT {
        LARGE_CHUNK as nat
    } else if len > SMALL_INPUT_LIMIT {
        MEDIUM_CHUNK as nat
    } else {
        len
    }
}

/// Returns the chunk size for an input of `len` bytes.
pub fn stream_chunk_size(len: usize) -> (r: usize)
    ensures
        r == chunk_size_for(len as nat),
{
    if len > LARGE_INPUT_LIMIT {
        LARGE_CHUNK
    } else if len > SMALL_INPUT_LIMIT {
        MEDIUM_CHUNK
    } else {
        len
    }
}

/// Feeds one input through a single running MD5 state, a chunk per step.
pub struct CooperativeHasher {
    state: Md5State,
    processed: usize,
    chunk_size: usize,
}

impl CooperativeHasher {
    /// How many bytes of the input have been absorbed.
    pub closed spec fn spec_processed(&self) -> nat {
        self.processed as nat
    }

    /// The bytes absorbed so far.
    pub closed spec fn spec_absorbed(&self) -> Seq<u8> {
        absorbed(self.state)
    }

    /// How many bytes a step absorbs at most.
    pub closed spec fn spec_chunk_size(&self) -> nat {
        self.chunk_size as nat
    }

    /// A hasher at the start of an input, absorbing `chunk_size` bytes a step.
    pub fn with_chunk_size(chunk_size: usize) -> (r: CooperativeHasher)
        requires
            chunk_size > 0,
        ensures
            r.spec_processed() == 0,
            r.spec_absorbed() == Seq::<u8>::empty(),
            r.spec_chunk_size() == chunk_size,
    {
        CooperativeHasher { state: hasher_new(), processed: 0, chunk_size }
    }

    /// A hasher at the start of a non-empty input of `len` bytes, with the
    /// chunk size that the size policy picks.
    pub fn new(len: usize) -> (r: CooperativeHasher)
        requires
            len > 0,
        ensures
            r.spec_processed() == 0,
            r.spec_absorbed() == Seq::<u8>::empty(),
            r.spec_chunk_size() == chunk_size_for(len as nat),
    {
        Self::with_chunk_size(stream_chunk_size(len))
    }

    /// Whether all of `data` has been absorbed.
    pub fn is_done(&self, data: &[u8]) -> (r: bool)
        ensures
            r == (self.spec_processed() >= data@.len()),
    {
        self.processed >= data.len()
    }

    /// Absorbs the next chunk of `data` and says whether this is a point to
    /// yield: the bytes absorbed so far fill a whole number of yield
    /// intervals.
    pub fn step(&mut self, data: &[u8]) -> (yield_now: bool)
        requires
            old(self).spec_chunk_size() > 0,
            old(self).spec_processed() < data@.len(),
            old(self).spec_absorbed() == data@.take(old(self).spec_processed() as int),
        ensures
            final(self).spec_chunk_size() == old(self).spec_chunk_size(),
            final(self).spec_processed() == if old(self).spec_processed()
                + old(self).spec_chunk_size() < data@.len() {
                old(self).spec_processed() + old(self).spec_chunk_size()
            } else {
                data@.len() as nat
            },
            final(self).spec_absorbed() == data@.take(final(self).spec_processed() as int),
            yield_now == (final(self).spec_processed() % (YIELD_INTERVAL as nat) == 0),
    {
        let n = data.len();
        let end = if self.chunk_size < n - self.processed {
            self.processed + self.chunk_size
        } else {
            n
        };
        hasher_update(&mut self.state, slice_subrange(data, self.processed, end));
        assert(data@.take(self.processed as int) + data@.subrange(self.processed as int, end as int)
            =~= data@.take(end as int));
        self.processed = end;
        end % YIELD_INTERVAL == 0
    }

    /// The digest of everything absorbed.
    pub fn finish(self) -> (r: Vec<u8>)
        ensures
            r@ == md5_of(self.spec_absorbed()),
            r@.len() == 16,
    {
        hasher_finalize(self.state)
    }
}

/// The MD5 digest of `data`, absorbed `chunk_size` bytes at a time without
/// yielding: the same digest for every chunk size.
pub fn digest_in_chunks(data: &[u8], chunk_size: usize) -> (r: Vec<u8>)
    requires
        chunk_size > 0,
    ensures
        r@ == md5_of(data@),
{
    let mut h = CooperativeHasher::with_chunk_size(chunk_size);
    while !h.is_done(data)
        invariant
            chunk_size > 0,
            h.spec_chunk_size() == chunk_size,
            h.spec_processed() <= data@.len(),
            h.spec_absorbed() == data@.take(h.spec_processed() as int),
        decreases data@.len() - h.spec_processed(),
    {
        let _ = h.step(data);
    }
    assert(data@.take(data@.len() as int) =~= data@);
    h.finish()
}

} // verus!
