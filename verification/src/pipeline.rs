//! Small processing blocks for building sample pipelines over the circular
//! buffer: a source that emits a vector in chunks, a copy stage, and a sink
//! that collects what was consumed.
//!
//! Only the chunk logic lives here; the loops that move chunks between
//! buffers on worker threads belong to the caller.

use vstd::prelude::*;

verus! {

/// Source block: hands out the items of a vector in chunks, in order.
pub struct Source<A> {
    data: Vec<A>,
    pos: usize,
}

/// Builder for a [`Source`] that emits a given vector.
pub struct VectorSource;

impl VectorSource {
    /// Create a source that emits the items of `input`, in order.
    pub fn new<A: Copy>(input: Vec<A>) -> (r: Source<A>)
        ensures
            r.wf(),
            r.items() == input@,
            r.emitted() == 0,
    {
        Source::new(input)
    }
}

impl<A: Copy> Source<A> {
    /// All items this source emits over its lifetime.
    pub closed spec fn items(self) -> Seq<A> {
        self.data@
    }

    /// How many items have been handed out so far.
    pub closed spec fn emitted(self) -> int {
        self.pos as int
    }

    /// The emission position stays within the data.
    pub closed spec fn wf(self) -> bool {
        self.pos <= self.data@.len()
    }

    /// Create a source over `data`, starting at the first item.
    pub fn new(data: Vec<A>) -> (r: Source<A>)
        ensures
            r.wf(),
            r.items() == data@,
            r.emitted() == 0,
    {
        Source { data, pos: 0 }
    }

    /// Next chunk of at most `space` items, or `None` once every item was
    /// handed out. The chunk continues exactly where the previous one ended.
    pub fn fill(&mut self, space: usize) -> (r: Option<Vec<A>>)
        requires
            old(self).wf(),
        ensures
            final(self).wf(),
            final(self).items() == old(self).items(),
            match r {
                None => {
                    &&& old(self).emitted() == old(self).items().len()
                    &&& final(self).emitted() == old(self).emitted()
                },
                Some(chunk) => {
                    &&& old(self).emitted() < old(self).items().len()
                    &&& chunk@ == old(self).items().subrange(
                        old(self).emitted(),
                        old(self).emitted() + chunk@.len(),
                    )
                    &&& chunk@.len() == if space <= old(self).items().len() - old(
                        self,
                    ).emitted() {
                        space as int
                    } else {
                        old(self).items().len() - old(self).emitted()
                    }
                    &&& final(self).emitted() == old(self).emitted() + chunk@.len()
                },
            },
    {
        let len = self.data.len();
        if self.pos >= len {
            return None;
        }
        let n = if space <= len - self.pos {
            space
        } else {
            len - self.pos
        };
        let mut chunk: Vec<A> = Vec::with_capacity(n);
        let mut k: usize = 0;
        while k < n
            invariant
                k <= n,
                len == self.data@.len(),
                self.pos + n <= len,
                chunk@.len() == k,
                chunk@ == self.data@.subrange(self.pos as int, self.pos + k),
            decreases n - k,
        {
            chunk.push(self.data[self.pos + k]);
            proof {
                assert(chunk@ =~= self.data@.subrange(self.pos as int, self.pos + k + 1));
            }
            k = k + 1;
        }
        self.pos = self.pos + n;
        Some(chunk)
    }
}

/// Builder for the stage that copies chunks through unchanged.
pub struct CopyBlock;

impl CopyBlock {
    /// Create a copy stage.
    pub fn new<A: Copy>() -> (r: Middle<A>)
        ensures
            true,
    {
        Middle::new()
    }
}

/// Middle block: a stage between two buffers. This stage copies each input
/// chunk to its output unchanged.
pub struct Middle<A> {
    marker: core::marker::PhantomData<A>,
}

impl<A: Copy> Middle<A> {
    /// Create the stage.
    pub fn new() -> (r: Middle<A>)
        ensures
            true,
    {
        Middle { marker: core::marker::PhantomData }
    }

    /// Process one chunk: the output equals the input, item for item.
    pub fn process(&self, input: &Vec<A>) -> (out: Vec<A>)
        ensures
            out@ == input@,
    {
        let len = input.len();
        let mut out: Vec<A> = Vec::with_capacity(len);
        let mut k: usize = 0;
        while k < len
            invariant
                k <= len,
                len == input@.len(),
                out@ == input@.subrange(0, k as int),
            decreases len - k,
        {
            out.push(input[k]);
            proof {
                assert(out@ =~= input@.subrange(0, k + 1));
            }
            k = k + 1;
        }
        proof {
            assert(out@ =~= input@);
        }
        out
    }
}

/// Sink block: collects every chunk that was consumed from a buffer.
pub struct Sink<A> {
    items: Vec<A>,
}

impl<A: Copy> Sink<A> {
    /// Everything collected so far, in arrival order.
    pub closed spec fn collected(self) -> Seq<A> {
        self.items@
    }

    /// Create a sink with room for `capacity` items.
    pub fn new(capacity: usize) -> (r: Sink<A>)
        ensures
            r.collected() == Seq::<A>::empty(),
    {
        Sink { items: Vec::with_capacity(capacity) }
    }

    /// Append one consumed chunk.
    pub fn accumulate(&mut self, chunk: &Vec<A>)
        ensures
            final(self).collected() == old(self).collected() + chunk@,
    {
        let len = chunk.len();
        let mut k: usize = 0;
        while k < len
            invariant
                k <= len,
                len == chunk@.len(),
                self.items@ == old(self).items@ + chunk@.subrange(0, k as int),
            decreases len - k,
        {
            self.items.push(chunk[k]);
            proof {
                assert(self.items@ =~= old(self).items@ + chunk@.subrange(0, k + 1));
            }
            k = k + 1;
        }
        proof {
            assert(self.items@ =~= old(self).items@ + chunk@);
        }
    }

    /// Hand the collected items out, consuming the sink.
    pub fn into_items(self) -> (r: Vec<A>)
        ensures
            r@ == self.collected(),
    {
        self.items
    }
}

} // verus!
