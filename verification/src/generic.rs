//! Coordination engine: one writer and any number of independently paced
//! readers over a [`DoubleMappedBuffer`], with a generic [`Notifier`] to
//! drive custom wait/block behaviour and a generic [`Metadata`] sidecar.
//!
//! Every cursor is a pair of an offset into the ring and a generation bit
//! (`ab`) that flips each time the offset wraps past zero. The bit exists
//! only to tell an empty ring from a full one when two offsets coincide.
//!
//! The engine keeps a ghost record of every item that was ever produced.
//! The central invariant says that the readable window of each reader holds
//! exactly the tail of that record which the reader has not yet consumed, so
//! each reader receives the produced stream, in order, without loss.

use vstd::prelude::*;

use crate::double_mapped_buffer::DoubleMappedBuffer;
use crate::double_mapped_buffer::allocation_feasible;
use crate::double_mapped_buffer::GRANULARITY;
use crate::double_mapped_buffer::valid_region_size;
use crate::double_mapped_buffer::wrap_index;

verus! {

/// Error setting up the underlying buffer.
#[derive(Debug, Clone, Copy, PartialEq, Eq, Structural)]
pub enum CircularError {
    /// Failed to allocate the double mapped buffer.
    Allocation,
}

/// A custom notifier can be used to trigger an arbitrary mechanism to signal
/// to a reader or writer that data or buffer space is available, such as a
/// write to a channel or a condition variable.
pub trait Notifier {
    /// Arm the notifier.
    fn arm(&mut self);

    /// The implementation must only signal if armed, signal exactly once,
    /// and disarm.
    fn notify(&mut self);
}

/// Custom metadata to annotate items, advanced in lockstep with the data.
pub trait Metadata: Sized {
    /// The tag type carried alongside the items.
    type Item;

    /// Create an empty metadata container.
    fn new() -> Self;

    /// Add metadata, applying an `offset` shift to the items.
    fn add(&mut self, offset: usize, tags: &Vec<Self::Item>);

    /// Get a snapshot of the metadata.
    fn get(&self) -> Vec<Self::Item>;

    /// Prune metadata: delete consumed items and shift the offsets of the
    /// remaining ones down by `items`.
    fn consume(&mut self, items: usize);
}

/// Void implementation of the [`Metadata`] trait for buffers without tags.
pub struct NoMetadata;

impl Metadata for NoMetadata {
    type Item = ();

    fn new() -> Self {
        NoMetadata
    }

    fn add(&mut self, _offset: usize, _tags: &Vec<()>) {
    }

    fn get(&self) -> Vec<()> {
        Vec::new()
    }

    fn consume(&mut self, _items: usize) {
    }
}

/// Items a reader at `(r_off, r_ab)` may read before reaching the writer at
/// `(w_off, w_ab)` on a ring of `cap` items.
pub open spec fn readable_span(r_off: int, r_ab: bool, w_off: int, w_ab: bool, cap: int) -> int {
    if r_off > w_off {
        w_off + cap - r_off
    } else if r_off < w_off {
        w_off - r_off
    } else if r_ab == w_ab {
        0
    } else {
        cap
    }
}

/// Items the writer at `(w_off, w_ab)` may write before reaching the reader
/// at `(r_off, r_ab)` on a ring of `cap` items.
pub open spec fn writable_span(w_off: int, w_ab: bool, r_off: int, r_ab: bool, cap: int) -> int {
    if w_off > r_off {
        r_off + cap - w_off
    } else if w_off < r_off {
        r_off - w_off
    } else if r_ab == w_ab {
        cap
    } else {
        0
    }
}

/// One generation's discipline: while the two cursors carry the same
/// generation bit the reader has not passed the writer; once the writer has
/// wrapped one generation ahead, the bits differ and the writer has not
/// passed the reader.
pub open spec fn cursors_consistent(r_off: int, r_ab: bool, w_off: int, w_ab: bool) -> bool {
    if r_ab == w_ab {
        r_off <= w_off
    } else {
        w_off <= r_off
    }
}

/// What one reader may read and what the writer may write towards that
/// reader always split the ring exactly.
pub proof fn lemma_spans_partition(r_off: int, r_ab: bool, w_off: int, w_ab: bool, cap: int)
    requires
        0 <= r_off < cap,
        0 <= w_off < cap,
    ensures
        readable_span(r_off, r_ab, w_off, w_ab, cap) + writable_span(w_off, w_ab, r_off, r_ab, cap)
            == cap,
{
}

/// The writer stands exactly at the end of the readable window of a reader.
proof fn lemma_cursor_chain(r_off: int, r_ab: bool, w_off: int, w_ab: bool, cap: int)
    requires
        0 <= r_off < cap,
        0 <= w_off < cap,
    ensures
        wrap_index(r_off, readable_span(r_off, r_ab, w_off, w_ab, cap), cap) == w_off,
{
}

/// Two distinct positions within one ring revolution stay distinct.
proof fn lemma_wrap_distinct(base: int, a: int, b: int, cap: int)
    requires
        0 <= base < cap,
        0 <= a <= cap,
        0 <= b <= cap,
        a != b,
    ensures
        wrap_index(base, a, cap) != wrap_index(base, b, cap) || a == cap || b == cap,
{
}

/// Stepping `a` then `b` items equals stepping `a + b` items, within one
/// revolution.
proof fn lemma_wrap_add(base: int, a: int, b: int, cap: int)
    requires
        0 <= base < cap,
        0 <= a <= cap,
        0 <= b,
        a + b <= cap,
    ensures
        wrap_index(wrap_index(base, a, cap), b, cap) == wrap_index(base, a + b, cap),
{
}

/// Advancing the writer cursor by `n` items lengthens the readable span of
/// a reader by `n` and shortens the writable span towards it by `n`, as
/// long as the writer does not overtake the reader.
proof fn lemma_produce_spans(r_off: int, r_ab: bool, w_off: int, w_ab: bool, cap: int, n: int)
    requires
        0 <= r_off < cap,
        0 <= w_off < cap,
        cursors_consistent(r_off, r_ab, w_off, w_ab),
        0 <= n <= writable_span(w_off, w_ab, r_off, r_ab, cap),
    ensures
        ({
            let w2 = wrap_index(w_off, n, cap);
            let ab2 = if w_off + n >= cap {
                !w_ab
            } else {
                w_ab
            };
            &&& cursors_consistent(r_off, r_ab, w2, ab2)
            &&& readable_span(r_off, r_ab, w2, ab2, cap) == readable_span(
                r_off,
                r_ab,
                w_off,
                w_ab,
                cap,
            ) + n
            &&& writable_span(w2, ab2, r_off, r_ab, cap) == writable_span(
                w_off,
                w_ab,
                r_off,
                r_ab,
                cap,
            ) - n
        }),
{
}

/// Advancing a reader cursor by `n` items shortens its readable span by `n`
/// and lengthens the writable span towards it by `n`, as long as the reader
/// does not overtake the writer.
proof fn lemma_consume_spans(r_off: int, r_ab: bool, w_off: int, w_ab: bool, cap: int, n: int)
    requires
        0 <= r_off < cap,
        0 <= w_off < cap,
        cursors_consistent(r_off, r_ab, w_off, w_ab),
        0 <= n <= readable_span(r_off, r_ab, w_off, w_ab, cap),
    ensures
        ({
            let r2 = wrap_index(r_off, n, cap);
            let ab2 = if r_off + n >= cap {
                !r_ab
            } else {
                r_ab
            };
            &&& cursors_consistent(r2, ab2, w_off, w_ab)
            &&& readable_span(r2, ab2, w_off, w_ab, cap) == readable_span(
                r_off,
                r_ab,
                w_off,
                w_ab,
                cap,
            ) - n
            &&& writable_span(w_off, w_ab, r2, ab2, cap) == writable_span(
                w_off,
                w_ab,
                r_off,
                r_ab,
                cap,
            ) + n
        }),
{
}

/// Internal per-reader record: cursor, size of the last returned window,
/// the two notifiers bound to this reader, and its metadata sidecar.
struct ReaderState<N, M> {
    offset: usize,
    ab: bool,
    last_space: usize,
    reader_notifier: N,
    writer_notifier: N,
    meta: M,
}

/// Handle for one attached reader: an index into the engine's reader table.
pub struct Reader {
    /// Index of this reader's slot in the engine's reader table.
    pub id: usize,
}

/// Generic circular buffer constructor.
pub struct Circular;

/// Writer over a circular buffer with items of type `T`, notifiers of type
/// `N` and metadata of type `M`. The writer owns the buffer, the shared
/// cursor state and the reader table.
pub struct Writer<T, N, M> where N: Notifier, M: Metadata {
    buffer: DoubleMappedBuffer<T>,
    writer_offset: usize,
    writer_ab: bool,
    writer_done: bool,
    last_space: usize,
    readers: Vec<Option<ReaderState<N, M>>>,
    produced: Ghost<Seq<T>>,
}

impl Circular {
    /// Create a buffer that can hold at least `min_items` items of type `T`.
    ///
    /// The size is the smallest common multiple of the page granularity and
    /// the item size that holds at least `min_items` items.
    pub fn with_capacity<T: Copy + Default, N: Notifier, M: Metadata>(min_items: usize) -> (r:
        Result<Writer<T, N, M>, CircularError>)
        ensures
            match r {
                Ok(w) => {
                    &&& w.inv()
                    &&& w.capacity() >= min_items
                    &&& w.capacity() >= 1
                    &&& w.history() == Seq::<T>::empty()
                    &&& !w.is_done()
                    &&& w.last_space() == 0
                    &&& forall|rr: Reader| !w.is_reader(rr)
                    &&& valid_region_size(
                        w.capacity() * size_of::<T>(),
                        min_items as int,
                        size_of::<T>() as int,
                        GRANULARITY as int,
                    )
                    &&& forall|s2: int|
                        #[trigger] valid_region_size(
                            s2,
                            min_items as int,
                            size_of::<T>() as int,
                            GRANULARITY as int,
                        ) ==> s2 >= w.capacity() * size_of::<T>()
                },
                Err(e) => {
                    &&& e == CircularError::Allocation
                    &&& !allocation_feasible(min_items as int, size_of::<T>() as int)
                },
            },
    {
        let buffer = match DoubleMappedBuffer::<T>::new(min_items) {
            Ok(buffer) => buffer,
            Err(_) => {
                return Err(CircularError::Allocation);
            },
        };
        let w = Writer {
            buffer,
            writer_offset: 0,
            writer_ab: false,
            writer_done: false,
            last_space: 0,
            readers: Vec::new(),
            produced: Ghost(Seq::empty()),
        };
        Ok(w)
    }
}

impl<T: Copy + Default, N: Notifier, M: Metadata> Writer<T, N, M> {
    /// Number of items the ring can hold.
    pub closed spec fn capacity(self) -> int {
        self.buffer@.len() as int
    }

    /// Every item ever produced, oldest first.
    pub closed spec fn history(self) -> Seq<T> {
        self.produced@
    }

    /// Whether the writer has announced the end of the stream.
    pub closed spec fn is_done(self) -> bool {
        self.writer_done
    }

    /// Size of the writer window returned last, less what was produced
    /// since: the bound on the next `produce`.
    pub closed spec fn last_space(self) -> int {
        self.last_space as int
    }

    /// Whether slot `j` of the reader table is occupied.
    pub closed spec fn occupied(self, j: int) -> bool {
        0 <= j < self.readers@.len() && self.readers@[j] is Some
    }

    /// Reader offset in slot `j`.
    closed spec fn roff_at(self, j: int) -> int {
        self.readers@[j]->0.offset as int
    }

    /// Reader generation bit in slot `j`.
    closed spec fn rab_at(self, j: int) -> bool {
        self.readers@[j]->0.ab
    }

    /// Items the reader in slot `j` may read.
    pub closed spec fn backlog_at(self, j: int) -> int {
        readable_span(
            self.roff_at(j),
            self.rab_at(j),
            self.writer_offset as int,
            self.writer_ab,
            self.capacity(),
        )
    }

    /// Items the writer may write without passing the reader in slot `j`.
    pub closed spec fn room_at(self, j: int) -> int {
        writable_span(
            self.writer_offset as int,
            self.writer_ab,
            self.roff_at(j),
            self.rab_at(j),
            self.capacity(),
        )
    }

    /// Size of the window returned last to the reader in slot `j`, less what
    /// it consumed since: the bound on its next `consume`.
    pub closed spec fn reader_last_at(self, j: int) -> int {
        self.readers@[j]->0.last_space as int
    }

    /// Whether `r` is a currently attached reader of this buffer.
    pub open spec fn is_reader(self, r: Reader) -> bool {
        self.occupied(r.id as int)
    }

    /// Items reader `r` may read.
    pub open spec fn backlog(self, r: Reader) -> int {
        self.backlog_at(r.id as int)
    }

    /// Items the writer may write without passing reader `r`.
    pub open spec fn room(self, r: Reader) -> int {
        self.room_at(r.id as int)
    }

    /// The bound on the next `consume` of reader `r`.
    pub open spec fn reader_last(self, r: Reader) -> int {
        self.reader_last_at(r.id as int)
    }

    /// The part of the produced stream that reader `r` has not consumed yet.
    pub open spec fn readable_items(self, r: Reader) -> Seq<T> {
        self.history().subrange(self.history().len() - self.backlog(r), self.history().len() as int)
    }

    /// Item currently staged at position `i` of the writer window: what
    /// `produce` would publish as the `i`-th new item.
    pub closed spec fn pending(self, i: int) -> T {
        self.buffer@[wrap_index(self.writer_offset as int, i, self.capacity())]
    }

    /// Writable space left after considering the first `n` reader slots.
    closed spec fn space_upto(self, n: int) -> int
        decreases n,
    {
        if n <= 0 {
            self.capacity()
        } else {
            let rest = self.space_upto(n - 1);
            if self.occupied(n - 1) && self.room_at(n - 1) < rest {
                self.room_at(n - 1)
            } else {
                rest
            }
        }
    }

    /// Writable space of the writer: the least room over all attached
    /// readers, or the full capacity with no reader attached.
    pub closed spec fn space_spec(self) -> int {
        self.space_upto(self.readers@.len() as int)
    }

    /// The readable window of the reader in slot `j` holds exactly the not
    /// yet consumed tail of the produced stream.
    closed spec fn window_connected(self, j: int) -> bool {
        forall|q: int|
            0 <= q < self.backlog_at(j) ==> self.buffer@[wrap_index(
                self.roff_at(j),
                q,
                self.capacity(),
            )] == #[trigger] self.history()[self.history().len() - self.backlog_at(j) + q]
    }

    /// Per-slot well-formedness: the cursor stays on the ring and respects
    /// the generation discipline, the window bounds stay within what the
    /// last windows allowed and within what was produced, and the readable
    /// window holds the right tail of the produced stream.
    closed spec fn inv_at(self, j: int) -> bool {
        &&& self.roff_at(j) < self.capacity()
        &&& cursors_consistent(
            self.roff_at(j),
            self.rab_at(j),
            self.writer_offset as int,
            self.writer_ab,
        )
        &&& self.last_space as int <= self.room_at(j)
        &&& self.reader_last_at(j) <= self.backlog_at(j)
        &&& self.backlog_at(j) <= self.history().len()
        &&& self.window_connected(j)
    }

    /// Well-formedness of the whole engine: the buffer's two copies agree,
    /// the writer cursor stays on the ring, and every occupied reader slot
    /// is well formed.
    pub closed spec fn inv(self) -> bool {
        &&& self.buffer.wf()
        &&& self.capacity() >= 1
        &&& (self.writer_offset as int) < self.capacity()
        &&& self.last_space as int <= self.capacity()
        &&& forall|j: int| #[trigger] self.occupied(j) ==> self.inv_at(j)
    }

    /// The two writers agree on everything the coordination logic reads:
    /// buffer, cursors, table occupancy and per-reader cursors. They may
    /// differ in the internal state of notifiers and metadata.
    closed spec fn same_coord(self, other: Self) -> bool {
        &&& self.buffer == other.buffer
        &&& self.writer_offset == other.writer_offset
        &&& self.writer_ab == other.writer_ab
        &&& self.produced == other.produced
        &&& self.readers@.len() == other.readers@.len()
        &&& forall|j: int|
            0 <= j < self.readers@.len() ==> {
                &&& ((#[trigger] self.readers@[j]) is Some <==> other.readers@[j] is Some)
                &&& (self.readers@[j] is Some ==> {
                    &&& self.readers@[j]->0.offset == other.readers@[j]->0.offset
                    &&& self.readers@[j]->0.ab == other.readers@[j]->0.ab
                    &&& self.readers@[j]->0.last_space == other.readers@[j]->0.last_space
                })
            }
    }

    /// Everything the contracts observe is equal on coordination-equal
    /// writers.
    proof fn lemma_same_coord(self, other: Self)
        requires
            self.same_coord(other),
        ensures
            self.capacity() == other.capacity(),
            self.history() == other.history(),
            forall|j: int| #[trigger] self.occupied(j) <==> #[trigger] other.occupied(j),
            forall|j: int| #[trigger]
                self.occupied(j) ==> {
                    &&& self.roff_at(j) == other.roff_at(j)
                    &&& self.rab_at(j) == other.rab_at(j)
                    &&& self.backlog_at(j) == other.backlog_at(j)
                    &&& self.room_at(j) == other.room_at(j)
                    &&& self.reader_last_at(j) == other.reader_last_at(j)
                },
            forall|i: int| #[trigger] self.pending(i) == #[trigger] other.pending(i),
            forall|n: int| #[trigger] self.space_upto(n) == #[trigger] other.space_upto(n),
            self.space_spec() == other.space_spec(),
            forall|j: int| #[trigger]
                self.occupied(j) ==> (self.window_connected(j) <==> other.window_connected(j)),
    {
        assert(self.same_space_view(other));
        assert forall|n: int| #[trigger]
            self.space_upto(n) == #[trigger] other.space_upto(n) by {
            self.lemma_space_upto_same(other, n);
        }
        assert forall|j: int| #[trigger] self.occupied(j) implies (self.window_connected(j)
            <==> other.window_connected(j)) by {
            assert(self.backlog_at(j) == other.backlog_at(j));
            if self.window_connected(j) {
                assert forall|q: int| 0 <= q < other.backlog_at(j) implies other.buffer@[
                    wrap_index(other.roff_at(j), q, other.capacity())] == #[trigger] other.history()[
                    other.history().len() - other.backlog_at(j) + q] by {
                    assert(self.buffer@[wrap_index(self.roff_at(j), q, self.capacity())]
                        == self.history()[self.history().len() - self.backlog_at(j) + q]);
                }
            }
            if other.window_connected(j) {
                assert forall|q: int| 0 <= q < self.backlog_at(j) implies self.buffer@[
                    wrap_index(self.roff_at(j), q, self.capacity())] == #[trigger] self.history()[
                    self.history().len() - self.backlog_at(j) + q] by {
                    assert(other.buffer@[wrap_index(other.roff_at(j), q, other.capacity())]
                        == other.history()[other.history().len() - other.backlog_at(j) + q]);
                }
            }
        }
    }

    /// The part of the state that the writable-space computation reads:
    /// capacity, the writer cursor, and each slot's occupancy and cursor.
    closed spec fn same_space_view(self, other: Self) -> bool {
        &&& self.capacity() == other.capacity()
        &&& self.writer_offset == other.writer_offset
        &&& self.writer_ab == other.writer_ab
        &&& self.readers@.len() == other.readers@.len()
        &&& forall|j: int|
            0 <= j < self.readers@.len() ==> {
                &&& ((#[trigger] self.readers@[j]) is Some <==> other.readers@[j] is Some)
                &&& (self.readers@[j] is Some ==> {
                    &&& self.readers@[j]->0.offset == other.readers@[j]->0.offset
                    &&& self.readers@[j]->0.ab == other.readers@[j]->0.ab
                })
            }
    }

    /// `space_upto` only reads the space view.
    proof fn lemma_space_upto_same(self, other: Self, n: int)
        requires
            self.same_space_view(other),
        ensures
            self.space_upto(n) == other.space_upto(n),
        decreases n,
    {
        if n > 0 {
            self.lemma_space_upto_same(other, n - 1);
        }
    }

    /// The writable space only reads the space view.
    proof fn lemma_space_spec_same(self, other: Self)
        requires
            self.same_space_view(other),
        ensures
            self.space_spec() == other.space_spec(),
    {
        self.lemma_space_upto_same(other, self.readers@.len() as int);
    }

    /// The writable space never leaves `[0, capacity]`.
    proof fn lemma_space_upto_bounds(self, n: int)
        requires
            forall|j: int| #[trigger] self.occupied(j) ==> self.roff_at(j) < self.capacity(),
            (self.writer_offset as int) < self.capacity(),
            self.capacity() >= 1,
        ensures
            0 <= self.space_upto(n) <= self.capacity(),
        decreases n,
    {
        if n > 0 {
            self.lemma_space_upto_bounds(n - 1);
        }
    }

    /// The writable space never grows as more readers are considered.
    proof fn lemma_space_upto_mono(self, m: int, n: int)
        requires
            m <= n,
        ensures
            self.space_upto(n) <= self.space_upto(m),
        decreases n,
    {
        if n > 0 && m < n {
            self.lemma_space_upto_mono(m, n - 1);
        }
    }

    /// The writable space is bounded by the room towards each reader.
    proof fn lemma_space_upto_le_room(self, n: int, j: int)
        requires
            0 <= j < n,
            self.occupied(j),
        ensures
            self.space_upto(n) <= self.room_at(j),
        decreases n,
    {
        if j < n - 1 {
            self.lemma_space_upto_le_room(n - 1, j);
        }
    }

    /// When every attached reader leaves room, the writer has space.
    proof fn lemma_space_upto_positive(self, n: int)
        requires
            self.capacity() >= 1,
            forall|j: int| 0 <= j < n && #[trigger] self.occupied(j) ==> self.room_at(j) >= 1,
        ensures
            self.space_upto(n) >= 1,
        decreases n,
    {
        if n > 0 {
            self.lemma_space_upto_positive(n - 1);
        }
    }

    /// The writer's writable space is the least room over the attached
    /// readers, and the full capacity with no reader attached.
    pub proof fn lemma_space_characterisation(self)
        requires
            self.inv(),
        ensures
            0 <= self.space_spec() <= self.capacity(),
            forall|r: Reader| #[trigger]
                self.is_reader(r) ==> self.space_spec() <= self.room(r),
            (forall|r: Reader| !self.is_reader(r)) ==> self.space_spec() == self.capacity(),
            (exists|r: Reader| self.is_reader(r)) || self.space_spec() == self.capacity(),
    {
        vstd::std_specs::vec::axiom_spec_len(&self.readers);
        self.lemma_space_upto_bounds(self.readers@.len() as int);
        assert forall|r: Reader| #[trigger]
            self.is_reader(r) implies self.space_spec() <= self.room(r) by {
            self.lemma_space_upto_le_room(self.readers@.len() as int, r.id as int);
        }
        if forall|r: Reader| !self.is_reader(r) {
            assert forall|j: int| 0 <= j < self.readers@.len() implies !#[trigger] self.occupied(
                j,
            ) by {
                assert(!self.is_reader(Reader { id: j as usize }));
            }
            self.lemma_space_upto_all_vacant(self.readers@.len() as int);
        }
    }

    /// With no occupied slot the writable space is the full capacity.
    proof fn lemma_space_upto_all_vacant(self, n: int)
        requires
            forall|j: int| 0 <= j < n ==> !#[trigger] self.occupied(j),
        ensures
            self.space_upto(n) == self.capacity(),
        decreases n,
    {
        if n > 0 {
            self.lemma_space_upto_all_vacant(n - 1);
        }
    }

    /// Helper: the writable space is the full capacity or the room towards
    /// one of the first `n` readers.
    proof fn lemma_space_upto_tight(self, n: int)
        requires
            0 <= n <= self.readers@.len(),
        ensures
            self.space_upto(n) == self.capacity() || exists|j: int|
                0 <= j < n && #[trigger] self.occupied(j) && self.space_upto(n) == self.room_at(j),
        decreases n,
    {
        if n > 0 {
            self.lemma_space_upto_tight(n - 1);
        }
    }

    /// The writable space is attained: it is the full capacity or exactly
    /// the room towards some attached reader.
    pub proof fn lemma_space_attained(self)
        requires
            self.inv(),
        ensures
            self.space_spec() == self.capacity() || exists|r: Reader| #[trigger]
                self.is_reader(r) && self.space_spec() == self.room(r),
    {
        vstd::std_specs::vec::axiom_spec_len(&self.readers);
        self.lemma_space_upto_tight(self.readers@.len() as int);
        if self.space_spec() != self.capacity() {
            let j = choose|j: int|
                0 <= j < self.readers@.len() && #[trigger] self.occupied(j) && self.space_spec()
                    == self.room_at(j);
            let r = Reader { id: j as usize };
            assert(self.is_reader(r) && self.space_spec() == self.room(r));
        }
    }

    /// A writer without writable space is blocked by some attached reader
    /// towards which there is no room.
    pub proof fn lemma_space_zero_blocker(self)
        requires
            self.inv(),
            self.space_spec() == 0,
        ensures
            exists|r: Reader| #[trigger] self.is_reader(r) && self.room(r) == 0,
    {
        vstd::std_specs::vec::axiom_spec_len(&self.readers);
        if forall|r: Reader| #[trigger] self.is_reader(r) ==> self.room(r) != 0 {
            assert forall|j: int|
                0 <= j < self.readers@.len() && #[trigger] self.occupied(j) implies self.room_at(
                j,
            ) >= 1 by {
                let r = Reader { id: j as usize };
                assert(self.is_reader(r));
                assert(self.room(r) != 0);
                lemma_spans_partition(
                    self.roff_at(j),
                    self.rab_at(j),
                    self.writer_offset as int,
                    self.writer_ab,
                    self.capacity(),
                );
            }
            self.lemma_space_upto_positive(self.readers@.len() as int);
        }
    }

    /// Add a [`Reader`] to the buffer.
    ///
    /// The new reader starts at the current writer cursor, so it observes
    /// only data produced after it was attached: its first window is empty.
    pub fn add_reader(&mut self, reader_notifier: N, writer_notifier: N) -> (r: Reader)
        requires
            old(self).inv(),
        ensures
            final(self).inv(),
            final(self).is_reader(r),
            !old(self).is_reader(r),
            final(self).backlog(r) == 0,
            final(self).reader_last(r) == 0,
            final(self).room(r) == final(self).capacity(),
            final(self).readable_items(r) == Seq::<T>::empty(),
            final(self).capacity() == old(self).capacity(),
            final(self).history() == old(self).history(),
            final(self).is_done() == old(self).is_done(),
            final(self).last_space() == old(self).last_space(),
            forall|i: int|
                0 <= i < final(self).capacity() ==> final(self).pending(i) == old(self).pending(i),
            forall|rr: Reader|
                rr.id != r.id ==> (final(self).is_reader(rr) <==> old(self).is_reader(rr)),
            forall|j: int|
                j != r.id && #[trigger] old(self).occupied(j) ==> {
                    &&& final(self).backlog_at(j) == old(self).backlog_at(j)
                    &&& final(self).room_at(j) == old(self).room_at(j)
                    &&& final(self).reader_last_at(j) == old(self).reader_last_at(j)
                },
            forall|j: int| #[trigger]
                final(self).occupied(j) && j != r.id ==> old(self).occupied(j),
    {
        let state = ReaderState {
            offset: self.writer_offset,
            ab: self.writer_ab,
            last_space: 0,
            reader_notifier,
            writer_notifier,
            meta: M::new(),
        };
        let ghost pre = *self;
        let mut id: usize = 0;
        let len = self.readers.len();
        let mut slot: Option<usize> = None;
        while id < len
            invariant
                *self == pre,
                len == self.readers@.len(),
                id <= len,
                match slot {
                    Some(s) => s < id && !self.occupied(s as int),
                    None => forall|j: int| 0 <= j < id ==> #[trigger] self.occupied(j),
                },
            decreases len - id,
        {
            if slot.is_none() && self.readers[id].is_none() {
                slot = Some(id);
            }
            id = id + 1;
        }
        let r = match slot {
            Some(s) => {
                self.readers.set(s, Some(state));
                Reader { id: s }
            },
            None => {
                self.readers.push(Some(state));
                Reader { id: len }
            },
        };
        proof {
            assert(self.backlog(r) == 0);
            assert(self.readable_items(r) =~= Seq::<T>::empty());
            assert forall|j: int| #[trigger] self.occupied(j) implies self.inv_at(j) by {
                if j != r.id {
                    assert(pre.occupied(j));
                    assert(pre.window_connected(j));
                }
            }
        }
        r
    }

    /// Size of the writer window: how many items may be written right now
    /// without overtaking any reader.
    ///
    /// With `arm` set and no space available, the writer notifier of the
    /// first blocking reader is armed, so that this reader's next `consume`
    /// wakes the writer.
    ///
    /// The returned size bounds the following `produce` calls; positions
    /// `0..space` may be filled through [`Writer::write_at`].
    pub fn space(&mut self, arm: bool) -> (r: usize)
        requires
            old(self).inv(),
        ensures
            final(self).inv(),
            r == old(self).space_spec(),
            final(self).space_spec() == old(self).space_spec(),
            final(self).last_space() == r,
            final(self).capacity() == old(self).capacity(),
            final(self).history() == old(self).history(),
            final(self).is_done() == old(self).is_done(),
            forall|rr: Reader| #[trigger]
                final(self).is_reader(rr) <==> #[trigger] old(self).is_reader(rr),
            forall|rr: Reader| #[trigger]
                old(self).is_reader(rr) ==> {
                    &&& final(self).backlog(rr) == old(self).backlog(rr)
                    &&& final(self).room(rr) == old(self).room(rr)
                    &&& final(self).reader_last(rr) == old(self).reader_last(rr)
                },
            forall|i: int| #[trigger] final(self).pending(i) == old(self).pending(i),
    {
        let ghost pre = *self;
        let cap = self.buffer.capacity();
        let w_off = self.writer_offset;
        let w_ab = self.writer_ab;
        let len = self.readers.len();
        let mut space: usize = cap;
        let mut i: usize = 0;
        while i < len
            invariant_except_break
                space == pre.space_upto(i as int),
            invariant
                self.same_coord(pre),
                self.writer_done == pre.writer_done,
                self.last_space == pre.last_space,
                pre.inv(),
                len == self.readers@.len(),
                cap == pre.capacity(),
                w_off == pre.writer_offset,
                w_ab == pre.writer_ab,
                i <= len,
            ensures
                space == pre.space_spec(),
                self.same_coord(pre),
                self.writer_done == pre.writer_done,
                self.last_space == pre.last_space,
            decreases len - i,
        {
            proof {
                self.lemma_same_coord(pre);
                pre.lemma_space_upto_bounds(i as int);
            }
            let occ: bool;
            let s: usize;
            match &self.readers[i] {
                Some(st) => {
                    let r_off = st.offset;
                    let r_ab = st.ab;
                    occ = true;
                    s = if w_off > r_off {
                        cap - w_off + r_off
                    } else if w_off < r_off {
                        r_off - w_off
                    } else if r_ab == w_ab {
                        cap
                    } else {
                        0
                    };
                    assert(s as int == pre.room_at(i as int));
                },
                None => {
                    occ = false;
                    s = cap;
                },
            }
            if s < space {
                space = s;
            }
            if occ && s == 0 {
                if arm {
                    match &mut self.readers[i] {
                        Some(st) => st.writer_notifier.arm(),
                        None => {},
                    }
                }
                proof {
                    pre.lemma_space_upto_bounds(len as int);
                    pre.lemma_space_upto_mono((i + 1) as int, len as int);
                    assert(pre.space_upto(i as int + 1) == 0);
                }
                break;
            }
            i = i + 1;
        }
        proof {
            pre.lemma_space_characterisation();
        }
        self.last_space = space;
        proof {
            self.lemma_same_coord(pre);
            assert forall|j: int| #[trigger] self.occupied(j) implies self.inv_at(j) by {
                assert(pre.occupied(j));
                assert(pre.inv_at(j));
                pre.lemma_space_upto_le_room(len as int, j);
            }
        }
        space
    }

    /// Write one item at position `i` of the writer window obtained from
    /// the last [`Writer::space`] call: the item that `produce` will publish
    /// as the `i`-th new one. No reader window is touched.
    pub fn write_at(&mut self, i: usize, v: T)
        requires
            old(self).inv(),
            i < old(self).last_space(),
        ensures
            final(self).inv(),
            final(self).pending(i as int) == v,
            forall|t: int|
                0 <= t < final(self).capacity() && t != i ==> #[trigger] final(self).pending(t)
                    == old(self).pending(t),
            final(self).capacity() == old(self).capacity(),
            final(self).history() == old(self).history(),
            final(self).is_done() == old(self).is_done(),
            final(self).last_space() == old(self).last_space(),
            final(self).space_spec() == old(self).space_spec(),
            forall|rr: Reader| #[trigger]
                final(self).is_reader(rr) <==> #[trigger] old(self).is_reader(rr),
            forall|rr: Reader| #[trigger]
                old(self).is_reader(rr) ==> {
                    &&& final(self).backlog(rr) == old(self).backlog(rr)
                    &&& final(self).room(rr) == old(self).room(rr)
                    &&& final(self).reader_last(rr) == old(self).reader_last(rr)
                    &&& final(self).readable_items(rr) == old(self).readable_items(rr)
                },
    {
        let ghost pre = *self;
        let cap = self.buffer.capacity();
        let w_off = self.writer_offset;
        proof {
            assert(pre.last_space() <= pre.capacity());
        }
        let pos = if i < cap - w_off {
            w_off + i
        } else {
            i - (cap - w_off)
        };
        assert(pos as int == wrap_index(w_off as int, i as int, cap as int));
        self.buffer.write(pos, v);
        proof {
            assert(self.same_space_view(pre));
            self.lemma_space_spec_same(pre);
            assert forall|j: int| #[trigger] self.occupied(j) implies self.inv_at(j) by {
                assert(pre.occupied(j));
                assert(pre.window_connected(j));
                lemma_spans_partition(
                    pre.roff_at(j),
                    pre.rab_at(j),
                    pre.writer_offset as int,
                    pre.writer_ab,
                    pre.capacity(),
                );
                lemma_cursor_chain(
                    pre.roff_at(j),
                    pre.rab_at(j),
                    pre.writer_offset as int,
                    pre.writer_ab,
                    pre.capacity(),
                );
                lemma_wrap_add(
                    pre.roff_at(j),
                    pre.backlog_at(j),
                    i as int,
                    pre.capacity(),
                );
                assert forall|q: int| 0 <= q < self.backlog_at(j) implies self.buffer@[
                    wrap_index(self.roff_at(j), q, self.capacity())] == #[trigger] self.history()[
                    self.history().len() - self.backlog_at(j) + q] by {
                    lemma_wrap_distinct(
                        pre.roff_at(j),
                        q,
                        pre.backlog_at(j) + i,
                        pre.capacity(),
                    );
                }
            }
            assert forall|t: int|
                0 <= t < self.capacity() && t != i implies #[trigger] self.pending(t)
                == pre.pending(t) by {
                lemma_wrap_distinct(pre.writer_offset as int, t, i as int, pre.capacity());
            }
        }
    }

    /// Publish the first `n` items of the writer window: they become the
    /// next `n` items of the produced stream, every reader's backlog grows
    /// by `n`, and every reader notifier is fired. The metadata sidecar of
    /// each reader receives the tags, shifted by that reader's backlog.
    ///
    /// It is fine for `n` to be zero, and to call this several times after
    /// one [`Writer::space`] call as long as the sizes stay within the
    /// window.
    #[verifier::rlimit(60)]
    pub fn produce(&mut self, n: usize, tags: Vec<M::Item>)
        requires
            old(self).inv(),
            n <= old(self).last_space(),
        ensures
            final(self).inv(),
            final(self).history() == old(self).history() + Seq::new(
                n as nat,
                |t: int| old(self).pending(t),
            ),
            final(self).capacity() == old(self).capacity(),
            final(self).is_done() == old(self).is_done(),
            final(self).last_space() == old(self).last_space() - n,
            forall|rr: Reader| #[trigger]
                final(self).is_reader(rr) <==> #[trigger] old(self).is_reader(rr),
            forall|j: int| #[trigger] final(self).occupied(j) <==> #[trigger] old(self).occupied(j),
            forall|j: int| #[trigger]
                old(self).occupied(j) ==> {
                    &&& final(self).backlog_at(j) == old(self).backlog_at(j) + n
                    &&& final(self).room_at(j) == old(self).room_at(j) - n
                    &&& final(self).reader_last_at(j) == old(self).reader_last_at(j)
                },
            forall|rr: Reader| #[trigger]
                old(self).is_reader(rr) ==> final(self).readable_items(rr) == old(
                    self,
                ).readable_items(rr) + Seq::new(n as nat, |t: int| old(self).pending(t)),
    {
        let ghost pre = *self;
        let cap = self.buffer.capacity();
        let w_off = self.writer_offset;
        let w_ab = self.writer_ab;
        if n == 0 {
            proof {
                assert(Seq::new(0nat, |t: int| pre.pending(t)) =~= Seq::<T>::empty());
                assert(self.history() =~= pre.history() + Seq::new(
                    0nat,
                    |t: int| pre.pending(t),
                ));
                assert forall|rr: Reader| #[trigger]
                    pre.is_reader(rr) implies self.readable_items(rr) == pre.readable_items(rr)
                    + Seq::new(0nat, |t: int| pre.pending(t)) by {
                    assert(self.readable_items(rr) =~= pre.readable_items(rr) + Seq::new(
                        0nat,
                        |t: int| pre.pending(t),
                    ));
                }
            }
            return;
        }
        let len = self.readers.len();
        let mut i: usize = 0;
        while i < len
            invariant
                self.same_coord(pre),
                self.writer_done == pre.writer_done,
                self.last_space == pre.last_space,
                pre.inv(),
                len == self.readers@.len(),
                cap == pre.capacity(),
                w_off == pre.writer_offset,
                w_ab == pre.writer_ab,
                n <= pre.last_space(),
                i <= len,
            decreases len - i,
        {
            proof {
                self.lemma_same_coord(pre);
            }
            match &mut self.readers[i] {
                Some(st) => {
                    proof {
                        assert(pre.occupied(i as int));
                        assert(pre.inv_at(i as int));
                    }
                    let r_off = st.offset;
                    let r_ab = st.ab;
                    proof {
                        assert(r_off as int == pre.roff_at(i as int));
                    }
                    let sp = if r_off > w_off {
                        cap - r_off + w_off
                    } else if r_off < w_off {
                        w_off - r_off
                    } else if r_ab == w_ab {
                        0
                    } else {
                        cap
                    };
                    st.meta.add(sp, &tags);
                    st.reader_notifier.notify();
                },
                None => {},
            }
            i = i + 1;
        }
        proof {
            self.lemma_same_coord(pre);
        }
        let ghost mid = *self;
        if n >= cap - w_off {
            self.writer_ab = !w_ab;
            self.writer_offset = n - (cap - w_off);
        } else {
            self.writer_offset = w_off + n;
        }
        self.last_space = self.last_space - n;
        self.produced = Ghost(pre.produced@ + Seq::new(n as nat, |t: int| pre.pending(t)));
        proof {
            let cap_i = pre.capacity();
            let ghost appended = Seq::new(n as nat, |t: int| pre.pending(t));
            assert(self.writer_offset as int == wrap_index(w_off as int, n as int, cap_i));
            assert forall|j: int| #[trigger] mid.occupied(j) implies {
                &&& self.backlog_at(j) == mid.backlog_at(j) + n
                &&& self.room_at(j) == mid.room_at(j) - n
            } by {
                mid.lemma_same_coord(pre);
                assert(pre.occupied(j));
                assert(pre.inv_at(j));
                assert(mid.roff_at(j) == pre.roff_at(j));
                assert(mid.rab_at(j) == pre.rab_at(j));
                assert(n <= pre.room_at(j));
                lemma_produce_spans(
                    mid.roff_at(j),
                    mid.rab_at(j),
                    w_off as int,
                    w_ab,
                    cap_i,
                    n as int,
                );
            }
            assert forall|j: int| #[trigger] self.occupied(j) implies self.inv_at(j) by {
                mid.lemma_same_coord(pre);
                assert(pre.occupied(j));
                assert(pre.window_connected(j));
                let roff = pre.roff_at(j);
                let b = pre.backlog_at(j);
                let room = pre.room_at(j);
                lemma_spans_partition(roff, pre.rab_at(j), w_off as int, w_ab, cap_i);
                lemma_cursor_chain(roff, pre.rab_at(j), w_off as int, w_ab, cap_i);
                let hl = pre.history().len() as int;
                assert forall|q: int| 0 <= q < self.backlog_at(j) implies self.buffer@[
                    wrap_index(self.roff_at(j), q, self.capacity())] == #[trigger] self.history()[
                    self.history().len() - self.backlog_at(j) + q] by {
                    if q < b {
                        assert(pre.buffer@[wrap_index(roff, q, cap_i)] == pre.history()[hl - b
                            + q]);
                    } else {
                        let t = q - b;
                        lemma_wrap_add(roff, b, t, cap_i);
                        assert(self.buffer@[wrap_index(w_off as int, t, cap_i)] == pre.pending(
                            t,
                        ));
                        assert(appended[t] == pre.pending(t));
                        assert(self.history()[hl + t] == appended[t]);
                    }
                }
            }
            assert forall|rr: Reader| #[trigger]
                pre.is_reader(rr) implies self.readable_items(rr) == pre.readable_items(rr)
                + appended by {
                let hl = pre.history().len() as int;
                let b = pre.backlog(rr);
                assert(self.backlog(rr) == b + n);
                assert(self.readable_items(rr) =~= pre.readable_items(rr) + appended);
            }
        }
    }

    /// Announce the end of the stream: no further items will be produced.
    /// Every reader notifier is fired so that a blocked reader can observe
    /// the end of the stream. Backlogs and the produced stream are kept.
    pub fn close(&mut self)
        requires
            old(self).inv(),
        ensures
            final(self).inv(),
            final(self).is_done(),
            final(self).capacity() == old(self).capacity(),
            final(self).history() == old(self).history(),
            final(self).last_space() == old(self).last_space(),
            final(self).space_spec() == old(self).space_spec(),
            forall|rr: Reader| #[trigger]
                final(self).is_reader(rr) <==> #[trigger] old(self).is_reader(rr),
            forall|rr: Reader| #[trigger]
                old(self).is_reader(rr) ==> {
                    &&& final(self).backlog(rr) == old(self).backlog(rr)
                    &&& final(self).room(rr) == old(self).room(rr)
                    &&& final(self).reader_last(rr) == old(self).reader_last(rr)
                    &&& final(self).readable_items(rr) == old(self).readable_items(rr)
                },
            forall|i: int| #[trigger] final(self).pending(i) == old(self).pending(i),
    {
        let ghost pre = *self;
        self.writer_done = true;
        let len = self.readers.len();
        let mut i: usize = 0;
        while i < len
            invariant
                self.same_coord(pre),
                self.writer_done,
                self.last_space == pre.last_space,
                pre.inv(),
                len == self.readers@.len(),
                i <= len,
            decreases len - i,
        {
            proof {
                self.lemma_same_coord(pre);
            }
            match &mut self.readers[i] {
                Some(st) => {
                    st.reader_notifier.notify();
                },
                None => {},
            }
            i = i + 1;
        }
        proof {
            self.lemma_same_coord(pre);
            assert forall|j: int| #[trigger] self.occupied(j) implies self.inv_at(j) by {
                assert(pre.occupied(j));
                assert(pre.inv_at(j));
            }
        }
    }
}

impl Reader {
    /// The items available to read, together with the metadata snapshot.
    ///
    /// Returns `None` when the writer announced the end of the stream and
    /// all data was read. Otherwise the returned items are exactly the part
    /// of the produced stream this reader has not consumed yet, in order.
    ///
    /// With `arm` set and nothing to read, this reader's notifier is armed,
    /// so that the next `produce` wakes the reader. The length of the
    /// returned window bounds the following `consume` calls.
    #[verifier::rlimit(60)]
    pub fn slice<T: Copy + Default, N: Notifier, M: Metadata>(
        &self,
        w: &mut Writer<T, N, M>,
        arm: bool,
    ) -> (r: Option<(Vec<T>, Vec<M::Item>)>)
        requires
            old(w).inv(),
            old(w).is_reader(*self),
        ensures
            final(w).inv(),
            final(w).capacity() == old(w).capacity(),
            final(w).history() == old(w).history(),
            final(w).is_done() == old(w).is_done(),
            final(w).last_space() == old(w).last_space(),
            final(w).space_spec() == old(w).space_spec(),
            forall|rr: Reader| #[trigger]
                final(w).is_reader(rr) <==> #[trigger] old(w).is_reader(rr),
            forall|rr: Reader| #[trigger]
                old(w).is_reader(rr) ==> {
                    &&& final(w).backlog(rr) == old(w).backlog(rr)
                    &&& final(w).room(rr) == old(w).room(rr)
                    &&& final(w).readable_items(rr) == old(w).readable_items(rr)
                    &&& (rr.id != self.id ==> final(w).reader_last(rr) == old(w).reader_last(rr))
                },
            final(w).reader_last(*self) == old(w).backlog(*self),
            forall|i: int| #[trigger] final(w).pending(i) == old(w).pending(i),
            match r {
                None => old(w).backlog(*self) == 0 && old(w).is_done(),
                Some((v, _)) => {
                    &&& v@ == old(w).readable_items(*self)
                    &&& v@.len() == old(w).backlog(*self)
                    &&& !(old(w).backlog(*self) == 0 && old(w).is_done())
                },
            },
    {
        let ghost pre = *w;
        let cap = w.buffer.capacity();
        let w_off = w.writer_offset;
        let w_ab = w.writer_ab;
        let done = w.writer_done;
        let sp: usize;
        let r_off: usize;
        let tags: Vec<M::Item>;
        match &mut w.readers[self.id] {
            Some(st) => {
                r_off = st.offset;
                let r_ab = st.ab;
                sp = if r_off > w_off {
                    cap - r_off + w_off
                } else if r_off < w_off {
                    w_off - r_off
                } else if r_ab == w_ab {
                    0
                } else {
                    cap
                };
                if sp == 0 && arm {
                    st.reader_notifier.arm();
                }
                st.last_space = sp;
                tags = st.meta.get();
            },
            None => {
                return vstd::pervasive::unreached();
            },
        }
        proof {
            assert(sp as int == pre.backlog(*self));
            assert(w.same_space_view(pre));
            w.lemma_space_spec_same(pre);
            assert forall|j: int| #[trigger] w.occupied(j) implies w.inv_at(j) by {
                assert(pre.occupied(j));
                assert(pre.window_connected(j));
            }
        }
        if sp == 0 && done {
            return None;
        }
        let window = w.buffer.slice_with_offset(r_off);
        let part = vstd::slice::slice_subrange(window, 0, sp);
        let v = vstd::slice::slice_to_vec(part);
        proof {
            assert forall|q: int| 0 <= q < sp implies v@[q] == pre.history()[
                pre.history().len() - pre.backlog(*self) + q] by {
                assert(pre.window_connected(self.id as int));
                assert(v@[q] == w.buffer@[wrap_index(r_off as int, q, pre.capacity())]);
                assert(pre.buffer@[wrap_index(pre.roff_at(self.id as int), q, pre.capacity())]
                    == pre.history()[pre.history().len() - pre.backlog_at(self.id as int) + q]);
            }
            assert(v@ =~= pre.readable_items(*self));
        }
        Some((v, tags))
    }

    /// Report that `n` of the items returned by the last window were read:
    /// the reader's backlog shrinks by `n`, the room towards this reader
    /// grows by `n`, and this reader's writer notifier is fired.
    ///
    /// It is fine for `n` to be zero, and to call this several times after
    /// one window as long as the counts stay within that window.
    #[verifier::rlimit(60)]
    pub fn consume<T: Copy + Default, N: Notifier, M: Metadata>(
        &self,
        w: &mut Writer<T, N, M>,
        n: usize,
    )
        requires
            old(w).inv(),
            old(w).is_reader(*self),
            n <= old(w).reader_last(*self),
        ensures
            final(w).inv(),
            final(w).capacity() == old(w).capacity(),
            final(w).history() == old(w).history(),
            final(w).is_done() == old(w).is_done(),
            final(w).last_space() == old(w).last_space(),
            forall|rr: Reader| #[trigger]
                final(w).is_reader(rr) <==> #[trigger] old(w).is_reader(rr),
            final(w).backlog(*self) == old(w).backlog(*self) - n,
            final(w).room(*self) == old(w).room(*self) + n,
            final(w).reader_last(*self) == old(w).reader_last(*self) - n,
            final(w).readable_items(*self) == old(w).readable_items(*self).skip(n as int),
            forall|rr: Reader|
                rr.id != self.id && #[trigger] old(w).is_reader(rr) ==> {
                    &&& final(w).backlog(rr) == old(w).backlog(rr)
                    &&& final(w).room(rr) == old(w).room(rr)
                    &&& final(w).reader_last(rr) == old(w).reader_last(rr)
                    &&& final(w).readable_items(rr) == old(w).readable_items(rr)
                },
            forall|i: int| #[trigger] final(w).pending(i) == old(w).pending(i),
    {
        if n == 0 {
            proof {
                assert(w.readable_items(*self) =~= w.readable_items(*self).skip(0));
            }
            return;
        }
        let ghost pre = *w;
        let cap = w.buffer.capacity();
        match &mut w.readers[self.id] {
            Some(st) => {
                st.meta.consume(n);
                let r_off = st.offset;
                proof {
                    assert(pre.reader_last_at(self.id as int) <= pre.backlog_at(self.id as int));
                }
                if n >= cap - r_off {
                    st.ab = !st.ab;
                    st.offset = n - (cap - r_off);
                } else {
                    st.offset = r_off + n;
                }
                st.last_space = st.last_space - n;
                st.writer_notifier.notify();
            },
            None => {
                return vstd::pervasive::unreached();
            },
        }
        proof {
            let id = self.id as int;
            let cap_i = pre.capacity();
            let roff = pre.roff_at(id);
            let b = pre.backlog_at(id);
            lemma_consume_spans(
                roff,
                pre.rab_at(id),
                pre.writer_offset as int,
                pre.writer_ab,
                cap_i,
                n as int,
            );
            assert(w.roff_at(id) == wrap_index(roff, n as int, cap_i));
            assert(w.backlog_at(id) == b - n);
            assert forall|j: int| #[trigger] w.occupied(j) implies w.inv_at(j) by {
                assert(pre.occupied(j));
                assert(pre.window_connected(j));
                if j == id {
                    assert forall|q: int| 0 <= q < w.backlog_at(j) implies w.buffer@[
                        wrap_index(w.roff_at(j), q, w.capacity())] == #[trigger] w.history()[
                        w.history().len() - w.backlog_at(j) + q] by {
                        lemma_wrap_add(roff, n as int, q, cap_i);
                        assert(pre.buffer@[wrap_index(pre.roff_at(id), n + q, pre.capacity())]
                            == pre.history()[pre.history().len() - pre.backlog_at(id) + (n
                            + q)]);
                    }
                }
            }
            assert(w.readable_items(*self) =~= pre.readable_items(*self).skip(n as int));
            assert forall|rr: Reader|
                rr.id != self.id && #[trigger] pre.is_reader(rr) implies {
                &&& w.backlog(rr) == pre.backlog(rr)
                &&& w.room(rr) == pre.room(rr)
                &&& w.reader_last(rr) == pre.reader_last(rr)
                &&& w.readable_items(rr) == pre.readable_items(rr)
            } by {
                assert(w.readable_items(rr) =~= pre.readable_items(rr));
            }
        }
    }

    /// Detach this reader from the buffer. Its writer notifier is fired
    /// first, since removing a slow reader may have widened the writer's
    /// space. All other readers keep their state.
    pub fn detach<T: Copy + Default, N: Notifier, M: Metadata>(self, w: &mut Writer<T, N, M>)
        requires
            old(w).inv(),
            old(w).is_reader(self),
        ensures
            final(w).inv(),
            !final(w).is_reader(self),
            final(w).capacity() == old(w).capacity(),
            final(w).history() == old(w).history(),
            final(w).is_done() == old(w).is_done(),
            final(w).last_space() == old(w).last_space(),
            forall|rr: Reader|
                rr.id != self.id ==> (#[trigger] final(w).is_reader(rr) <==> #[trigger] old(
                    w,
                ).is_reader(rr)),
            forall|rr: Reader|
                rr.id != self.id && #[trigger] old(w).is_reader(rr) ==> {
                    &&& final(w).backlog(rr) == old(w).backlog(rr)
                    &&& final(w).room(rr) == old(w).room(rr)
                    &&& final(w).reader_last(rr) == old(w).reader_last(rr)
                    &&& final(w).readable_items(rr) == old(w).readable_items(rr)
                },
            forall|i: int| #[trigger] final(w).pending(i) == old(w).pending(i),
    {
        let ghost pre = *w;
        match &mut w.readers[self.id] {
            Some(st) => {
                st.writer_notifier.notify();
            },
            None => {
                return vstd::pervasive::unreached();
            },
        }
        w.readers.set(self.id, None);
        proof {
            assert forall|j: int| #[trigger] w.occupied(j) implies w.inv_at(j) by {
                assert(pre.occupied(j));
                assert(pre.window_connected(j));
            }
            assert forall|rr: Reader|
                rr.id != self.id && #[trigger] pre.is_reader(rr) implies {
                &&& w.backlog(rr) == pre.backlog(rr)
                &&& w.room(rr) == pre.room(rr)
                &&& w.reader_last(rr) == pre.reader_last(rr)
                &&& w.readable_items(rr) == pre.readable_items(rr)
            } by {
                assert(w.readable_items(rr) =~= pre.readable_items(rr));
            }
        }
    }
}

/// No lost wakeup, coordination side: when the writer is blocked and the
/// one reader without room towards the writer consumes at least one item,
/// the writer finds writable space on its next check.
///
/// With several blocking readers only the armed one is woken first; the
/// writer then blocks again on the next reader, so the law is stated for
/// the reader that is the last blocker.
pub proof fn lemma_no_lost_wakeup<T: Copy + Default, N: Notifier, M: Metadata>(
    pre: Writer<T, N, M>,
    post: Writer<T, N, M>,
    r: Reader,
    n: int,
)
    requires
        pre.inv(),
        post.inv(),
        pre.is_reader(r),
        pre.space_spec() == 0,
        forall|rr: Reader| #[trigger] pre.is_reader(rr) && rr.id != r.id ==> pre.room(rr) >= 1,
        n >= 1,
        forall|rr: Reader| #[trigger] post.is_reader(rr) <==> #[trigger] pre.is_reader(rr),
        post.room(r) == pre.room(r) + n,
        forall|rr: Reader|
            rr.id != r.id && #[trigger] pre.is_reader(rr) ==> post.room(rr) == pre.room(rr),
    ensures
        post.space_spec() >= 1,
{
    vstd::std_specs::vec::axiom_spec_len(&post.readers);
    assert forall|j: int|
        0 <= j < post.readers@.len() && #[trigger] post.occupied(j) implies post.room_at(j)
        >= 1 by {
        let rr = Reader { id: j as usize };
        assert(post.is_reader(rr));
        assert(pre.is_reader(rr));
        lemma_spans_partition(
            pre.roff_at(j),
            pre.rab_at(j),
            pre.writer_offset as int,
            pre.writer_ab,
            pre.capacity(),
        );
        if rr.id == r.id {
            assert(post.room(rr) == pre.room(rr) + n);
        }
    }
    post.lemma_space_upto_positive(post.readers@.len() as int);
}

/// Every reader receives exactly the produced stream, in order: what it may
/// read is the tail of the stream that starts where its consumption
/// stopped, and the whole stream is the consumed part followed by that
/// tail.
pub proof fn lemma_reader_stream_is_produced_stream<T: Copy + Default, N: Notifier, M: Metadata>(
    w: Writer<T, N, M>,
    r: Reader,
)
    requires
        w.inv(),
        w.is_reader(r),
    ensures
        0 <= w.backlog(r) <= w.history().len(),
        w.readable_items(r) == w.history().skip(w.history().len() - w.backlog(r)),
        w.history() == w.history().take(w.history().len() - w.backlog(r)) + w.readable_items(r),
{
    assert(w.occupied(r.id as int));
    assert(w.readable_items(r) =~= w.history().skip(w.history().len() - w.backlog(r)));
    assert(w.history() =~= w.history().take(w.history().len() - w.backlog(r))
        + w.readable_items(r));
}

} // verus!
