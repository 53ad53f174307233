//! Non-blocking circular buffer that can only check whether data or space
//! is available right now. The notifiers do nothing; callers poll.

use vstd::prelude::*;

use crate::double_mapped_buffer::allocation_feasible;
use crate::generic;
use crate::generic::CircularError;
use crate::generic::NoMetadata;
use crate::generic::Notifier;
use crate::generic::Reader;

verus! {

/// Notifier that does nothing: nobody ever waits on this buffer.
struct NullNotifier;

impl Notifier for NullNotifier {
    fn arm(&mut self) {
    }

    fn notify(&mut self) {
    }
}

/// Builder for the non-blocking circular buffer implementation.
pub struct Circular;

impl Circular {
    /// Create a buffer for items of type `T` with minimal capacity, usually
    /// one page worth of items.
    pub fn new<T: Copy + Default>() -> (r: Result<Writer<T>, CircularError>)
        ensures
            match r {
                Ok(w) => {
                    &&& w.inv()
                    &&& w.capacity() >= 1
                    &&& w.history() == Seq::<T>::empty()
                    &&& !w.is_done()
                    &&& w.last_space() == 0
                    &&& forall|rr: Reader| !w.is_reader(rr)
                },
                Err(e) => {
                    &&& e == CircularError::Allocation
                    &&& !allocation_feasible(0, size_of::<T>() as int)
                },
            },
    {
        Self::with_capacity(0)
    }

    /// Create a buffer that can hold at least `min_items` items of type `T`.
    ///
    /// The size is the smallest common multiple of the page granularity and
    /// the item size that holds at least `min_items` items.
    pub fn with_capacity<T: Copy + Default>(min_items: usize) -> (r: Result<
        Writer<T>,
        CircularError,
    >)
        ensures
            match r {
                Ok(w) => {
                    &&& w.inv()
                    &&& w.capacity() >= min_items
                    &&& w.capacity() >= 1
                    &&& w.history() == Seq::<T>::empty()
                    &&& !w.is_done()
                    &&& w.last_space() == 0
                    &&& forall|rr: Reader| !w.is_reader(rr)
                },
                Err(e) => {
                    &&& e == CircularError::Allocation
                    &&& !allocation_feasible(min_items as int, size_of::<T>() as int)
                },
            },
    {
        match generic::Circular::with_capacity::<T, NullNotifier, NoMetadata>(min_items) {
            Ok(inner) => Ok(Writer { inner }),
            Err(e) => Err(e),
        }
    }
}

/// Writer for a non-blocking circular buffer with items of type `T`.
pub struct Writer<T> {
    inner: generic::Writer<T, NullNotifier, NoMetadata>,
}

impl<T: Copy + Default> Writer<T> {
    /// Well-formedness of the underlying engine.
    pub closed spec fn inv(self) -> bool {
        self.inner.inv()
    }

    /// Number of items the ring can hold.
    pub closed spec fn capacity(self) -> int {
        self.inner.capacity()
    }

    /// Every item ever produced, oldest first.
    pub closed spec fn history(self) -> Seq<T> {
        self.inner.history()
    }

    /// Whether the writer has announced the end of the stream.
    pub closed spec fn is_done(self) -> bool {
        self.inner.is_done()
    }

    /// The bound on the next `produce`.
    pub closed spec fn last_space(self) -> int {
        self.inner.last_space()
    }

    /// Whether `r` is an attached reader of this buffer.
    pub closed spec fn is_reader(self, r: Reader) -> bool {
        self.inner.is_reader(r)
    }

    /// Items reader `r` may read.
    pub closed spec fn backlog(self, r: Reader) -> int {
        self.inner.backlog(r)
    }

    /// Items the writer may write without passing reader `r`.
    pub closed spec fn room(self, r: Reader) -> int {
        self.inner.room(r)
    }

    /// The bound on the next `consume` of reader `r`.
    pub closed spec fn reader_last(self, r: Reader) -> int {
        self.inner.reader_last(r)
    }

    /// The part of the produced stream reader `r` has not consumed yet.
    pub closed spec fn readable_items(self, r: Reader) -> Seq<T> {
        self.inner.readable_items(r)
    }

    /// Item currently staged at position `i` of the writer window.
    pub closed spec fn pending(self, i: int) -> T {
        self.inner.pending(i)
    }

    /// The writer's writable space: the least room over all readers.
    pub closed spec fn space_spec(self) -> int {
        self.inner.space_spec()
    }

    /// Add a reader to the buffer.
    ///
    /// Every reader gates the buffer: the writer only overwrites data that
    /// was consumed by all readers. A new reader starts with an empty
    /// window.
    pub fn add_reader(&mut self) -> (r: Reader)
        requires
            old(self).inv(),
        ensures
            final(self).inv(),
            final(self).is_reader(r),
            !old(self).is_reader(r),
            final(self).backlog(r) == 0,
            final(self).reader_last(r) == 0,
            final(self).room(r) == final(self).capacity(),
            final(self).readable_items(r) == Seq::<T>::empty(),
            final(self).capacity() == old(self).capacity(),
            final(self).history() == old(self).history(),
            final(self).is_done() == old(self).is_done(),
            final(self).last_space() == old(self).last_space(),
            forall|rr: Reader|
                rr.id != r.id ==> (final(self).is_reader(rr) <==> old(self).is_reader(rr)),
            forall|rr: Reader|
                rr.id != r.id && #[trigger] old(self).is_reader(rr) ==> {
                    &&& final(self).backlog(rr) == old(self).backlog(rr)
                    &&& final(self).room(rr) == old(self).room(rr)
                    &&& final(self).reader_last(rr) == old(self).reader_last(rr)
                },
    {
        self.inner.add_reader(NullNotifier, NullNotifier)
    }

    /// Number of free slots available for writing right now. Returns
    /// immediately; the window may be empty.
    ///
    /// Positions `0..space` of the window may then be filled through
    /// [`Writer::write_at`], and published with [`Writer::produce`].
    pub fn try_space(&mut self) -> (r: usize)
        requires
            old(self).inv(),
        ensures
            final(self).inv(),
            r == old(self).space_spec(),
            final(self).space_spec() == old(self).space_spec(),
            final(self).last_space() == r,
            final(self).capacity() == old(self).capacity(),
            final(self).history() == old(self).history(),
            final(self).is_done() == old(self).is_done(),
            forall|rr: Reader| #[trigger]
                final(self).is_reader(rr) <==> #[trigger] old(self).is_reader(rr),
            forall|rr: Reader| #[trigger]
                old(self).is_reader(rr) ==> {
                    &&& final(self).backlog(rr) == old(self).backlog(rr)
                    &&& final(self).room(rr) == old(self).room(rr)
                    &&& final(self).reader_last(rr) == old(self).reader_last(rr)
                },
            forall|i: int| #[trigger] final(self).pending(i) == old(self).pending(i),
    {
        self.inner.space(false)
    }

    /// Write one item at position `i` of the current writer window.
    pub fn write_at(&mut self, i: usize, v: T)
        requires
            old(self).inv(),
            i < old(self).last_space(),
        ensures
            final(self).inv(),
            final(self).pending(i as int) == v,
            forall|t: int|
                0 <= t < final(self).capacity() && t != i ==> #[trigger] final(self).pending(t)
                    == old(self).pending(t),
            final(self).capacity() == old(self).capacity(),
            final(self).history() == old(self).history(),
            final(self).is_done() == old(self).is_done(),
            final(self).last_space() == old(self).last_space(),
            final(self).space_spec() == old(self).space_spec(),
            forall|rr: Reader| #[trigger]
                final(self).is_reader(rr) <==> #[trigger] old(self).is_reader(rr),
            forall|rr: Reader| #[trigger]
                old(self).is_reader(rr) ==> {
                    &&& final(self).backlog(rr) == old(self).backlog(rr)
                    &&& final(self).room(rr) == old(self).room(rr)
                    &&& final(self).reader_last(rr) == old(self).reader_last(rr)
                    &&& final(self).readable_items(rr) == old(self).readable_items(rr)
                },
    {
        self.inner.write_at(i, v)
    }

    /// Indicate that `n` items were written to the window: they become the
    /// next `n` items of the stream and every reader's backlog grows by
    /// `n`. It is fine for `n` to be zero.
    pub fn produce(&mut self, n: usize)
        requires
            old(self).inv(),
            n <= old(self).last_space(),
        ensures
            final(self).inv(),
            final(self).history() == old(self).history() + Seq::new(
                n as nat,
                |t: int| old(self).pending(t),
            ),
            final(self).capacity() == old(self).capacity(),
            final(self).is_done() == old(self).is_done(),
            final(self).last_space() == old(self).last_space() - n,
            forall|rr: Reader| #[trigger]
                final(self).is_reader(rr) <==> #[trigger] old(self).is_reader(rr),
            forall|rr: Reader| #[trigger]
                old(self).is_reader(rr) ==> {
                    &&& final(self).backlog(rr) == old(self).backlog(rr) + n
                    &&& final(self).room(rr) == old(self).room(rr) - n
                    &&& final(self).reader_last(rr) == old(self).reader_last(rr)
                    &&& final(self).readable_items(rr) == old(self).readable_items(rr) + Seq::new(
                        n as nat,
                        |t: int| old(self).pending(t),
                    )
                },
    {
        self.inner.produce(n, Vec::new())
    }

    /// Check whether there is data for reader `r` to read.
    ///
    /// If all data is read and the writer announced the end of the stream,
    /// returns `None`. If there is no data to read, returns an empty
    /// window. The returned items are exactly the not yet consumed part of
    /// the produced stream, in order.
    pub fn try_slice(&mut self, r: &Reader) -> (res: Option<Vec<T>>)
        requires
            old(self).inv(),
            old(self).is_reader(*r),
        ensures
            final(self).inv(),
            final(self).capacity() == old(self).capacity(),
            final(self).history() == old(self).history(),
            final(self).is_done() == old(self).is_done(),
            final(self).last_space() == old(self).last_space(),
            final(self).space_spec() == old(self).space_spec(),
            forall|rr: Reader| #[trigger]
                final(self).is_reader(rr) <==> #[trigger] old(self).is_reader(rr),
            forall|rr: Reader| #[trigger]
                old(self).is_reader(rr) ==> {
                    &&& final(self).backlog(rr) == old(self).backlog(rr)
                    &&& final(self).room(rr) == old(self).room(rr)
                    &&& final(self).readable_items(rr) == old(self).readable_items(rr)
                    &&& (rr.id != r.id ==> final(self).reader_last(rr) == old(self).reader_last(
                        rr,
                    ))
                },
            final(self).reader_last(*r) == old(self).backlog(*r),
            forall|i: int| #[trigger] final(self).pending(i) == old(self).pending(i),
            match res {
                None => old(self).backlog(*r) == 0 && old(self).is_done(),
                Some(v) => {
                    &&& v@ == old(self).readable_items(*r)
                    &&& v@.len() == old(self).backlog(*r)
                    &&& !(old(self).backlog(*r) == 0 && old(self).is_done())
                },
            },
    {
        match r.slice(&mut self.inner, false) {
            Some((v, _)) => Some(v),
            None => None,
        }
    }

    /// Indicate that reader `r` read `n` items of its last window.
    pub fn consume(&mut self, r: &Reader, n: usize)
        requires
            old(self).inv(),
            old(self).is_reader(*r),
            n <= old(self).reader_last(*r),
        ensures
            final(self).inv(),
            final(self).capacity() == old(self).capacity(),
            final(self).history() == old(self).history(),
            final(self).is_done() == old(self).is_done(),
            final(self).last_space() == old(self).last_space(),
            forall|rr: Reader| #[trigger]
                final(self).is_reader(rr) <==> #[trigger] old(self).is_reader(rr),
            final(self).backlog(*r) == old(self).backlog(*r) - n,
            final(self).room(*r) == old(self).room(*r) + n,
            final(self).reader_last(*r) == old(self).reader_last(*r) - n,
            final(self).readable_items(*r) == old(self).readable_items(*r).skip(n as int),
            forall|rr: Reader|
                rr.id != r.id && #[trigger] old(self).is_reader(rr) ==> {
                    &&& final(self).backlog(rr) == old(self).backlog(rr)
                    &&& final(self).room(rr) == old(self).room(rr)
                    &&& final(self).reader_last(rr) == old(self).reader_last(rr)
                    &&& final(self).readable_items(rr) == old(self).readable_items(rr)
                },
            forall|i: int| #[trigger] final(self).pending(i) == old(self).pending(i),
    {
        r.consume(&mut self.inner, n)
    }

    /// Announce the end of the stream: no further items will be produced.
    /// Readers still drain their backlog, then observe the end.
    pub fn close(&mut self)
        requires
            old(self).inv(),
        ensures
            final(self).inv(),
            final(self).is_done(),
            final(self).capacity() == old(self).capacity(),
            final(self).history() == old(self).history(),
            final(self).last_space() == old(self).last_space(),
            final(self).space_spec() == old(self).space_spec(),
            forall|rr: Reader| #[trigger]
                final(self).is_reader(rr) <==> #[trigger] old(self).is_reader(rr),
            forall|rr: Reader| #[trigger]
                old(self).is_reader(rr) ==> {
                    &&& final(self).backlog(rr) == old(self).backlog(rr)
                    &&& final(self).room(rr) == old(self).room(rr)
                    &&& final(self).reader_last(rr) == old(self).reader_last(rr)
                    &&& final(self).readable_items(rr) == old(self).readable_items(rr)
                },
    {
        self.inner.close()
    }

    /// Detach reader `r` from the buffer; the writer stops waiting for it.
    pub fn detach(&mut self, r: Reader)
        requires
            old(self).inv(),
            old(self).is_reader(r),
        ensures
            final(self).inv(),
            !final(self).is_reader(r),
            final(self).capacity() == old(self).capacity(),
            final(self).history() == old(self).history(),
            final(self).is_done() == old(self).is_done(),
            final(self).last_space() == old(self).last_space(),
            forall|rr: Reader|
                rr.id != r.id ==> (#[trigger] final(self).is_reader(rr) <==> #[trigger] old(
                    self,
                ).is_reader(rr)),
            forall|rr: Reader|
                rr.id != r.id && #[trigger] old(self).is_reader(rr) ==> {
                    &&& final(self).backlog(rr) == old(self).backlog(rr)
                    &&& final(self).room(rr) == old(self).room(rr)
                    &&& final(self).reader_last(rr) == old(self).reader_last(rr)
                    &&& final(self).readable_items(rr) == old(self).readable_items(rr)
                },
    {
        r.detach(&mut self.inner)
    }
}

} // verus!
