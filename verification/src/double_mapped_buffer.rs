//! Storage layer: a region of items that can be read through a window
//! starting at any offset in `[0, capacity]`, so that a window crossing the
//! wrap-around boundary is still one contiguous run of items.
//!
//! The region size is the smallest positive multiple of the page granularity
//! that holds at least the requested number of items and is also a multiple
//! of the item size, so the wrap boundary falls on an item boundary.

use vstd::prelude::*;

verus! {

use vstd::arithmetic::div_mod::lemma_add_mod_noop;
use vstd::arithmetic::div_mod::lemma_mod_self_0;
use vstd::arithmetic::div_mod::lemma_small_mod;
use vstd::arithmetic::div_mod::lemma_sub_mod_noop;

/// Granularity, in bytes, that region sizes are rounded to.
pub const GRANULARITY: usize = 4096;

/// Granularity of the virtual memory pages the buffer is laid out for.
///
/// Determines the rounding of the buffer size, which has to be a multiple of
/// the page size.
pub fn pagesize() -> (r: usize)
    ensures
        r == GRANULARITY,
{
    GRANULARITY
}

/// Errors that can occur when setting up the buffer region.
#[derive(Debug, Clone, Copy, PartialEq, Eq, Structural)]
pub enum DoubleMappedBufferError {
    /// Failed to close the backing handle.
    Close,
    /// Failed to unmap the second half.
    UnmapSecond,
    /// Failed to map the second half.
    MapSecond,
    /// Failed to map the first half.
    MapFirst,
    /// Failed to reserve the placeholder region.
    Placeholder,
    /// Failed to truncate the backing storage.
    Truncate,
    /// Failed to unlink the backing storage.
    Unlink,
    /// Failed to create the backing storage.
    Create,
    /// Region base is not aligned for the item type.
    Alignment,
}

/// A region size is valid when it is positive, a multiple of the given
/// granularity, a multiple of the item size, and holds `min_items` items.
pub open spec fn valid_region_size(s: int, min_items: int, item_size: int, granularity: int) -> bool {
    &&& s >= 1
    &&& s % granularity == 0
    &&& s % item_size == 0
    &&& s >= min_items * item_size
}

/// A positive multiple of `g` is at least `g`.
proof fn lemma_positive_multiple_ge(x: int, g: int)
    requires
        g >= 1,
        x >= 1,
        x % g == 0,
    ensures
        x >= g,
{
    assert(x >= g) by (nonlinear_arith)
        requires
            g >= 1,
            x >= 1,
            x % g == 0,
    ;
}

/// Two multiples of `g` are at least `g` apart.
proof fn lemma_next_multiple(a: int, b: int, g: int)
    requires
        g >= 1,
        a % g == 0,
        b % g == 0,
        b > a,
    ensures
        b >= a + g,
{
    lemma_sub_mod_noop(b, a, g);
    lemma_small_mod(0nat, g as nat);
    lemma_positive_multiple_ge(b - a, g);
}

/// Smallest valid region size for `min_items` items of `item_size` bytes,
/// rounded to `granularity`, or `None` when no valid size fits in `usize`.
pub fn smallest_region_size(min_items: usize, item_size: usize, granularity: usize) -> (r: Option<
    usize,
>)
    requires
        item_size >= 1,
        granularity >= 1,
    ensures
        match r {
            Some(s) => {
                &&& valid_region_size(
                    s as int,
                    min_items as int,
                    item_size as int,
                    granularity as int,
                )
                &&& forall|s2: int|
                    valid_region_size(s2, min_items as int, item_size as int, granularity as int) ==> s2 >= s
            },
            None => forall|s2: int|
                1 <= s2 <= usize::MAX ==> !valid_region_size(
                    s2,
                    min_items as int,
                    item_size as int,
                    granularity as int,
                ),
        },
{
    let need: usize = match min_items.checked_mul(item_size) {
        Some(n) => n,
        None => {
            return None;
        },
    };
    let mut size: usize = granularity;
    proof {
        lemma_mod_self_0(granularity as int);
        assert forall|v: int|
            1 <= v < size && #[trigger] (v % (granularity as int)) == 0
                implies !valid_region_size(
            v,
            min_items as int,
            item_size as int,
            granularity as int,
        ) by {
            lemma_positive_multiple_ge(v, granularity as int);
        }
    }
    while size < need || size % item_size != 0
        invariant
            item_size >= 1,
            granularity >= 1,
            need == min_items * item_size,
            size >= granularity,
            size as int % (granularity as int) == 0,
            forall|v: int|
                1 <= v < size && #[trigger] (v % (granularity as int)) == 0 ==> !valid_region_size(v, min_items as int, item_size as int, granularity as int),
        decreases usize::MAX - size,
    {
        proof {
            lemma_mod_self_0(granularity as int);
            lemma_add_mod_noop(size as int, granularity as int, granularity as int);
            lemma_small_mod(0nat, granularity as nat);
            assert forall|v: int|
                1 <= v < size + granularity && #[trigger] (v % (granularity as int)) == 0
                    implies !valid_region_size(
                v,
                min_items as int,
                item_size as int,
                granularity as int,
            ) by {
                if v >= size {
                    if v > size {
                        lemma_next_multiple(size as int, v, granularity as int);
                    }
                }
            }
        }
        size = match size.checked_add(granularity) {
            Some(s2) => s2,
            None => {
                proof {
                    assert forall|s2: int| 1 <= s2 <= usize::MAX implies !valid_region_size(
                        s2,
                        min_items as int,
                        item_size as int,
                        granularity as int,
                    ) by {
                        if s2 % (granularity as int) == 0 {
                            if s2 > size {
                                lemma_next_multiple(size as int, s2, granularity as int);
                            }
                        }
                    }
                }
                return None;
            },
        };
    }
    proof {
        assert forall|s2: int|
            valid_region_size(s2, min_items as int, item_size as int, granularity as int) implies s2 >= size by {
            lemma_positive_multiple_ge(s2, granularity as int);
        }
    }
    Some(size)
}

/// Position of the item `i` places after `base` on a ring of `cap` items.
pub open spec fn wrap_index(base: int, i: int, cap: int) -> int {
    if base + i < cap {
        base + i
    } else {
        base + i - cap
    }
}

/// There is a region whose size is valid, fits in `usize`, and whose item
/// capacity leaves the doubled view addressable.
pub open spec fn allocation_feasible(min_items: int, item_size: int) -> bool {
    &&& item_size >= 1
    &&& exists|s: int|
        {
            &&& 1 <= s <= usize::MAX
            &&& #[trigger] valid_region_size(s, min_items, item_size, GRANULARITY as int)
            &&& 2 * (s / item_size) <= usize::MAX
        }
}

/// A region of `capacity` items held twice, back to back, so that any window
/// of `capacity` items starting at an offset up to `capacity` is contiguous.
///
/// The view `self@` is the logical ring: the first of the two copies.
pub struct DoubleMappedBuffer<T> {
    data: Vec<T>,
    capacity: usize,
}

impl<T> View for DoubleMappedBuffer<T> {
    type V = Seq<T>;

    closed spec fn view(&self) -> Seq<T> {
        self.data@.subrange(0, self.capacity as int)
    }
}

impl<T: Copy + Default> DoubleMappedBuffer<T> {
    /// The two copies agree item for item and the ring is not empty.
    pub closed spec fn wf(&self) -> bool {
        &&& self.capacity >= 1
        &&& self.data@.len() == 2 * self.capacity
        &&& forall|i: int|
            0 <= i < self.capacity ==> self.data@[i + self.capacity] == #[trigger] self.data@[i]
    }

    /// Create a buffer that can hold at least `min_items` items.
    ///
    /// The capacity of the buffer is the smallest multiple of the page
    /// granularity and the item size that can hold at least `min_items`
    /// items, counted in items.
    pub fn new(min_items: usize) -> (r: Result<Self, DoubleMappedBufferError>)
        ensures
            match r {
                Ok(b) => {
                    &&& allocation_feasible(min_items as int, size_of::<T>() as int)
                    &&& b.wf()
                    &&& b@.len() >= min_items
                    &&& b@.len() >= 1
                    &&& valid_region_size(
                        b@.len() * size_of::<T>(),
                        min_items as int,
                        size_of::<T>() as int,
                        GRANULARITY as int,
                    )
                    &&& forall|s2: int|
                        #[trigger] valid_region_size(
                            s2,
                            min_items as int,
                            size_of::<T>() as int,
                            GRANULARITY as int,
                        ) ==> s2 >= b@.len() * size_of::<T>()
                },
                Err(e) => {
                    &&& !allocation_feasible(min_items as int, size_of::<T>() as int)
                    &&& e == DoubleMappedBufferError::Placeholder
                },
            },
    {
        let item_size: usize = core::mem::size_of::<T>();
        if item_size == 0 {
            return Err(DoubleMappedBufferError::Placeholder);
        }
        let size: usize = match smallest_region_size(min_items, item_size, GRANULARITY) {
            Some(s) => s,
            None => {
                return Err(DoubleMappedBufferError::Placeholder);
            },
        };
        let capacity: usize = size / item_size;
        proof {
            lemma_capacity_facts(
                size as int,
                min_items as int,
                item_size as int,
                GRANULARITY as int,
            );
        }
        let total: usize = match capacity.checked_mul(2) {
            Some(t) => t,
            None => {
                proof {
                    assert forall|s2: int|
                        {
                            &&& 1 <= s2 <= usize::MAX
                            &&& #[trigger] valid_region_size(
                                s2,
                                min_items as int,
                                item_size as int,
                                GRANULARITY as int,
                            )
                        } implies 2 * (s2 / item_size as int) > usize::MAX by {
                        vstd::arithmetic::div_mod::lemma_div_is_ordered(
                            size as int,
                            s2,
                            item_size as int,
                        );
                    }
                }
                return Err(DoubleMappedBufferError::Placeholder);
            },
        };
        let fill: T = Default::default();
        let mut data: Vec<T> = Vec::new();
        let mut j: usize = 0;
        while j < total
            invariant
                data@.len() == j,
                j <= total,
                forall|k: int| 0 <= k < j ==> data@[k] == fill,
            decreases total - j,
        {
            data.push(fill);
            j = j + 1;
        }
        let b = DoubleMappedBuffer { data, capacity };
        proof {
            assert(b@ =~= b.data@.subrange(0, b.capacity as int));
            assert(b@.len() * item_size == size) by (nonlinear_arith)
                requires
                    item_size >= 1,
                    b@.len() == size as int / item_size as int,
                    size as int % item_size as int == 0,
            ;
        }
        Ok(b)
    }

    /// The capacity of the buffer: how many items it can hold.
    pub fn capacity(&self) -> (r: usize)
        requires
            self.wf(),
        ensures
            r == self@.len(),
    {
        self.capacity
    }

    /// The slice corresponding to the first copy of the region.
    pub fn slice(&self) -> (r: &[T])
        requires
            self.wf(),
        ensures
            r@ == self@,
    {
        let r = vstd::slice::slice_subrange(self.data.as_slice(), 0, self.capacity);
        proof {
            assert(r@ =~= self@);
        }
        r
    }

    /// View of the full ring, shifted by an offset up to the capacity.
    ///
    /// The window is one contiguous run of `capacity` items even when it
    /// crosses the wrap-around boundary: item `i` of the window is item
    /// `(offset + i) mod capacity` of the ring.
    pub fn slice_with_offset(&self, offset: usize) -> (r: &[T])
        requires
            self.wf(),
            offset <= self@.len(),
        ensures
            r@.len() == self@.len(),
            forall|i: int|
                0 <= i < self@.len() ==> #[trigger] r@[i] == self@[wrap_index(
                    offset as int,
                    i,
                    self@.len() as int,
                )],
    {
        let n = self.data.len();
        assert(offset + self.capacity <= n);
        let r = vstd::slice::slice_subrange(
            self.data.as_slice(),
            offset,
            offset + self.capacity,
        );
        proof {
            assert forall|i: int| 0 <= i < self@.len() implies #[trigger] r@[i] == self@[
                wrap_index(offset as int, i, self@.len() as int)] by {
                if offset + i >= self.capacity {
                    assert(self.data@[(offset + i - self.capacity) + self.capacity]
                        == self.data@[offset + i - self.capacity]);
                }
            }
        }
        r
    }

    /// Write one item at a ring position; both copies are kept in step.
    pub fn write(&mut self, pos: usize, v: T)
        requires
            old(self).wf(),
            pos < old(self)@.len(),
        ensures
            final(self).wf(),
            final(self)@ == old(self)@.update(pos as int, v),
    {
        let cap = self.capacity;
        let n = self.data.len();
        assert(pos + cap < n);
        self.data.set(pos, v);
        self.data.set(pos + cap, v);
        proof {
            assert(self@ =~= old(self)@.update(pos as int, v));
        }
    }
}

/// Capacity facts for the smallest valid region size.
proof fn lemma_capacity_facts(s: int, min_items: int, item_size: int, granularity: int)
    requires
        item_size >= 1,
        valid_region_size(s, min_items, item_size, granularity),
    ensures
        s / item_size >= min_items,
        s / item_size >= 1,
{
    assert(s / item_size >= min_items && s / item_size >= 1) by (nonlinear_arith)
        requires
            item_size >= 1,
            s >= 1,
            s % item_size == 0,
            s >= min_items * item_size,
    ;
}

} // verus!
