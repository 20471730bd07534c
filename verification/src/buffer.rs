//! Buffers for the encoding path: a vector with inline capacity, a ring
//! buffer that overwrites its oldest item when full, and a pool of 16-bit
//! scratch buffers.

use vstd::prelude::*;

verus! {

/// The capacity after growing from `capacity` to hold at least `min_capacity`:
/// the largest of `min_capacity`, twice `capacity` (held at the largest
/// size), and the inline capacity `inline`.
pub open spec fn grown_capacity(capacity: usize, min_capacity: usize, inline: usize) -> usize {
    let doubled: usize = if capacity > usize::MAX / 2 {
        usize::MAX
    } else {
        (capacity * 2) as usize
    };
    let floor: usize = if doubled > inline {
        doubled
    } else {
        inline
    };
    if min_capacity > floor {
        min_capacity
    } else {
        floor
    }
}

/// A vector that counts its first `N` items as stored inline and moves to
/// the heap only beyond them.
#[derive(Debug)]
pub struct InlineVec<T, const N: usize> {
    items: Vec<T>,
    heap_capacity: Option<usize>,
}

impl<T, const N: usize> View for InlineVec<T, N> {
    type V = Seq<T>;

    closed spec fn view(&self) -> Seq<T> {
        self.items@
    }
}

impl<T: Copy, const N: usize> InlineVec<T, N> {
    /// The number of items the vector holds without growing.
    pub closed spec fn spec_capacity(&self) -> usize {
        match self.heap_capacity {
            Some(c) => c,
            None => N,
        }
    }

    /// Whether the items are stored inline.
    pub closed spec fn spec_is_inline(&self) -> bool {
        self.heap_capacity is None
    }

    /// The vector's invariant: it holds no more items than its capacity.
    pub closed spec fn wf(&self) -> bool {
        self.items@.len() <= self.spec_capacity()
    }

    /// An empty vector with inline storage.
    pub fn new() -> (v: Self)
        ensures
            v.wf(),
            v@ == Seq::<T>::empty(),
            v.spec_is_inline(),
            v.spec_capacity() == N,
    {
        InlineVec { items: Vec::new(), heap_capacity: None }
    }

    /// An empty vector that holds `capacity` items without growing: inline
    /// where `capacity` is at most `N`, else on the heap.
    pub fn with_capacity(capacity: usize) -> (v: Self)
        ensures
            v.wf(),
            v@ == Seq::<T>::empty(),
            v.spec_is_inline() == (capacity <= N),
            v.spec_capacity() == (if capacity <= N {
                N
            } else {
                capacity
            }),
    {
        if capacity <= N {
            Self::new()
        } else {
            InlineVec { items: Vec::new(), heap_capacity: Some(capacity) }
        }
    }

    /// A vector with the items of `slice`.
    pub fn from_slice(slice: &[T]) -> (v: Self)
        ensures
            v.wf(),
            v@ == slice@,
            v.spec_is_inline() == (slice@.len() <= N),
            v.spec_capacity() == (if slice@.len() <= N {
                N
            } else {
                slice@.len() as usize
            }),
    {
        let mut v: Self = Self::with_capacity(slice.len());
        let mut i: usize = 0;
        while i < slice.len()
            invariant
                i <= slice@.len(),
                v.wf(),
                v@ == slice@.take(i as int),
                v.spec_is_inline() == (slice@.len() <= N),
                v.spec_capacity() == (if slice@.len() <= N {
                    N
                } else {
                    slice@.len() as usize
                }),
            decreases slice@.len() - i,
        {
            v.push(slice[i]);
            i = i + 1;
            assert(v@ =~= slice@.take(i as int));
        }
        assert(slice@.take(slice@.len() as int) =~= slice@);
        v
    }

    /// A vector with the items of `iter`, in order.
    pub fn from_iter(iter: Vec<T>) -> (v: Self)
        ensures
            v.wf(),
            v@ == iter@,
            v.spec_is_inline() == (iter@.len() <= N),
    {
        Self::from_slice(iter.as_slice())
    }

    /// Adds an item at the end, growing first when the vector is full.
    pub fn push(&mut self, value: T)
        requires
            old(self).wf(),
        ensures
            final(self).wf(),
            final(self)@ == old(self)@.push(value),
            old(self)@.len() < old(self).spec_capacity()
                ==> final(self).spec_capacity() == old(self).spec_capacity()
                && final(self).spec_is_inline() == old(self).spec_is_inline(),
            old(self)@.len() == old(self).spec_capacity() ==> !final(self).spec_is_inline()
                && final(self).spec_capacity() == grown_capacity(
                old(self).spec_capacity(),
                if old(self)@.len() >= usize::MAX {
                    usize::MAX
                } else {
                    (old(self)@.len() + 1) as usize
                },
                N,
            ),
    {
        let len: usize = self.items.len();
        if len == self.capacity() {
            let wanted: usize = if len == usize::MAX {
                usize::MAX
            } else {
                len + 1
            };
            self.grow(wanted);
        }
        self.items.push(value);
        let held: usize = self.items.len();
        assert(held <= self.spec_capacity());
    }

    /// Removes the last item and returns it; `None` on an empty vector.
    pub fn pop(&mut self) -> (r: Option<T>)
        requires
            old(self).wf(),
        ensures
            final(self).wf(),
            final(self).spec_capacity() == old(self).spec_capacity(),
            final(self).spec_is_inline() == old(self).spec_is_inline(),
            match r {
                Some(x) => old(self)@.len() > 0 && x == old(self)@.last()
                    && final(self)@ == old(self)@.drop_last(),
                None => old(self)@.len() == 0 && final(self)@ == old(self)@,
            },
    {
        self.items.pop()
    }

    /// The number of items.
    pub fn len(&self) -> (n: usize)
        ensures
            n == self@.len(),
    {
        self.items.len()
    }

    /// Whether there is no item.
    pub fn is_empty(&self) -> (b: bool)
        ensures
            b == (self@.len() == 0),
    {
        self.items.len() == 0
    }

    /// The number of items the vector holds without growing.
    pub fn capacity(&self) -> (c: usize)
        ensures
            c == self.spec_capacity(),
    {
        match self.heap_capacity {
            Some(c) => c,
            None => N,
        }
    }

    /// Whether the items are stored inline.
    pub fn is_inline(&self) -> (b: bool)
        ensures
            b == self.spec_is_inline(),
    {
        self.heap_capacity.is_none()
    }

    /// Makes room for `additional` more items.
    pub fn reserve(&mut self, additional: usize)
        requires
            old(self).wf(),
        ensures
            final(self).wf(),
            final(self)@ == old(self)@,
            ({
                let wanted: usize = if old(self)@.len() + additional > usize::MAX {
                    usize::MAX
                } else {
                    (old(self)@.len() + additional) as usize
                };
                if wanted > old(self).spec_capacity() {
                    !final(self).spec_is_inline() && final(self).spec_capacity() == grown_capacity(
                        old(self).spec_capacity(),
                        wanted,
                        N,
                    )
                } else {
                    final(self).spec_capacity() == old(self).spec_capacity()
                        && final(self).spec_is_inline() == old(self).spec_is_inline()
                }
            }),
    {
        let len: usize = self.items.len();
        let new_capacity: usize = if additional > usize::MAX - len {
            usize::MAX
        } else {
            len + additional
        };
        if new_capacity > self.capacity() {
            self.grow(new_capacity);
        }
    }

    /// Removes every item; the capacity stays.
    pub fn clear(&mut self)
        requires
            old(self).wf(),
        ensures
            final(self).wf(),
            final(self)@ == Seq::<T>::empty(),
            final(self).spec_capacity() == old(self).spec_capacity(),
            final(self).spec_is_inline() == old(self).spec_is_inline(),
    {
        self.items.clear();
    }

    /// The item at `index`; `None` beyond the end.
    pub fn get(&self, index: usize) -> (r: Option<&T>)
        ensures
            match r {
                Some(x) => index < self@.len() && *x == self@[index as int],
                None => index >= self@.len(),
            },
    {
        if index >= self.items.len() {
            return None;
        }
        Some(&self.items[index])
    }

    /// The item at `index`, to be changed in place; `None` beyond the end.
    pub fn get_mut(&mut self, index: usize) -> (r: Option<&mut T>)
        requires
            old(self).wf(),
        ensures
            final(self).wf(),
            final(self).spec_capacity() == old(self).spec_capacity(),
            final(self).spec_is_inline() == old(self).spec_is_inline(),
            match r {
                Some(x) => index < old(self)@.len() && *x == old(self)@[index as int]
                    && final(self)@ == old(self)@.update(index as int, *final(x)),
                None => index >= old(self)@.len() && final(self)@ == old(self)@,
            },
    {
        if index >= self.items.len() {
            return None;
        }
        Some(&mut self.items[index])
    }

    /// Gives the vector `new_len` items: the first ones are kept, and where
    /// more are asked for, copies of `value` follow them.
    pub fn resize(&mut self, new_len: usize, value: T)
        requires
            old(self).wf(),
        ensures
            final(self).wf(),
            final(self)@.len() == new_len,
            forall|i: int|
                0 <= i < new_len ==> final(self)@[i] == (if i < old(self)@.len() {
                    old(self)@[i]
                } else {
                    value
                }),
            new_len <= old(self).spec_capacity()
                ==> final(self).spec_capacity() == old(self).spec_capacity()
                && final(self).spec_is_inline() == old(self).spec_is_inline(),
            new_len > old(self).spec_capacity()
                ==> !final(self).spec_is_inline()
                && final(self).spec_capacity()
                == grown_capacity(old(self).spec_capacity(), new_len, N),
    {
        let len: usize = self.items.len();
        if new_len > len {
            if new_len > self.capacity() {
                self.grow(new_len);
            }
            let mut i: usize = len;
            while i < new_len
                invariant
                    len <= i <= new_len,
                    new_len <= self.spec_capacity(),
                    self.items@.len() == i,
                    self.heap_capacity == old(self).heap_capacity
                        || (new_len > old(self).spec_capacity() && self.heap_capacity == Some(
                        grown_capacity(old(self).spec_capacity(), new_len, N),
                    )),
                    forall|j: int| 0 <= j < len ==> self.items@[j] == old(self)@[j],
                    forall|j: int| len <= j < i ==> self.items@[j] == value,
                    len == old(self)@.len(),
                decreases new_len - i,
            {
                self.items.push(value);
                i = i + 1;
            }
        } else if new_len < len {
            self.items.truncate(new_len);
        }
    }

    /// The items as a standard vector.
    pub fn to_vec(&self) -> (v: Vec<T>)
        ensures
            v@ == self@,
    {
        let mut v: Vec<T> = Vec::new();
        let mut i: usize = 0;
        while i < self.items.len()
            invariant
                i <= self.items@.len(),
                v@ == self.items@.take(i as int),
            decreases self.items@.len() - i,
        {
            v.push(self.items[i]);
            i = i + 1;
            assert(v@ =~= self.items@.take(i as int));
        }
        assert(self.items@.take(self.items@.len() as int) =~= self.items@);
        v
    }

    fn grow(&mut self, min_capacity: usize)
        requires
            old(self).wf(),
            min_capacity >= old(self)@.len(),
        ensures
            final(self).wf(),
            final(self)@ == old(self)@,
            !final(self).spec_is_inline(),
            final(self).spec_capacity() == grown_capacity(
                old(self).spec_capacity(),
                min_capacity,
                N,
            ),
    {
        let capacity: usize = self.capacity();
        let doubled: usize = if capacity > usize::MAX / 2 {
            usize::MAX
        } else {
            capacity * 2
        };
        let floor: usize = if doubled > N {
            doubled
        } else {
            N
        };
        let new_capacity: usize = if min_capacity > floor {
            min_capacity
        } else {
            floor
        };
        self.heap_capacity = Some(new_capacity);
    }
}


/// The place in a ring of `capacity` slots that lies `offset` slots behind
/// place `start`.
pub open spec fn ring_index(start: int, offset: int, capacity: int) -> int {
    if start + offset >= capacity {
        start + offset - capacity
    } else {
        start + offset
    }
}

/// A ring buffer of fixed capacity. A push onto a full buffer overwrites the
/// oldest item.
pub struct AdaptiveRingBuffer<T> {
    buffer: Vec<T>,
    read_pos: usize,
    write_pos: usize,
    len: usize,
    capacity: usize,
}

impl<T> View for AdaptiveRingBuffer<T> {
    type V = Seq<T>;

    /// The items, oldest first.
    closed spec fn view(&self) -> Seq<T> {
        Seq::new(
            self.len as nat,
            |i: int| self.buffer@[ring_index(self.read_pos as int, i, self.capacity as int)],
        )
    }
}

impl<T: Copy + Default> AdaptiveRingBuffer<T> {
    /// The most items the buffer holds.
    pub closed spec fn spec_capacity(&self) -> usize {
        self.capacity
    }

    /// The buffer's invariant.
    pub closed spec fn wf(&self) -> bool {
        &&& self.buffer@.len() == self.capacity
        &&& self.len <= self.capacity
        &&& self.capacity > 0 ==> self.read_pos < self.capacity && self.write_pos
            < self.capacity
        &&& self.capacity == 0 ==> self.read_pos == 0 && self.write_pos == 0
        &&& self.write_pos == ring_index(
            self.read_pos as int,
            self.len as int,
            self.capacity as int,
        ) || (self.len == self.capacity && self.write_pos == self.read_pos)
    }

    fn filled(capacity: usize) -> (v: Vec<T>)
        ensures
            v@.len() == capacity,
    {
        let mut v: Vec<T> = Vec::new();
        let mut i: usize = 0;
        while i < capacity
            invariant
                i <= capacity,
                v@.len() == i,
            decreases capacity - i,
        {
            v.push(T::default());
            i = i + 1;
        }
        v
    }

    /// An empty buffer for `capacity` items.
    pub fn new(capacity: usize) -> (b: Self)
        ensures
            b.wf(),
            b@ == Seq::<T>::empty(),
            b.spec_capacity() == capacity,
    {
        let b = AdaptiveRingBuffer {
            buffer: Self::filled(capacity),
            read_pos: 0,
            write_pos: 0,
            len: 0,
            capacity,
        };
        assert(b@ =~= Seq::<T>::empty());
        b
    }

    /// Removes every item.
    pub fn clear(&mut self)
        requires
            old(self).wf(),
        ensures
            final(self).wf(),
            final(self)@ == Seq::<T>::empty(),
            final(self).spec_capacity() == old(self).spec_capacity(),
    {
        self.read_pos = 0;
        self.write_pos = 0;
        self.len = 0;
        assert(self@ =~= Seq::<T>::empty());
    }

    /// Empties the buffer and gives it a new capacity.
    pub fn reset(&mut self, capacity: usize)
        ensures
            final(self).wf(),
            final(self)@ == Seq::<T>::empty(),
            final(self).spec_capacity() == capacity,
    {
        self.buffer = Self::filled(capacity);
        self.read_pos = 0;
        self.write_pos = 0;
        self.len = 0;
        self.capacity = capacity;
        assert(self@ =~= Seq::<T>::empty());
    }

    /// Adds an item as the newest. On a full buffer the oldest item leaves.
    pub fn push(&mut self, item: T)
        requires
            old(self).wf(),
            old(self).spec_capacity() > 0,
        ensures
            final(self).wf(),
            final(self).spec_capacity() == old(self).spec_capacity(),
            final(self)@ == (if old(self)@.len() < old(self).spec_capacity() {
                old(self)@.push(item)
            } else {
                old(self)@.drop_first().push(item)
            }),
    {
        let ghost before = self@;
        self.buffer[self.write_pos] = item;
        self.write_pos = if self.write_pos + 1 == self.capacity {
            0
        } else {
            self.write_pos + 1
        };
        if self.len < self.capacity {
            self.len = self.len + 1;
            assert(self@ =~= before.push(item));
        } else {
            self.read_pos = if self.read_pos + 1 == self.capacity {
                0
            } else {
                self.read_pos + 1
            };
            assert(self@ =~= before.drop_first().push(item));
        }
    }

    /// Adds the items of `items`, first to last.
    pub fn push_slice(&mut self, items: &[T])
        requires
            old(self).wf(),
            old(self).spec_capacity() > 0 || items@.len() == 0,
        ensures
            final(self).wf(),
            final(self).spec_capacity() == old(self).spec_capacity(),
            final(self)@ == pushed_all(old(self)@, items@, old(self).spec_capacity() as nat),
    {
        let mut i: usize = 0;
        proof {
            assert(items@.take(0) =~= Seq::<T>::empty());
        }
        while i < items.len()
            invariant
                i <= items@.len(),
                self.wf(),
                self.spec_capacity() == old(self).spec_capacity(),
                self.spec_capacity() > 0 || items@.len() == 0,
                self@ == pushed_all(old(self)@, items@.take(i as int), self.spec_capacity() as nat),
            decreases items@.len() - i,
        {
            self.push(items[i]);
            proof {
                let next = items@.take(i + 1);
                assert(next.drop_last() =~= items@.take(i as int));
                assert(next.last() == items@[i as int]);
            }
            i = i + 1;
        }
        assert(items@.take(items@.len() as int) =~= items@);
    }

    /// Removes the oldest item and returns it; `None` on an empty buffer.
    pub fn pop(&mut self) -> (r: Option<T>)
        requires
            old(self).wf(),
        ensures
            final(self).wf(),
            final(self).spec_capacity() == old(self).spec_capacity(),
            match r {
                Some(x) => old(self)@.len() > 0 && x == old(self)@[0]
                    && final(self)@ == old(self)@.drop_first(),
                None => old(self)@.len() == 0 && final(self)@ == old(self)@,
            },
    {
        if self.len == 0 {
            return None;
        }
        let ghost before = self@;
        let item: T = self.buffer[self.read_pos];
        self.read_pos = if self.read_pos + 1 == self.capacity {
            0
        } else {
            self.read_pos + 1
        };
        self.len = self.len - 1;
        assert(self@ =~= before.drop_first());
        Some(item)
    }

    /// Removes up to `count` of the oldest items and returns them, oldest first.
    pub fn pop_multiple(&mut self, count: usize) -> (r: Vec<T>)
        requires
            old(self).wf(),
        ensures
            final(self).wf(),
            final(self).spec_capacity() == old(self).spec_capacity(),
            r@.len() == (if count < old(self)@.len() {
                count as nat
            } else {
                old(self)@.len()
            }),
            r@ == old(self)@.take(r@.len() as int),
            final(self)@ == old(self)@.skip(r@.len() as int),
    {
        let mut result: Vec<T> = Vec::new();
        let mut taken: usize = 0;
        proof {
            assert(self@.skip(0) =~= self@);
            assert(self@.take(0) =~= Seq::<T>::empty());
        }
        while taken < count
            invariant
                taken <= count,
                self.wf(),
                self.spec_capacity() == old(self).spec_capacity(),
                taken <= old(self)@.len(),
                result@ == old(self)@.take(taken as int),
                self@ == old(self)@.skip(taken as int),
            ensures
                taken == (if count < old(self)@.len() {
                    count as nat
                } else {
                    old(self)@.len()
                }),
                result@ == old(self)@.take(taken as int),
                self@ == old(self)@.skip(taken as int),
                self.wf(),
                self.spec_capacity() == old(self).spec_capacity(),
            decreases count - taken,
        {
            match self.pop() {
                Some(item) => {
                    result.push(item);
                    taken = taken + 1;
                    assert(result@ =~= old(self)@.take(taken as int));
                    assert(self@ =~= old(self)@.skip(taken as int));
                },
                None => {
                    break;
                },
            }
        }
        result
    }

    /// The number of items.
    pub fn len(&self) -> (n: usize)
        ensures
            n == self@.len(),
    {
        self.len
    }

    /// Whether there is no item.
    pub fn is_empty(&self) -> (b: bool)
        ensures
            b == (self@.len() == 0),
    {
        self.len == 0
    }

    /// Whether the next push overwrites the oldest item.
    pub fn is_full(&self) -> (b: bool)
        ensures
            b == (self@.len() == self.spec_capacity()),
    {
        self.len == self.capacity
    }

    /// The most items the buffer holds.
    pub fn capacity(&self) -> (c: usize)
        ensures
            c == self.spec_capacity(),
    {
        self.capacity
    }

    /// The item `index` places behind the oldest; `None` beyond the newest.
    pub fn get(&self, index: usize) -> (r: Option<&T>)
        requires
            self.wf(),
        ensures
            match r {
                Some(x) => index < self@.len() && *x == self@[index as int],
                None => index >= self@.len(),
            },
    {
        if index >= self.len {
            return None;
        }
        let pos: usize = if index >= self.capacity - self.read_pos {
            index - (self.capacity - self.read_pos)
        } else {
            self.read_pos + index
        };
        Some(&self.buffer[pos])
    }

    /// The item `index` places behind the oldest, to be changed in place;
    /// `None` beyond the newest.
    pub fn get_mut(&mut self, index: usize) -> (r: Option<&mut T>)
        requires
            old(self).wf(),
        ensures
            final(self).wf(),
            final(self).spec_capacity() == old(self).spec_capacity(),
            match r {
                Some(x) => index < old(self)@.len() && *x == old(self)@[index as int]
                    && final(self)@ == old(self)@.update(index as int, *final(x)),
                None => index >= old(self)@.len() && final(self)@ == old(self)@,
            },
    {
        if index >= self.len {
            return None;
        }
        let pos: usize = if index >= self.capacity - self.read_pos {
            index - (self.capacity - self.read_pos)
        } else {
            self.read_pos + index
        };
        Some(&mut self.buffer[pos])
    }
}

/// `items` pushed one by one onto a ring of `capacity` slots that holds `start`.
pub open spec fn pushed_all<T>(start: Seq<T>, items: Seq<T>, capacity: nat) -> Seq<T>
    decreases items.len(),
{
    if items.len() == 0 {
        start
    } else {
        let before = pushed_all(start, items.drop_last(), capacity);
        if before.len() < capacity {
            before.push(items.last())
        } else {
            before.drop_first().push(items.last())
        }
    }
}

/// A pool of 16-bit scratch buffers, to spare the allocator.
pub struct I16BufferPool {
    buffers: Vec<InlineVec<i16, 512>>,
    max_pool_size: usize,
    hits: usize,
    misses: usize,
}

impl I16BufferPool {
    /// The number of buffers in the pool.
    pub closed spec fn available(&self) -> nat {
        self.buffers@.len()
    }

    /// The most buffers the pool keeps.
    pub closed spec fn limit(&self) -> usize {
        self.max_pool_size
    }

    /// How often `get` found a buffer in the pool.
    pub closed spec fn hit_count(&self) -> usize {
        self.hits
    }

    /// How often `get` had to make a buffer.
    pub closed spec fn miss_count(&self) -> usize {
        self.misses
    }

    /// The pool's invariant: every buffer in it is empty and well-formed.
    pub closed spec fn wf(&self) -> bool {
        forall|i: int|
            0 <= i < self.buffers@.len() ==> (#[trigger] self.buffers@[i]).wf()
                && self.buffers@[i]@.len() == 0
    }

    /// An empty pool that keeps up to `max_pool_size` buffers.
    pub fn new(max_pool_size: usize) -> (p: Self)
        ensures
            p.wf(),
            p.available() == 0,
            p.limit() == max_pool_size,
            p.hit_count() == 0,
            p.miss_count() == 0,
    {
        I16BufferPool { buffers: Vec::new(), max_pool_size, hits: 0, misses: 0 }
    }

    /// An empty buffer: one from the pool where there is one, else a new one.
    pub fn get(&mut self) -> (b: InlineVec<i16, 512>)
        requires
            old(self).wf(),
        ensures
            final(self).wf(),
            b.wf(),
            b@ == Seq::<i16>::empty(),
            final(self).limit() == old(self).limit(),
            old(self).available() > 0 ==> final(self).available() == old(self).available() - 1
                && final(self).hit_count() == next_count(old(self).hit_count())
                    && final(self).miss_count() == old(self).miss_count(),
            old(self).available() == 0
                ==> final(self).available() == 0
                && final(self).miss_count() == next_count(old(self).miss_count())
                && final(self).hit_count()
                == old(self).hit_count() && b.spec_is_inline(),
    {
        match self.buffers.pop() {
            Some(buffer) => {
                if self.hits < usize::MAX {
                    self.hits = self.hits + 1;
                }
                assert(buffer == old(self).buffers@[old(self).buffers@.len() - 1]);
                buffer
            },
            None => {
                if self.misses < usize::MAX {
                    self.misses = self.misses + 1;
                }
                InlineVec::new()
            },
        }
    }

    /// Takes a buffer back: it is emptied and kept, unless the pool is full.
    pub fn put(&mut self, buffer: InlineVec<i16, 512>)
        requires
            old(self).wf(),
            buffer.wf(),
        ensures
            final(self).wf(),
            final(self).limit() == old(self).limit(),
            final(self).hit_count() == old(self).hit_count(),
            final(self).miss_count() == old(self).miss_count(),
            final(self).available() == (if old(self).available() < old(self).limit() {
                old(self).available() + 1
            } else {
                old(self).available()
            }),
    {
        let mut buffer = buffer;
        if self.buffers.len() < self.max_pool_size {
            buffer.clear();
            self.buffers.push(buffer);
        }
    }

    /// Lets go of every buffer in the pool.
    pub fn clear(&mut self)
        requires
            old(self).wf(),
        ensures
            final(self).wf(),
            final(self).available() == 0,
            final(self).limit() == old(self).limit(),
            final(self).hit_count() == old(self).hit_count(),
            final(self).miss_count() == old(self).miss_count(),
    {
        self.buffers.clear();
    }

    /// Hits and misses so far.
    pub fn counts(&self) -> (c: (usize, usize))
        ensures
            c == (self.hit_count(), self.miss_count()),
    {
        (self.hits, self.misses)
    }
}

/// `n + 1`, held at the largest size.
pub open spec fn next_count(n: usize) -> usize {
    if n == usize::MAX {
        n
    } else {
        (n + 1) as usize
    }
}

} // verus!
