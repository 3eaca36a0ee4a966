//! A ring buffer with a capacity of 32 items, addressed by wrapping `u16`
//! indices.
//!
//! The buffer always remembers the index of the newest item. The 32 indices
//! ending at the newest one form the *window*: only items whose index lies in the
//! window can be present, each in the slot `index % 32`.
use vstd::prelude::*;

verus! {

/// The number of slots of a [`RingBuffer`].
pub const NUM_ITEMS: usize = 32;

/// How far `k` lies behind `newest`, modulo `2^16`.
pub open spec fn dist(newest: u16, k: u16) -> u16 {
    (newest - k) as u16
}

/// `k` is one of the 32 indices ending at `newest`.
pub open spec fn in_window(newest: u16, k: u16) -> bool {
    dist(newest, k) < 32
}

/// The index `offset` steps after the oldest index of the window ending at
/// `newest`.
pub open spec fn key_at(newest: u16, offset: int) -> u16 {
    (newest - 31 + offset) as u16
}

/// The slot that holds the item with index `k`.
pub open spec fn slot(k: u16) -> int {
    (k % 32) as int
}

/// How many slots after `start`'s slot the slot `s` lies.
pub open spec fn slot_offset(s: int, start: u16) -> u16 {
    ((s - start) as u16) % 32
}

/// The members of `present` among the indices of the window ending at
/// `newest`, from the `offset`-th one on, oldest first.
pub open spec fn keys_in(newest: u16, present: Set<u16>, offset: int) -> Seq<u16>
    decreases 32 - offset,
{
    if offset < 0 || offset >= 32 {
        Seq::empty()
    } else {
        let k = key_at(newest, offset);
        let rest = keys_in(newest, present, offset + 1);
        if present.contains(k) {
            seq![k] + rest
        } else {
            rest
        }
    }
}

/// The number of empty slots in `s`.
pub open spec fn count_none<T>(s: Seq<Option<T>>) -> nat
    decreases s.len(),
{
    if s.len() == 0 {
        0
    } else {
        count_none(s.drop_last()) + if s.last() is None {
            1nat
        } else {
            0nat
        }
    }
}

proof fn lemma_count_none_fill<T>(s: Seq<Option<T>>, i: int, x: T)
    requires
        0 <= i < s.len(),
        s[i] is None,
    ensures
        count_none(s.update(i, Some(x))) + 1 == count_none(s),
        count_none(s) <= s.len(),
    decreases s.len(),
{
    let t = s.update(i, Some(x));
    lemma_count_none_le(s);
    if i == s.len() - 1 {
        assert(t.drop_last() =~= s.drop_last());
    } else {
        assert(t.drop_last() =~= s.drop_last().update(i, Some(x)));
        lemma_count_none_fill(s.drop_last(), i, x);
    }
}

proof fn lemma_count_none_le<T>(s: Seq<Option<T>>)
    ensures
        count_none(s) <= s.len(),
    decreases s.len(),
{
    if s.len() > 0 {
        lemma_count_none_le(s.drop_last());
    }
}

pub struct RingBuffer<T> {
    newest: u16,
    items: Vec<Option<T>>,
}

/// `wrapping_sub` and `wrapping_add` of `u16` are subtraction and addition
/// modulo `2^16`.
pub proof fn lemma_wrapping_u16(x: u16, y: u16)
    ensures
        x.wrapping_sub(y) == ((x - y) as u16),
        x.wrapping_add(y) == ((x + y) as u16),
{
    if x - y < 0 {
        assert(((x - y + 0x1_0000) as u16) == ((x - y) as u16)) by (bit_vector);
    }
    if x + y > u16::MAX {
        assert(((x + y - 0x1_0000) as u16) == ((x + y) as u16)) by (bit_vector);
    }
}

proof fn lemma_window_slots_distinct(n: u16, a: u16, b: u16)
    by (bit_vector)
    requires
        ((n - a) as u16) < 32,
        ((n - b) as u16) < 32,
        a % 32 == b % 32,
    ensures
        a == b,
{
}

proof fn lemma_push_key(n: u16, k: u16)
    by (bit_vector)
    ensures
        (((n + 1) as u16 - k) as u16) < 32 && k != (n + 1) as u16 <==> ((n - k) as u16) < 32 && k
            != ((n + 1) as u16 - 32) as u16,
        (((n + 1) as u16 - 32) as u16) % 32 == ((n + 1) as u16) % 32,
        ((n - (((n + 1) as u16 - 32) as u16)) as u16) < 32,
{
}

proof fn lemma_next_slot_key(n: u16)
    by (bit_vector)
    ensures
        ((n - 31) as u16) % 32 == ((n + 1) as u16) % 32,
        ((n - ((n - 31) as u16)) as u16) < 32,
{
}

proof fn lemma_offset_of_step(start: u16, j: u16)
    by (bit_vector)
    requires
        j < 32,
    ensures
        ((((((start + j) as u16) % 32) - start) as u16) % 32) == j,
{
}

proof fn lemma_offset_determines_slot(start: u16, s: u16, j: u16)
    by (bit_vector)
    requires
        s < 32,
        j < 32,
        (((s - start) as u16) % 32) == j,
    ensures
        s == ((start + j) as u16) % 32,
{
}

proof fn lemma_offset_of_key(start: u16, k: u16)
    by (bit_vector)
    ensures
        ((((k % 32) - start) as u16) % 32) == (((k - start) as u16) % 32),
{
}

proof fn lemma_key_of_slot(n: u16, s: u16)
    by (bit_vector)
    requires
        s < 32,
    ensures
        ((n - ((n - (((n % 32) + 32 - s) % 32)) as u16)) as u16) < 32,
        ((n - (((n % 32) + 32 - s) % 32)) as u16) % 32 == s,
{
}

proof fn lemma_count_all(n: u16, x: u16)
    by (bit_vector)
    requires
        !(1 <= ((x - n) as u16) <= 32),
    ensures
        ((x - ((n + 1) as u16)) as u16) >= 32,
{
}

/// Where a key of the window ending at `x` lies relative to an older window
/// ending at `n`, `d` steps before `x`.
proof fn lemma_insert_key(n: u16, x: u16, k: u16)
    by (bit_vector)
    requires
        1 <= ((x - n) as u16) <= 32,
        ((x - k) as u16) < 32,
        k != x,
    ensures
        ((((k - ((n + 1) as u16)) as u16) % 32) < ((x - n) as u16) - 1) == (((x - k) as u16) < (
        (x - n) as u16)),
        (((x - k) as u16) < ((x - n) as u16)) ==> !(((n - k) as u16) < 32),
        !(((x - k) as u16) < ((x - n) as u16)) ==> ((n - k) as u16) < 32,
{
}

impl<T> RingBuffer<T> {
    /// The buffer has exactly 32 slots.
    pub closed spec fn wf(&self) -> bool {
        self.items.len() == NUM_ITEMS
    }

    /// The number of empty slots.
    pub closed spec fn free_slots(&self) -> nat {
        count_none(self.items@)
    }

    /// The index of the newest item (whether or not it is still present).
    pub closed spec fn newest_index(&self) -> u16 {
        self.newest
    }

    /// The items that are present, by index.
    pub closed spec fn contents(&self) -> Map<u16, T> {
        Map::new(
            |k: u16| in_window(self.newest, k) && self.items@[slot(k)] is Some,
            |k: u16| self.items@[slot(k)]->0,
        )
    }

    /// The indices of present items from the `offset`-th index of the window on,
    /// oldest first.
    pub closed spec fn keys_from(&self, offset: int) -> Seq<u16> {
        keys_in(self.newest, self.contents().dom(), offset)
    }

    /// The indices of all present items, oldest first.
    pub open spec fn keys_seq(&self) -> Seq<u16> {
        self.keys_from(0)
    }
}

impl<T> View for RingBuffer<T> {
    type V = Map<u16, T>;

    closed spec fn view(&self) -> Map<u16, T> {
        self.contents()
    }
}

impl<T> Default for RingBuffer<T> {
    /// An empty buffer whose newest index is `u16::MAX`, so that the first
    /// pushed item gets index 0.
    fn default() -> (r: Self)
        ensures
            r.wf(),
            r@ == Map::<u16, T>::empty(),
            r.newest_index() == u16::MAX,
    {
        let mut items: Vec<Option<T>> = Vec::new();
        let mut i: usize = 0;
        while i < NUM_ITEMS
            invariant
                items.len() == i,
                i <= NUM_ITEMS,
                forall|j: int| 0 <= j < i ==> items@[j] is None,
            decreases NUM_ITEMS - i,
        {
            items.push(None);
            i = i + 1;
        }
        let r = RingBuffer { newest: u16::MAX, items };
        assert(r@ =~= Map::<u16, T>::empty());
        r
    }
}

impl<T> RingBuffer<T> {
    /// An empty buffer; see [`RingBuffer::default`].
    pub fn new() -> (r: Self)
        ensures
            r.wf(),
            r@ == Map::<u16, T>::empty(),
            r.newest_index() == u16::MAX,
    {
        Self::default()
    }

    /// The item with the given index, if it is present.
    pub fn get(&self, index: u16) -> (r: Option<&T>)
        requires
            self.wf(),
        ensures
            match r {
                Some(x) => self@.dom().contains(index) && *x == self@[index],
                None => !self@.dom().contains(index),
            },
    {
        let i = self.newest.wrapping_sub(index);
        proof {
            lemma_wrapping_u16(self.newest, index);
        }
        if i < 32 {
            assert(in_window(self.newest, index));
            self.items[(index % 32) as usize].as_ref()
        } else {
            None
        }
    }

    /// Appends `item` at the index after the newest one and returns that index.
    /// The item that was present 32 indices earlier, if any, is dropped.
    pub fn push(&mut self, item: T) -> (r: u16)
        requires
            old(self).wf(),
        ensures
            final(self).wf(),
            r == old(self).newest_index().wrapping_add(1),
            final(self).newest_index() == r,
            final(self)@ == old(self)@.remove(r.wrapping_sub(32)).insert(r, item),
            !old(self)@.dom().contains(r.wrapping_sub(32)) ==> final(self).free_slots() + 1
                == old(self).free_slots(),
            final(self).free_slots() <= NUM_ITEMS,
    {
        let ghost old_self = *self;
        proof {
            lemma_wrapping_u16(self.newest, 1);
            lemma_wrapping_u16((self.newest + 1) as u16, 32);
        }
        self.newest = self.newest.wrapping_add(1);
        let i = self.newest;
        self.items.set((i % 32) as usize, Some(item));
        proof {
            let n = old_self.newest;
            lemma_count_none_le(self.items@);
            if !old_self@.dom().contains(i.wrapping_sub(32)) {
                lemma_push_key(n, i);
                lemma_count_none_fill(old_self.items@, (i % 32) as int, item);
                assert(self.items@ =~= old_self.items@.update((i % 32) as int, Some(item)));
            }
            let expected = old_self@.remove(i.wrapping_sub(32)).insert(i, item);
            lemma_push_key(n, i);
            assert forall|k: u16| #[trigger] self@.dom().contains(k) == expected.dom().contains(k)
                && (self@.dom().contains(k) ==> self@[k] == expected[k]) by {
                lemma_push_key(n, k);
                if in_window(i, k) && k % 32 == i % 32 {
                    lemma_window_slots_distinct(i, k, i);
                }
            }
            assert(self@ =~= expected);
        }
        i
    }
}


impl<T> RingBuffer<T> {
    /// The item with the given index, if it is present, for modification.
    pub fn get_mut(&mut self, index: u16) -> (r: Option<&mut T>)
        requires
            old(self).wf(),
        ensures
            final(self).wf(),
            final(self).newest_index() == old(self).newest_index(),
            match r {
                Some(x) => {
                    &&& old(self)@.dom().contains(index)
                    &&& *x == old(self)@[index]
                    &&& final(self)@ == old(self)@.insert(index, *final(x))
                },
                None => !old(self)@.dom().contains(index) && final(self)@ == old(self)@,
            },
    {
        let i = self.newest.wrapping_sub(index);
        proof {
            lemma_wrapping_u16(self.newest, index);
        }
        if i < 32 {
            let ghost old_self = *self;
            let r = self.items[(index % 32) as usize].as_mut();
            proof {
                assert forall|k: u16| #[trigger] in_window(self.newest, k) && k != index implies slot(
                    k,
                ) != slot(index) by {
                    if k % 32 == index % 32 {
                        lemma_window_slots_distinct(self.newest, k, index);
                    }
                }
            }
            r
        } else {
            None
        }
    }

    /// Stores `item` at `index`, which lies in the window, without moving the
    /// newest index; an item already stored there is replaced.
    pub fn set(&mut self, item: T, index: u16)
        requires
            old(self).wf(),
            in_window(old(self).newest_index(), index),
        ensures
            final(self).wf(),
            final(self).newest_index() == old(self).newest_index(),
            final(self)@ == old(self)@.insert(index, item),
    {
        let ghost old_self = *self;
        let s = (index % 32) as usize;
        self.items.set(s, Some(item));
        proof {
            assert forall|k: u16| #[trigger] in_window(self.newest, k) && k != index implies slot(k)
                != slot(index) by {
                if k % 32 == index % 32 {
                    lemma_window_slots_distinct(self.newest, k, index);
                }
            }
            assert(self@ =~= old_self@.insert(index, item));
        }
    }

    /// Removes the item with the given index and returns it, if it is present.
    pub fn take(&mut self, index: u16) -> (r: Option<T>)
        requires
            old(self).wf(),
        ensures
            final(self).wf(),
            final(self).newest_index() == old(self).newest_index(),
            final(self)@ == old(self)@.remove(index),
            r == (if old(self)@.dom().contains(index) {
                Some(old(self)@[index])
            } else {
                None
            }),
    {
        let ghost old_self = *self;
        let i = self.newest.wrapping_sub(index);
        proof {
            lemma_wrapping_u16(self.newest, index);
        }
        if i < 32 {
            let s = (index % 32) as usize;
            let r = self.items[s].take();
            proof {
                assert forall|k: u16| #[trigger] in_window(self.newest, k) && k != index implies slot(
                    k,
                ) != slot(index) by {
                    if k % 32 == index % 32 {
                        lemma_window_slots_distinct(self.newest, k, index);
                    }
                }
                assert(self@ =~= old_self@.remove(index));
            }
            r
        } else {
            assert(self@ =~= old_self@.remove(index));
            None
        }
    }

    /// Whether pushing an item would drop a present one: the oldest index of
    /// the window holds an item.
    pub fn insert_will_override(&self) -> (r: bool)
        requires
            self.wf(),
        ensures
            r == self@.dom().contains(self.newest_index().wrapping_sub(31)),
    {
        let i = self.newest.wrapping_add(1);
        proof {
            lemma_wrapping_u16(self.newest, 1);
            lemma_wrapping_u16(self.newest, 31);
            lemma_next_slot_key(self.newest);
        }
        self.items[(i % 32) as usize].is_some()
    }

    /// The index of the newest item.
    pub fn get_newest_index(&self) -> (r: u16)
        ensures
            r == self.newest_index(),
    {
        self.newest
    }

    /// The index that the next pushed item will get.
    pub fn get_next_index(&self) -> (r: u16)
        ensures
            r == self.newest_index().wrapping_add(1),
    {
        self.newest.wrapping_add(1)
    }

    /// No item is present.
    pub fn is_empty(&self) -> (r: bool)
        requires
            self.wf(),
        ensures
            r == (self@.dom() =~= Set::<u16>::empty()),
    {
        let mut j: usize = 0;
        while j < NUM_ITEMS
            invariant
                self.wf(),
                j <= NUM_ITEMS,
                forall|s: int| 0 <= s < j ==> self.items@[s] is None,
            decreases NUM_ITEMS - j,
        {
            if self.items[j].is_some() {
                proof {
                    let k = (self.newest - (((self.newest % 32) + 32 - j) % 32) as int) as u16;
                    lemma_key_of_slot(self.newest, j as u16);
                    assert(self@.dom().contains(k));
                }
                return false;
            }
            j = j + 1;
        }
        proof {
            assert forall|k: u16| !self@.dom().contains(k) by {
                assert(0 <= slot(k) < 32);
            }
        }
        true
    }

    /// Stores `item` at `index`, which becomes the newest index.
    ///
    /// When `index` lies 1 to 32 steps after the newest index, the indices
    /// between them are emptied and the items of the new window are kept;
    /// otherwise (`index` is the newest index, lies behind it, or more than 32
    /// steps ahead) every other item is dropped.
    pub fn insert(&mut self, item: T, index: u16)
        requires
            old(self).wf(),
        ensures
            final(self).wf(),
            final(self).newest_index() == index,
            final(self)@ == (if 1 <= index.wrapping_sub(old(self).newest_index()) <= 32 {
                old(self)@.restrict(Set::new(|k: u16| in_window(index, k)))
            } else {
                Map::empty()
            }).insert(index, item),
    {
        let ghost old_self = *self;
        let next_i = self.newest.wrapping_add(1);
        let len = index.wrapping_sub(next_i);
        let count: u16 = if len < 32 {
            len
        } else {
            32
        };
        let mut j: u16 = 0;
        while j < count
            invariant
                self.wf(),
                self.newest == old_self.newest,
                j <= count <= 32,
                forall|s: int|
                    0 <= s < 32 ==> #[trigger] self.items@[s] == if slot_offset(s, next_i) < j {
                        None
                    } else {
                        old_self.items@[s]
                    },
            decreases count - j,
        {
            let s = (next_i.wrapping_add(j) % 32) as usize;
            proof {
                lemma_wrapping_u16(next_i, j);
                lemma_offset_of_step(next_i, j);
            }
            self.items.set(s, None);
            proof {
                assert forall|t: int| 0 <= t < 32 implies #[trigger] self.items@[t] == if slot_offset(
                    t,
                    next_i,
                ) < j + 1 {
                    None
                } else {
                    old_self.items@[t]
                } by {
                    if slot_offset(t, next_i) == j {
                        lemma_offset_determines_slot(next_i, t as u16, j);
                    }
                }
            }
            j = j + 1;
        }
        self.newest = index;
        self.items.set((index % 32) as usize, Some(item));
        proof {
            let n = old_self.newest;
            lemma_wrapping_u16(n, 1);
            lemma_wrapping_u16(index, next_i);
            lemma_wrapping_u16(index, n);
            let d = index.wrapping_sub(n);
            let expected = (if 1 <= d <= 32 {
                old_self@.restrict(Set::new(|k: u16| in_window(index, k)))
            } else {
                Map::empty()
            }).insert(index, item);
            assert forall|k: u16| #[trigger] self@.dom().contains(k) == expected.dom().contains(k)
                && (self@.dom().contains(k) ==> self@[k] == expected[k]) by {
                if k != index && in_window(index, k) {
                    if k % 32 == index % 32 {
                        lemma_window_slots_distinct(index, k, index);
                    }
                    lemma_offset_of_key(next_i, k);
                    if 1 <= d <= 32 {
                        lemma_insert_key(n, index, k);
                    } else {
                        lemma_count_all(n, index);
                    }
                }
            }
            assert(self@ =~= expected);
        }
    }
}

proof fn lemma_cursor_step(n: u16, i: u16)
    by (bit_vector)
    requires
        ((i - ((n - 31) as u16)) as u16) < 32,
    ensures
        (((i + 1) as u16 - ((n - 31) as u16)) as u16) == ((i - ((n - 31) as u16)) as u16) + 1,
        ((n - 31 + ((i - ((n - 31) as u16)) as u16)) as u16) == i,
{
}

proof fn lemma_cursor_start(n: u16)
    by (bit_vector)
    ensures
        ((((n - 31) as u16) - ((n - 31) as u16)) as u16) == 0,
{
}

impl<T> RingBuffer<T> {
    /// Iterate over all existing items in chronological order (oldest first).
    pub fn iter(&self) -> (r: Iter<'_, T>)
        requires
            self.wf(),
        ensures
            r.wf(),
            r.ring_view() == self@,
            r.remaining_keys() == self.keys_seq(),
    {
        proof {
            lemma_wrapping_u16(self.newest, 31);
            lemma_cursor_start(self.newest);
        }
        Iter { i: self.newest.wrapping_sub(31), ring: self }
    }

    /// Iterate over all existing items in chronological order (oldest first),
    /// for modification.
    pub fn iter_mut(&mut self) -> (r: IterMut<'_, T>)
        requires
            old(self).wf(),
        ensures
            r.wf(),
            r.ring_view() == old(self)@,
            r.newest() == old(self).newest_index(),
            r.remaining_keys() == old(self).keys_seq(),
            *final(self) == *final(r.ring),
    {
        proof {
            lemma_wrapping_u16(self.newest, 31);
            lemma_cursor_start(self.newest);
        }
        let i = self.newest.wrapping_sub(31);
        IterMut { i, ring: self }
    }

    /// Iterate over the indices of all existing items in chronological order
    /// (oldest first). The indices returned increase, but wrap around at
    /// `u16::MAX`.
    pub fn keys(&self) -> (r: IterKeys<'_, T>)
        requires
            self.wf(),
        ensures
            r.wf(),
            r.ring_view() == self@,
            r.remaining_keys() == self.keys_seq(),
    {
        proof {
            lemma_wrapping_u16(self.newest, 31);
            lemma_cursor_start(self.newest);
        }
        IterKeys { i: self.newest.wrapping_sub(31), ring: self }
    }
}

/// Iterator over the items of a [`RingBuffer`], oldest first.
pub struct Iter<'a, T> {
    i: u16,
    ring: &'a RingBuffer<T>,
}

impl<'a, T> Iter<'a, T> {
    /// How far the cursor has advanced through the window.
    closed spec fn offset(&self) -> int {
        ((self.i - ((self.ring.newest_index() - 31) as u16)) as u16) as int
    }

    pub closed spec fn wf(&self) -> bool {
        self.ring.wf() && self.offset() <= 32
    }

    /// The contents of the buffer that is iterated over.
    pub closed spec fn ring_view(&self) -> Map<u16, T> {
        self.ring@
    }

    /// The indices of the items that are still to come, in order.
    pub closed spec fn remaining_keys(&self) -> Seq<u16> {
        self.ring.keys_from(self.offset())
    }

    /// Returns the next present item.
    pub fn next(&mut self) -> (r: Option<&'a T>)
        requires
            old(self).wf(),
        ensures
            final(self).wf(),
            final(self).ring_view() == old(self).ring_view(),
            match r {
                None => old(self).remaining_keys().len() == 0 && final(self).remaining_keys().len()
                    == 0,
                Some(x) => {
                    &&& old(self).remaining_keys().len() > 0
                    &&& *x == old(self).ring_view()[old(self).remaining_keys()[0]]
                    &&& final(self).remaining_keys() == old(self).remaining_keys().drop_first()
                },
            },
    {
        let base = self.ring.newest.wrapping_sub(31);
        proof {
            lemma_wrapping_u16(self.ring.newest, 31);
        }
        while self.i.wrapping_sub(base) < 32
            invariant
                self.wf(),
                self.ring == old(self).ring,
                base == ((self.ring.newest - 31) as u16),
                self.remaining_keys() == old(self).remaining_keys(),
            decreases 32 - self.offset(),
        {
            let k = self.i;
            proof {
                lemma_wrapping_u16(k, base);
                lemma_wrapping_u16(k, 1);
                lemma_cursor_step(self.ring.newest, k);
            }
            self.i = self.i.wrapping_add(1);
            match self.ring.get(k) {
                Some(item) => {
                    return Some(item);
                },
                None => {},
            }
        }
        proof {
            lemma_wrapping_u16(self.i, base);
        }
        None
    }
}

/// Iterator over the items of a [`RingBuffer`], oldest first, that lends each
/// item for modification.
pub struct IterMut<'a, T> {
    /// The index that the cursor examines next.
    pub i: u16,
    /// The buffer that is iterated over.
    pub ring: &'a mut RingBuffer<T>,
}

impl<'a, T> IterMut<'a, T> {
    closed spec fn offset(&self) -> int {
        ((self.i - (((*self.ring).newest_index() - 31) as u16)) as u16) as int
    }

    pub closed spec fn wf(&self) -> bool {
        (*self.ring).wf() && self.offset() <= 32
    }

    /// The current contents of the buffer that is iterated over.
    pub closed spec fn ring_view(&self) -> Map<u16, T> {
        (*self.ring)@
    }

    /// The newest index of the buffer that is iterated over.
    pub closed spec fn newest(&self) -> u16 {
        (*self.ring).newest_index()
    }

    pub closed spec fn remaining_keys(&self) -> Seq<u16> {
        (*self.ring).keys_from(self.offset())
    }

    /// Returns the next present item; what is written to it is written to the
    /// buffer.
    pub fn next(&mut self) -> (r: Option<&mut T>)
        requires
            old(self).wf(),
        ensures
            final(self).wf(),
            final(self).newest() == old(self).newest(),
            r is None ==> old(self).remaining_keys().len() == 0,
            r is None ==> final(self).remaining_keys().len() == 0,
            r is None ==> final(self).ring_view() == old(self).ring_view(),
            r is Some ==> old(self).remaining_keys().len() > 0,
            r is Some ==> *r->0 == old(self).ring_view()[old(self).remaining_keys()[0]],
            r is Some ==> final(self).ring_view() == old(self).ring_view().insert(
                old(self).remaining_keys()[0],
                *final(r->0),
            ),
            r is Some ==> final(self).remaining_keys() == old(self).remaining_keys().drop_first(),
    {
        let base = self.ring.newest.wrapping_sub(31);
        proof {
            lemma_wrapping_u16(self.ring.newest, 31);
        }
        while self.i.wrapping_sub(base) < 32
            invariant
                self.wf(),
                self.ring_view() == old(self).ring_view(),
                self.newest() == old(self).newest(),
                base == ((self.ring.newest - 31) as u16),
                self.remaining_keys() == old(self).remaining_keys(),
            decreases 32 - self.offset(),
        {
            let k = self.i;
            proof {
                lemma_wrapping_u16(k, base);
                lemma_wrapping_u16(k, 1);
                lemma_cursor_step(self.ring.newest, k);
            }
            self.i = self.i.wrapping_add(1);
            if self.ring.get(k).is_some() {
                assert(self.ring_view().dom().contains(k));
                proof {
                    let m = self.ring_view();
                    assert forall|v: T| #[trigger] m.insert(k, v).dom() == m.dom() by {
                        assert(m.insert(k, v).dom() =~= m.dom());
                    }
                }
                return self.ring.get_mut(k);
            }
        }
        proof {
            lemma_wrapping_u16(self.i, base);
        }
        None
    }
}

/// Iterator over the indices of the items of a [`RingBuffer`], oldest first.
pub struct IterKeys<'a, T> {
    i: u16,
    ring: &'a RingBuffer<T>,
}

impl<'a, T> IterKeys<'a, T> {
    closed spec fn offset(&self) -> int {
        ((self.i - ((self.ring.newest_index() - 31) as u16)) as u16) as int
    }

    pub closed spec fn wf(&self) -> bool {
        self.ring.wf() && self.offset() <= 32
    }

    pub closed spec fn ring_view(&self) -> Map<u16, T> {
        self.ring@
    }

    pub closed spec fn remaining_keys(&self) -> Seq<u16> {
        self.ring.keys_from(self.offset())
    }

    /// Returns the index of the next present item.
    pub fn next(&mut self) -> (r: Option<u16>)
        requires
            old(self).wf(),
        ensures
            final(self).wf(),
            final(self).ring_view() == old(self).ring_view(),
            match r {
                None => old(self).remaining_keys().len() == 0 && final(self).remaining_keys().len()
                    == 0,
                Some(k) => {
                    &&& old(self).remaining_keys().len() > 0
                    &&& k == old(self).remaining_keys()[0]
                    &&& final(self).remaining_keys() == old(self).remaining_keys().drop_first()
                },
            },
    {
        let base = self.ring.newest.wrapping_sub(31);
        proof {
            lemma_wrapping_u16(self.ring.newest, 31);
        }
        while self.i.wrapping_sub(base) < 32
            invariant
                self.wf(),
                self.ring == old(self).ring,
                base == ((self.ring.newest - 31) as u16),
                self.remaining_keys() == old(self).remaining_keys(),
            decreases 32 - self.offset(),
        {
            let k = self.i;
            proof {
                lemma_wrapping_u16(k, base);
                lemma_wrapping_u16(k, 1);
                lemma_cursor_step(self.ring.newest, k);
            }
            self.i = self.i.wrapping_add(1);
            if self.ring.get(k).is_some() {
                return Some(k);
            }
        }
        proof {
            lemma_wrapping_u16(self.i, base);
        }
        None
    }
}

proof fn lemma_key_at_dist(n: u16, off: u16)
    by (bit_vector)
    requires
        off < 32,
    ensures
        ((n - ((n - 31 + off) as u16)) as u16) == 31 - off,
{
}

proof fn lemma_key_at_of_dist(n: u16, k: u16)
    by (bit_vector)
    requires
        ((n - k) as u16) < 32,
    ensures
        ((n - 31 + (31 - ((n - k) as u16))) as u16) == k,
{
}

/// `keys_in` lists exactly the members of `present` in the part of the window
/// from `offset` on, each once, oldest first.
proof fn lemma_keys_in(newest: u16, present: Set<u16>, offset: int)
    requires
        0 <= offset <= 32,
    ensures
        forall|k: u16| #[trigger]
            keys_in(newest, present, offset).contains(k) <==> present.contains(k) && in_window(
                newest,
                k,
            ) && 31 - dist(newest, k) >= offset,
        forall|i: int, j: int|
            0 <= i < j < keys_in(newest, present, offset).len() ==> dist(
                newest,
                #[trigger] keys_in(newest, present, offset)[i],
            ) > dist(newest, #[trigger] keys_in(newest, present, offset)[j]),
    decreases 32 - offset,
{
    if offset < 32 {
        lemma_keys_in(newest, present, offset + 1);
        let k0 = key_at(newest, offset);
        lemma_key_at_dist(newest, offset as u16);
        let rest = keys_in(newest, present, offset + 1);
        assert forall|k: u16| #[trigger]
            keys_in(newest, present, offset).contains(k) <==> present.contains(k) && in_window(
                newest,
                k,
            ) && 31 - dist(newest, k) >= offset by {
            if in_window(newest, k) && 31 - dist(newest, k) == offset {
                lemma_key_at_of_dist(newest, k);
            }
            if present.contains(k0) {
                assert((seq![k0] + rest).contains(k) <==> k == k0 || rest.contains(k)) by {
                    if rest.contains(k) {
                        let i = choose|i: int| 0 <= i < rest.len() && rest[i] == k;
                        assert((seq![k0] + rest)[i + 1] == k);
                    }
                    if k == k0 {
                        assert((seq![k0] + rest)[0] == k);
                    }
                }
            }
        }
        if present.contains(k0) {
            let s = seq![k0] + rest;
            assert forall|i: int, j: int| 0 <= i < j < s.len() implies dist(newest, #[trigger] s[i])
                > dist(newest, #[trigger] s[j]) by {
                if i == 0 {
                    assert(rest.contains(s[j]));
                } else {
                    assert(s[i] == rest[i - 1] && s[j] == rest[j - 1]);
                }
            }
        }
    }
}

impl<T> RingBuffer<T> {
    /// At most all 32 slots are empty.
    pub proof fn lemma_free_slots_bound(&self)
        requires
            self.wf(),
        ensures
            self.free_slots() <= NUM_ITEMS,
    {
        lemma_count_none_le(self.items@);
    }

    /// Only indices of the window can be present.
    pub proof fn lemma_dom_in_window(&self)
        ensures
            forall|k: u16| #[trigger] self@.dom().contains(k) ==> in_window(self.newest_index(), k),
    {
    }

    /// Law: the iterators of a buffer visit exactly the indices of the present
    /// items, each once, from the oldest to the newest.
    pub proof fn lemma_keys_seq_chronological(&self)
        ensures
            forall|k: u16| #[trigger] self.keys_seq().contains(k) <==> self@.dom().contains(k),
            forall|i: int, j: int|
                0 <= i < j < self.keys_seq().len() ==> dist(
                    self.newest_index(),
                    #[trigger] self.keys_seq()[i],
                ) > dist(self.newest_index(), #[trigger] self.keys_seq()[j]),
    {
        lemma_keys_in(self.newest, self.contents().dom(), 0);
        assert forall|k: u16| #[trigger] self.keys_seq().contains(k) <==> self@.dom().contains(k) by {
            if self@.dom().contains(k) {
                assert(in_window(self.newest, k));
            }
        }
    }
}

/// Law: an index pushed to a buffer can be read back until 32 more items have
/// been pushed; pushing keeps the items of the 31 newest indices and drops only
/// the one 32 indices back, which is the item that `insert_will_override`
/// reports.
pub proof fn lemma_push_window<T>(before: Map<u16, T>, newest: u16, item: T, k: u16)
    ensures
        ({
            let r = newest.wrapping_add(1);
            let after = before.remove(r.wrapping_sub(32)).insert(r, item);
            &&& after.dom().contains(r) && after[r] == item
            &&& r.wrapping_sub(32) == newest.wrapping_sub(31)
            &&& (k != r && k != newest.wrapping_sub(31)) ==> (after.dom().contains(k)
                == before.dom().contains(k) && (before.dom().contains(k) ==> after[k]
                == before[k]))
        }),
{
    lemma_wrapping_u16(newest, 1);
    lemma_wrapping_u16(newest, 31);
    lemma_wrapping_u16(newest.wrapping_add(1), 32);
    assert(((((newest + 1) as u16) - 32) as u16) == ((newest - 31) as u16)) by (bit_vector);
}

proof fn lemma_pushed_index_distinct(a: u16, d: u16)
    by (bit_vector)
    requires
        1 <= d < 32,
    ensures
        ((a + d) as u16) != a,
        ((((a + d) as u16) - 32) as u16) != a,
        ((((a + d) as u16) + 1) as u16) == ((a + ((d + 1) as u16)) as u16),
{
}

/// Step `k` of a run of pushes, as [`RingBuffer::push`] states it: the newest
/// index advances by one, the item is stored there and the index 32 back is
/// dropped.
pub open spec fn push_step<T>(views: Seq<Map<u16, T>>, newest: Seq<u16>, items: Seq<T>, k: int) -> bool {
    let r = newest[k].wrapping_add(1);
    &&& newest[k + 1] == r
    &&& views[k + 1] == views[k].remove(r.wrapping_sub(32)).insert(r, items[k])
}

/// The item of a push stays readable at its index through the next 31 pushes,
/// where `views[t]` and `newest[t]` are a buffer's contents and newest index
/// after `t` pushes of `items`, each as [`RingBuffer::push`] states it.
pub proof fn lemma_pushed_item_survives<T>(
    views: Seq<Map<u16, T>>,
    newest: Seq<u16>,
    items: Seq<T>,
    t0: int,
    t: int,
)
    requires
        views.len() == items.len() + 1,
        newest.len() == views.len(),
        forall|k: int| 0 <= k < items.len() ==> #[trigger] push_step(views, newest, items, k),
        0 <= t0 < t < views.len(),
        t - t0 <= 32,
    ensures
        views[t].dom().contains(newest[t0 + 1]),
        views[t][newest[t0 + 1]] == items[t0],
        newest[t] == ((newest[t0 + 1] + (t - t0 - 1)) as u16),
    decreases t - t0,
{
    let a = newest[t0 + 1];
    assert(push_step(views, newest, items, t0));
    if t == t0 + 1 {
        assert(((a + 0) as u16) == a) by (bit_vector);
    } else {
        lemma_pushed_item_survives(views, newest, items, t0, t - 1);
        let d = (t - t0 - 1) as u16;
        let prev = newest[t - 1];
        assert(prev == ((a + ((d - 1) as u16)) as u16));
        assert(push_step(views, newest, items, t - 1));
        lemma_wrapping_u16(prev, 1);
        lemma_wrapping_u16(prev.wrapping_add(1), 32);
        if d > 1 {
            lemma_pushed_index_distinct(a, (d - 1) as u16);
        } else {
            assert(((a + ((d - 1) as u16)) as u16) == a) by (bit_vector)
                requires
                    d == 1,
            ;
        }
        lemma_pushed_index_distinct(a, d);
    }
}
} // verus!
