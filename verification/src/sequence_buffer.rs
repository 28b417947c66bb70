//! A fixed table of slots keyed by 16-bit sequence numbers that wrap.
//!
//! Sequence number `sn` lives in slot `sn mod N`. A slot holds the number it was
//! filled for, or a sentinel while it is free, so that a number whose slot has been
//! taken over by a later one no longer counts as stored.
use vstd::prelude::*;

verus! {

/// Half the 16-bit number space: the largest distance at which the greater of two
/// numbers still counts as the newer.
pub const HALF_U16_MAX: u16 = 32768;

/// Marks a free slot.
pub const FREE: u32 = u32::MAX;

/// Whether `s1` is newer than `s2` on the 16-bit circle: greater by at most half the
/// number space, or less by more than that.
pub open spec fn newer(s1: u16, s2: u16) -> bool {
    (s1 > s2 && s1 - s2 <= HALF_U16_MAX) || (s1 < s2 && s2 - s1 > HALF_U16_MAX)
}

/// How far `s1` lies ahead of `s2` on the 16-bit circle.
pub open spec fn ahead(s1: u16, s2: u16) -> int {
    if s1 >= s2 {
        s1 - s2
    } else {
        s1 - s2 + 0x1_0000
    }
}

/// Whether `s1` is newer than `s2`.
pub fn sequence_num_greater_than(s1: u16, s2: u16) -> (r: bool)
    ensures
        r == newer(s1, s2),
{
    ((s1 > s2) && (s1 - s2 <= HALF_U16_MAX)) || ((s1 < s2) && (s2 - s1 > HALF_U16_MAX))
}

/// Whether `s1` is older than `s2`.
pub fn sequence_num_less_than(s1: u16, s2: u16) -> (r: bool)
    ensures
        r == newer(s2, s1),
{
    sequence_num_greater_than(s2, s1)
}

/// Of two sequence numbers exactly one thing holds: the first is newer, the second
/// is newer, or they are equal.
pub proof fn lemma_newer_trichotomy(a: u16, b: u16)
    ensures
        newer(a, b) || newer(b, a) || a == b,
        !(newer(a, b) && newer(b, a)),
        !(newer(a, b) && a == b),
        !(newer(b, a) && a == b),
{
}

/// "Newer" carries over from `a` over `b` to `c` as long as the two steps together
/// stay within half the number space.
pub proof fn lemma_newer_transitive(a: u16, b: u16, c: u16)
    requires
        newer(a, b),
        newer(b, c),
        ahead(a, b) + ahead(b, c) < HALF_U16_MAX,
    ensures
        newer(a, c),
        ahead(a, c) == ahead(a, b) + ahead(b, c),
{
}

/// A table of `N` slots for values keyed by sequence number.
pub struct SequenceBuffer<T> where T: Clone + Default {
    sequence_num: u16,
    sequence_nums: Vec<u32>,
    entries: Vec<T>,
}

/// Whether slot `i` of a table of `n` slots is one of those that the numbers
/// `start`, `start + 1`, ... up to but not including `start + count` live in.
pub open spec fn swept(start: u16, count: int, n: int, i: int) -> bool {
    exists|k: int| 0 <= k < count && #[trigger] slot_of(start, k, n) == i
}

/// Whether slot `i` of a table of `n` slots is freed when `count` numbers from
/// `start` on are removed: every slot where these are as many numbers as the table
/// has slots, or more; else the slots that the numbers live in.
pub open spec fn cleared(start: u16, count: int, n: int, i: int) -> bool {
    count >= n || swept(start, count, n, i)
}

/// The slot in which the number `k` after `start` lives.
pub open spec fn slot_of(start: u16, k: int, n: int) -> int {
    ((start + k) % 0x1_0000) % n
}

impl<T> SequenceBuffer<T> where T: Clone + Default {
    /// One more than the newest number inserted so far; 0 at the start.
    pub closed spec fn head(&self) -> u16 {
        self.sequence_num
    }

    /// For each slot the number it was filled for, or `FREE`.
    pub closed spec fn slots(&self) -> Seq<u32> {
        self.sequence_nums@
    }

    /// For each slot the value it holds.
    pub closed spec fn values(&self) -> Seq<T> {
        self.entries@
    }

    /// The table has at least one slot, and a number and a value for each.
    pub open spec fn wf(&self) -> bool {
        &&& 0 < self.slots().len() <= u16::MAX
        &&& self.values().len() == self.slots().len()
    }

    /// The slot in which `sequence_num` lives.
    pub open spec fn slot(&self, sequence_num: u16) -> int {
        sequence_num as int % self.slots().len() as int
    }

    /// Whether `sequence_num` is stored.
    pub open spec fn holds(&self, sequence_num: u16) -> bool {
        self.slots()[self.slot(sequence_num)] == sequence_num
    }

    /// Whether `insert` refuses `sequence_num`: it is older than the table reaches
    /// back, which is as many numbers as it has slots.
    pub open spec fn too_old(&self, sequence_num: u16) -> bool {
        newer(
            ((self.head() as int - self.slots().len() as int) % 0x1_0000) as u16,
            sequence_num,
        )
    }

    /// How many numbers `insert` sweeps out ahead of `sequence_num`: those from the
    /// head up to it, if it is not older than the head.
    pub open spec fn gap(&self, sequence_num: u16) -> int {
        if newer(((sequence_num + 1) % 0x1_0000) as u16, self.head()) {
            ahead(sequence_num, self.head())
        } else {
            0
        }
    }

    /// A table of `size` free slots. A table needs at least one slot.
    pub fn new(size: u16) -> (b: Self)
        requires
            size > 0,
        ensures
            b.wf(),
            b.head() == 0,
            b.slots() == Seq::new(size as nat, |i: int| FREE),
            forall|i: int| 0 <= i < size ==> call_ensures(T::default, (), #[trigger] b.values()[i]),
    {
        let mut sequence_nums: Vec<u32> = Vec::new();
        let mut entries: Vec<T> = Vec::new();
        let mut i: u16 = 0;
        while i < size
            invariant
                0 <= i <= size,
                sequence_nums@.len() == i,
                entries@.len() == i,
                forall|j: int| 0 <= j < i ==> sequence_nums@[j] == FREE,
                forall|j: int| 0 <= j < i ==> call_ensures(T::default, (), #[trigger] entries@[j]),
            decreases size - i,
        {
            sequence_nums.push(FREE);
            entries.push(T::default());
            i = i + 1;
        }
        let b = Self { sequence_num: 0, sequence_nums, entries };
        assert(b.slots() =~= Seq::new(size as nat, |i: int| FREE));
        b
    }

    fn index(&self, sequence_num: u16) -> (i: usize)
        requires
            self.wf(),
        ensures
            i == self.slot(sequence_num),
            i < self.slots().len(),
    {
        sequence_num as usize % self.entries.len()
    }

    /// Frees the slot in which `sequence_num` lives, whatever number it holds.
    pub fn remove(&mut self, sequence_num: u16)
        requires
            old(self).wf(),
        ensures
            final(self).wf(),
            final(self).head() == old(self).head(),
            final(self).slots() == old(self).slots().update(old(self).slot(sequence_num), FREE),
            final(self).values().len() == old(self).values().len(),
            call_ensures(T::default, (), final(self).values()[old(self).slot(sequence_num)]),
            forall|i: int|
                0 <= i < old(self).values().len() && i != old(self).slot(sequence_num)
                    ==> final(self).values()[i] == old(self).values()[i],
    {
        let index = self.index(sequence_num);
        self.sequence_nums[index] = FREE;
        self.entries[index] = T::default();
    }

    /// Whether the slot in which `sequence_num` lives is free.
    pub fn available(&self, sequence_num: u16) -> (r: bool)
        requires
            self.wf(),
        ensures
            r == (self.slots()[self.slot(sequence_num)] == FREE),
    {
        self.sequence_nums[self.index(sequence_num)] == FREE
    }

    /// Whether `sequence_num` is stored.
    pub fn contains(&self, sequence_num: u16) -> (r: bool)
        requires
            self.wf(),
        ensures
            r == self.holds(sequence_num),
    {
        self.sequence_nums[self.index(sequence_num)] == sequence_num as u32
    }

    /// Frees every slot and starts again at number 0.
    pub fn reset(&mut self)
        requires
            old(self).wf(),
        ensures
            final(self).wf(),
            final(self).head() == 0,
            final(self).slots() == Seq::new(old(self).slots().len(), |i: int| FREE),
            forall|i: int|
                0 <= i < final(self).values().len() ==> call_ensures(
                    T::default,
                    (),
                    #[trigger] final(self).values()[i],
                ),
    {
        self.sequence_num = 0;
        let n: usize = self.entries.len();
        let mut i: usize = 0;
        while i < n
            invariant
                n == self.entries@.len(),
                n == self.sequence_nums@.len(),
                0 < n <= u16::MAX,
                self.sequence_num == 0,
                0 <= i <= n,
                forall|j: int| 0 <= j < i ==> self.sequence_nums@[j] == FREE,
                forall|j: int|
                    0 <= j < i ==> call_ensures(T::default, (), #[trigger] self.entries@[j]),
            decreases n - i,
        {
            self.sequence_nums[i] = FREE;
            self.entries[i] = T::default();
            i = i + 1;
        }
        assert(self.slots() =~= Seq::new(old(self).slots().len(), |i: int| FREE));
    }

    /// Frees the slots of the numbers from `start_sequence` up to but not including
    /// `end_sequence`, going round the circle; all slots where these are as many
    /// numbers as the table has slots, or more.
    fn remove_range(&mut self, start_sequence: u16, end_sequence: u16)
        requires
            old(self).wf(),
        ensures
            final(self).wf(),
            final(self).head() == old(self).head(),
            final(self).slots().len() == old(self).slots().len(),
            forall|i: int|
                0 <= i < old(self).slots().len() ==> #[trigger] final(self).slots()[i] == (if cleared(
                    start_sequence,
                    ahead(end_sequence, start_sequence),
                    old(self).slots().len() as int,
                    i,
                ) {
                    FREE
                } else {
                    old(self).slots()[i]
                }),
            forall|i: int|
                0 <= i < old(self).slots().len() && !cleared(
                    start_sequence,
                    ahead(end_sequence, start_sequence),
                    old(self).slots().len() as int,
                    i,
                ) ==> #[trigger] final(self).values()[i] == old(self).values()[i],
    {
        let n: usize = self.entries.len();
        let start: u32 = start_sequence as u32;
        let end: u32 = if end_sequence < start_sequence {
            end_sequence as u32 + 0x1_0000
        } else {
            end_sequence as u32
        };
        let count: u32 = end - start;
        assert(count == ahead(end_sequence, start_sequence));
        if (count as usize) < n {
            let mut k: u32 = 0;
            while k < count
                invariant
                    self.wf(),
                    n == self.slots().len(),
                    n == old(self).slots().len(),
                    self.head() == old(self).head(),
                    start == start_sequence,
                    start + count < 0x2_0000,
                    0 <= k <= count,
                    forall|i: int|
                        0 <= i < n ==> #[trigger] self.slots()[i] == (if swept(
                            start_sequence,
                            k as int,
                            n as int,
                            i,
                        ) {
                            FREE
                        } else {
                            old(self).slots()[i]
                        }),
                    forall|i: int|
                        0 <= i < n && !swept(start_sequence, k as int, n as int, i)
                            ==> #[trigger] self.values()[i] == old(self).values()[i],
                decreases count - k,
            {
                let sn: u16 = ((start + k) % 0x1_0000) as u16;
                let ghost before = *self;
                self.remove(sn);
                proof {
                    let hit = slot_of(start_sequence, k as int, n as int);
                    assert(hit == before.slot(sn));
                    assert forall|i: int| 0 <= i < n implies (swept(
                        start_sequence,
                        k as int + 1,
                        n as int,
                        i,
                    ) <==> (swept(start_sequence, k as int, n as int, i) || i == hit)) by {
                        if swept(start_sequence, k as int + 1, n as int, i) {
                            let w = choose|w: int|
                                0 <= w < k + 1 && #[trigger] slot_of(start_sequence, w, n as int)
                                    == i;
                            if w < k {
                                assert(swept(start_sequence, k as int, n as int, i));
                            }
                        }
                        if swept(start_sequence, k as int, n as int, i) {
                            let w = choose|w: int|
                                0 <= w < k && #[trigger] slot_of(start_sequence, w, n as int) == i;
                            assert(slot_of(start_sequence, w, n as int) == i);
                        }
                        if i == hit {
                            assert(slot_of(start_sequence, k as int, n as int) == i);
                        }
                    }
                }
                k = k + 1;
            }
        } else {
            let mut i: usize = 0;
            while i < n
                invariant
                    self.wf(),
                    n == self.slots().len(),
                    n == old(self).slots().len(),
                    self.head() == old(self).head(),
                    0 <= i <= n,
                    forall|j: int| 0 <= j < i ==> #[trigger] self.slots()[j] == FREE,
                decreases n - i,
            {
                let ghost before = *self;
                self.remove(i as u16);
                proof {
                    vstd::arithmetic::div_mod::lemma_small_mod(i as nat, n as nat);
                    assert(before.slot(i as u16) == i);
                    assert(self.slots() == before.slots().update(i as int, FREE));
                }
                i = i + 1;
            }
        }
    }

    /// Stores `entry` under `sequence_num` and hands out the slot's value.
    ///
    /// Refuses a number older than the table reaches back, and then changes
    /// nothing. A number at or beyond the head moves the head behind it, and the
    /// slots of the numbers skipped are freed.
    pub fn insert(&mut self, sequence_num: u16, entry: T) -> (r: Option<&mut T>)
        requires
            old(self).wf(),
        ensures
            final(self).wf(),
            final(self).slots().len() == old(self).slots().len(),
            old(self).too_old(sequence_num) ==> r.is_none() && final(self).head() == old(
                self,
            ).head() && final(self).slots() == old(self).slots() && final(self).values() == old(
                self,
            ).values(),
            !old(self).too_old(sequence_num) ==> {
                &&& r matches Some(slot) && *slot == entry && final(self).values()[old(
                    self,
                ).slot(sequence_num)] == *final(slot)
                &&& final(self).holds(sequence_num)
                &&& final(self).head() == (if newer(
                    ((sequence_num + 1) % 0x1_0000) as u16,
                    old(self).head(),
                ) {
                    ((sequence_num + 1) % 0x1_0000) as u16
                } else {
                    old(self).head()
                })
                &&& forall|i: int|
                    0 <= i < old(self).slots().len() && i != old(self).slot(sequence_num)
                        ==> #[trigger] final(self).slots()[i] == (if cleared(
                        old(self).head(),
                        old(self).gap(sequence_num),
                        old(self).slots().len() as int,
                        i,
                    ) {
                        FREE
                    } else {
                        old(self).slots()[i]
                    })
                &&& forall|i: int|
                    0 <= i < old(self).slots().len() && i != old(self).slot(sequence_num)
                        && !cleared(
                        old(self).head(),
                        old(self).gap(sequence_num),
                        old(self).slots().len() as int,
                        i,
                    ) ==> #[trigger] final(self).values()[i] == old(self).values()[i]
            },
    {
        let n: usize = self.entries.len();
        let oldest: u16 = self.sequence_num.wrapping_sub(n as u16);
        if sequence_num_less_than(sequence_num, oldest) {
            return None;
        }
        let sequence_num_plus_1: u16 = sequence_num.wrapping_add(1);
        if sequence_num_greater_than(sequence_num_plus_1, self.sequence_num) {
            self.remove_range(self.sequence_num, sequence_num);
            self.sequence_num = sequence_num_plus_1;
        }
        let index = self.index(sequence_num);
        self.sequence_nums[index] = sequence_num as u32;
        self.entries[index] = entry;
        Some(&mut self.entries[index])
    }
}

} // verus!
