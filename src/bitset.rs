use vstd::prelude::*;

verus! {

/// The number of bits a `BitSet` holds.
pub const CAPACITY: usize = 64;

/// Whether bit `i` of the word `x` is set.
pub open spec fn word_bit(x: u64, i: u64) -> bool {
    (x >> i) & 1u64 == 1u64
}

proof fn lemma_word_bit_insert(x: u64, i: u64, j: u64)
    by (bit_vector)
    requires
        i < 64,
        j < 64,
    ensures
        word_bit(x | (1u64 << i), j) == (word_bit(x, j) || i == j),
{
}

proof fn lemma_word_bit_remove(x: u64, i: u64, j: u64)
    by (bit_vector)
    requires
        i < 64,
        j < 64,
    ensures
        word_bit(x & !(1u64 << i), j) == (word_bit(x, j) && i != j),
{
}

proof fn lemma_word_bit_test(x: u64, i: u64)
    by (bit_vector)
    requires
        i < 64,
    ensures
        ((1u64 << i) & x > 0) == word_bit(x, i),
{
}

proof fn lemma_word_bit_and(x: u64, y: u64, j: u64)
    by (bit_vector)
    requires
        j < 64,
    ensures
        word_bit(x & y, j) == (word_bit(x, j) && word_bit(y, j)),
{
}

proof fn lemma_word_bit_zero(j: u64)
    by (bit_vector)
    requires
        j < 64,
    ensures
        !word_bit(0u64, j),
{
}

proof fn lemma_word_and_laws(x: u64, y: u64)
    by (bit_vector)
    ensures
        x & x == x,
        x & y == y & x,
{
}

proof fn lemma_word_shift_step(d: u64, i: u64)
    by (bit_vector)
    requires
        i < 63,
        d & 1u64 == 0u64,
    ensures
        word_bit(d >> 1u64, i) == word_bit(d, (i + 1) as u64),
        d != 0u64 ==> (d >> 1u64) != 0u64,
        d != 0u64 ==> (d >> 1u64) < d,
{
}

proof fn lemma_word_bit_low(d: u64)
    by (bit_vector)
    ensures
        word_bit(d, 0u64) == (d & 1u64 == 1u64),
        d & 1u64 == 0u64 || d & 1u64 == 1u64,
        d & 1u64 == 0u64 ==> !word_bit(d >> 1u64, 63u64),
{
}

/// A non-zero word has a set bit.
proof fn lemma_word_nonzero_has_bit(d: u64)
    requires
        d != 0,
    ensures
        exists|i: u64| i < 64 && #[trigger] word_bit(d, i),
    decreases d,
{
    lemma_word_bit_low(d);
    if d & 1u64 == 1u64 {
        assert(word_bit(d, 0u64));
    } else {
        lemma_word_shift_step(d, 0u64);
        lemma_word_nonzero_has_bit(d >> 1u64);
        let i = choose|i: u64| i < 64 && #[trigger] word_bit(d >> 1u64, i);
        assert(i != 63);
        lemma_word_shift_step(d, i);
        assert(word_bit(d, (i + 1) as u64));
    }
}

/// `x & y == y` holds exactly when every bit of `y` is a bit of `x`.
proof fn lemma_word_superset(x: u64, y: u64)
    ensures
        (x & y == y) <==> (forall|i: u64| i < 64 ==> #[trigger] word_bit(y, i) ==> word_bit(x, i)),
{
    if x & y == y {
        assert forall|i: u64| i < 64 && #[trigger] word_bit(y, i) implies word_bit(x, i) by {
            lemma_word_bit_and(x, y, i);
        }
    } else {
        let d = y & !x;
        assert(d != 0u64 && forall|i: u64|
            i < 64 ==> word_bit(d, i) == (word_bit(y, i) && !word_bit(x, i))) by (bit_vector)
            requires
                x & y != y,
                d == y & !x,
        ;
        lemma_word_nonzero_has_bit(d);
    }
}

/// A fixed set of small integers, one bit per member.
#[derive(Debug, Clone, Copy, PartialEq, Eq, Structural)]
pub struct BitSet {
    bits: u64,
}

/// Walks the members of a `BitSet` in increasing order.
#[derive(Debug, Clone, Copy)]
pub struct BitSetIter {
    bitset: BitSet,
    cursor: usize,
}

impl BitSet {
    /// The members of the set.
    pub closed spec fn view(&self) -> Set<int> {
        Set::new(|i: int| 0 <= i < CAPACITY && word_bit(self.bits, i as u64))
    }

    /// The set of members common to `self` and `rhs`.
    pub closed spec fn spec_intersect(&self, rhs: BitSet) -> BitSet {
        BitSet { bits: self.bits & rhs.bits }
    }

    /// Every member of `rhs` is a member of `self`.
    pub open spec fn spec_superset_of(&self, rhs: BitSet) -> bool {
        rhs@.subset_of(self@)
    }

    /// Two sets with the same members are the same value.
    pub proof fn lemma_view_injective(&self, other: BitSet)
        ensures
            self@ == other@ <==> *self == other,
    {
        if self@ == other@ {
            lemma_word_superset(self.bits, other.bits);
            lemma_word_superset(other.bits, self.bits);
            assert forall|i: u64| i < 64 && #[trigger] word_bit(other.bits, i) implies word_bit(self.bits, i) by {
                assert(other@.contains(i as int) ==> self@.contains(i as int));
            }
            assert forall|i: u64| i < 64 && #[trigger] word_bit(self.bits, i) implies word_bit(other.bits, i) by {
                assert(self@.contains(i as int) ==> other@.contains(i as int));
            }
            lemma_word_and_laws(self.bits, other.bits);
        }
    }

    /// The intersection holds the members common to both sets.
    pub proof fn lemma_intersect_view(&self, rhs: BitSet)
        ensures
            self.spec_intersect(rhs)@ == self@.intersect(rhs@),
    {
        assert forall|i: int| #[trigger] self.spec_intersect(rhs)@.contains(i) <==> self@.intersect(
            rhs@,
        ).contains(i) by {
            if 0 <= i < 64 {
                lemma_word_bit_and(self.bits, rhs.bits, i as u64);
            }
        }
        assert(self.spec_intersect(rhs)@ =~= self@.intersect(rhs@));
    }

    /// `rhs` is a subset of `self` exactly when intersecting the two gives
    /// back `rhs`.
    pub proof fn lemma_superset_by_intersect(&self, rhs: BitSet)
        ensures
            (self.spec_intersect(rhs) == rhs) <==> self.spec_superset_of(rhs),
    {
        lemma_word_superset(self.bits, rhs.bits);
        if self.spec_superset_of(rhs) {
            assert forall|i: u64| i < 64 && #[trigger] word_bit(rhs.bits, i) implies word_bit(self.bits, i) by {
                assert(rhs@.contains(i as int) ==> self@.contains(i as int));
            }
        } else {
            let i = choose|i: int| rhs@.contains(i) && !self@.contains(i);
            assert(word_bit(rhs.bits, i as u64) && !word_bit(self.bits, i as u64));
        }
    }

    /// Intersecting a set with itself gives the set back, and intersection
    /// does not depend on the order of its operands.
    pub proof fn lemma_intersect_laws(m1: BitSet, m2: BitSet)
        ensures
            m1.spec_intersect(m1) == m1,
            m1.spec_intersect(m2) == m2.spec_intersect(m1),
    {
        lemma_word_and_laws(m1.bits, m2.bits);
    }

    /// Constructs an empty set.
    pub fn new() -> (r: Self)
        ensures
            r@ == Set::<int>::empty(),
    {
        let r = BitSet { bits: 0 };
        assert forall|i: int| !(#[trigger] r@.contains(i)) by {
            if 0 <= i < 64 {
                lemma_word_bit_zero(i as u64);
            }
        }
        assert(r@ =~= Set::<int>::empty());
        r
    }

    /// Adds `index` to the set.
    pub fn insert(&mut self, index: usize)
        requires
            index < CAPACITY,
        ensures
            final(self)@ == old(self)@.insert(index as int),
    {
        self.bits = self.bits | (1u64 << (index as u64));
        assert forall|i: int| #[trigger] self@.contains(i) <==> old(self)@.insert(
            index as int,
        ).contains(i) by {
            if 0 <= i < 64 {
                lemma_word_bit_insert(old(self).bits, index as u64, i as u64);
            }
        }
        assert(self@ =~= old(self)@.insert(index as int));
    }

    /// Removes `index` from the set.
    pub fn remove(&mut self, index: usize)
        requires
            index < CAPACITY,
        ensures
            final(self)@ == old(self)@.remove(index as int),
    {
        self.bits = self.bits & !(1u64 << (index as u64));
        assert forall|i: int| #[trigger] self@.contains(i) <==> old(self)@.remove(
            index as int,
        ).contains(i) by {
            if 0 <= i < 64 {
                lemma_word_bit_remove(old(self).bits, index as u64, i as u64);
            }
        }
        assert(self@ =~= old(self)@.remove(index as int));
    }

    /// Whether `index` is a member.
    pub fn contains(&self, index: usize) -> (r: bool)
        requires
            index < CAPACITY,
        ensures
            r == self@.contains(index as int),
    {
        proof {
            lemma_word_bit_test(self.bits, index as u64);
        }
        ((1u64 << (index as u64)) & self.bits) > 0
    }

    /// Removes every member.
    pub fn clear(&mut self)
        ensures
            final(self)@ == Set::<int>::empty(),
            *final(self) == BitSet::spec_empty(),
    {
        *self = Self::new();
        proof {
            self.lemma_view_injective(BitSet::spec_empty());
            BitSet::spec_empty().lemma_view_injective(*self);
            lemma_empty_view();
        }
    }

    /// The set without members.
    pub closed spec fn spec_empty() -> BitSet {
        BitSet { bits: 0 }
    }

    /// Returns the members common to `self` and `rhs`.
    pub fn intersect_with(&self, rhs: &BitSet) -> (r: BitSet)
        ensures
            r == self.spec_intersect(*rhs),
            r@ == self@.intersect(rhs@),
    {
        proof {
            self.lemma_intersect_view(*rhs);
        }
        BitSet { bits: self.bits & rhs.bits }
    }

    /// Whether every member of `rhs` is a member of `self`.
    pub fn is_superset(&self, rhs: &BitSet) -> (r: bool)
        ensures
            r == self.spec_superset_of(*rhs),
    {
        proof {
            self.lemma_superset_by_intersect(*rhs);
        }
        self.intersect_with(rhs) == *rhs
    }

    /// Returns an iterator over the members, in increasing order.
    pub fn iter(&self) -> (r: BitSetIter)
        ensures
            r.spec_bitset() == *self,
            r.spec_cursor() == 0,
    {
        BitSetIter { bitset: *self, cursor: 0 }
    }
}

proof fn lemma_empty_view()
    ensures
        BitSet::spec_empty()@ == Set::<int>::empty(),
{
    assert forall|i: int| !(#[trigger] BitSet::spec_empty()@.contains(i)) by {
        if 0 <= i < 64 {
            lemma_word_bit_zero(i as u64);
        }
    }
    assert(BitSet::spec_empty()@ =~= Set::<int>::empty());
}

impl BitSetIter {
    /// The set being walked.
    pub closed spec fn spec_bitset(&self) -> BitSet {
        self.bitset
    }

    /// The smallest candidate not yet examined.
    pub closed spec fn spec_cursor(&self) -> nat {
        self.cursor as nat
    }

    /// Yields the smallest member not below the cursor and moves the cursor
    /// past it.
    pub fn next(&mut self) -> (r: Option<usize>)
        ensures
            final(self).spec_bitset() == old(self).spec_bitset(),
            match r {
                Some(i) => {
                    &&& old(self).spec_cursor() <= i < CAPACITY
                    &&& old(self).spec_bitset()@.contains(i as int)
                    &&& forall|j: int|
                        old(self).spec_cursor() <= j < i ==> !old(
                            self,
                        ).spec_bitset()@.contains(j)
                    &&& final(self).spec_cursor() == i + 1
                },
                None => {
                    &&& forall|j: int|
                        old(self).spec_cursor() <= j < CAPACITY ==> !old(
                            self,
                        ).spec_bitset()@.contains(j)
                    &&& final(self).spec_cursor() >= old(self).spec_cursor()
                    &&& final(self).spec_cursor() >= CAPACITY
                },
            },
    {
        while self.cursor < CAPACITY
            invariant
                self.bitset == old(self).bitset,
                old(self).cursor <= self.cursor,
                forall|j: int|
                    old(self).cursor <= j < self.cursor ==> !self.bitset@.contains(j),
            decreases CAPACITY - self.cursor,
        {
            self.cursor = self.cursor + 1;
            if self.bitset.contains(self.cursor - 1) {
                return Some(self.cursor - 1);
            }
        }
        None
    }
}

/// A set of integers whose backing words grow on demand.
#[derive(Debug, Clone, PartialEq, Eq)]
pub struct DynamicBitSet {
    bits: Vec<u64>,
}

/// Walks the members of a `DynamicBitSet` in increasing order.
pub struct DynamicBitSetIter<'a> {
    bitset: &'a DynamicBitSet,
    cursor: usize,
}

/// Whether `i` is a member of the set that the words `bits` spell out.
pub open spec fn words_contain(bits: Seq<u64>, i: int) -> bool {
    0 <= i && i / 64 < bits.len() && word_bit(bits[i / 64], (i % 64) as u64)
}

impl DynamicBitSet {
    /// The members of the set.
    pub closed spec fn view(&self) -> Set<int> {
        Set::new(|i: int| words_contain(self.bits@, i))
    }

    /// The backing words stay few enough that every bit position fits in
    /// a `usize`.
    pub closed spec fn wf(&self) -> bool {
        self.bits@.len() <= usize::MAX / 64
    }

    /// Constructs an empty set.
    pub fn new() -> (r: Self)
        ensures
            r.wf(),
            r@ == Set::<int>::empty(),
    {
        let r = DynamicBitSet { bits: Vec::new() };
        assert(r@ =~= Set::<int>::empty());
        r
    }

    /// Adds `index` to the set, growing the backing words as needed.
    pub fn insert(&mut self, index: usize)
        requires
            old(self).wf(),
            index / 64 < usize::MAX / 64,
        ensures
            final(self).wf(),
            final(self)@ == old(self)@.insert(index as int),
    {
        let word = index / 64;
        let bit = (index % 64) as u64;
        while self.bits.len() <= word
            invariant
                self@ == old(self)@,
                self.bits@.len() <= word + 1 || self.bits@.len() == old(self).bits@.len(),
                word < usize::MAX / 64,
                old(self).wf(),
            decreases word + 1 - self.bits.len(),
        {
            let ghost before = self.bits@;
            self.bits.push(0);
            assert forall|i: int| #[trigger] words_contain(self.bits@, i) == words_contain(
                before,
                i,
            ) by {
                if 0 <= i && i / 64 == before.len() {
                    lemma_word_bit_zero((i % 64) as u64);
                } else if 0 <= i && i / 64 < before.len() {
                    assert(self.bits@[i / 64] == before[i / 64]);
                }
            }
            assert(self@ =~= old(self)@);
        }
        let w = self.bits[word] | (1u64 << bit);
        let ghost before = self.bits@;
        self.bits.set(word, w);
        assert forall|i: int| #[trigger] self@.contains(i) <==> old(self)@.insert(
            index as int,
        ).contains(i) by {
            if 0 <= i && i / 64 == word {
                lemma_word_bit_insert(before[word as int], bit, (i % 64) as u64);
            } else if 0 <= i && i / 64 < before.len() {
                assert(self.bits@[i / 64] == before[i / 64]);
            }
        }
        assert(self@ =~= old(self)@.insert(index as int));
    }

    /// Removes `index` from the set; an index past the backing words is
    /// already absent.
    pub fn remove(&mut self, index: usize)
        requires
            old(self).wf(),
        ensures
            final(self).wf(),
            final(self)@ == old(self)@.remove(index as int),
    {
        let word = index / 64;
        let bit = (index % 64) as u64;
        if self.bits.len() <= word {
            assert(old(self)@.remove(index as int) =~= old(self)@);
            return;
        }
        let w = self.bits[word] & !(1u64 << bit);
        self.bits.set(word, w);
        assert forall|i: int| #[trigger] self@.contains(i) <==> old(self)@.remove(
            index as int,
        ).contains(i) by {
            if 0 <= i && i / 64 == word {
                lemma_word_bit_remove(old(self).bits@[word as int], bit, (i % 64) as u64);
            } else if 0 <= i && i / 64 < old(self).bits@.len() {
                assert(self.bits@[i / 64] == old(self).bits@[i / 64]);
            }
        }
        assert(self@ =~= old(self)@.remove(index as int));
    }

    /// Whether `index` is a member; an index past the backing words is not.
    pub fn contains(&self, index: usize) -> (r: bool)
        ensures
            r == self@.contains(index as int),
    {
        let word = index / 64;
        let bit = (index % 64) as u64;
        if self.bits.len() <= word {
            return false;
        }
        proof {
            lemma_word_bit_test(self.bits@[word as int], bit);
        }
        ((1u64 << bit) & self.bits[word]) > 0
    }

    /// Removes every member and releases the backing words.
    pub fn clear(&mut self)
        ensures
            final(self).wf(),
            final(self)@ == Set::<int>::empty(),
    {
        self.bits.clear();
        assert(self@ =~= Set::<int>::empty());
    }

    /// Returns an iterator over the members, in increasing order.
    pub fn iter(&self) -> (r: DynamicBitSetIter<'_>)
        requires
            self.wf(),
        ensures
            *r.spec_bitset() == *self,
            r.spec_cursor() == 0,
    {
        DynamicBitSetIter { bitset: self, cursor: 0 }
    }
}

impl<'a> DynamicBitSetIter<'a> {
    /// The set being walked.
    pub closed spec fn spec_bitset(&self) -> &'a DynamicBitSet {
        self.bitset
    }

    /// The smallest candidate not yet examined.
    pub closed spec fn spec_cursor(&self) -> nat {
        self.cursor as nat
    }

    /// Yields the smallest member not below the cursor and moves the cursor
    /// past it.
    pub fn next(&mut self) -> (r: Option<usize>)
        requires
            old(self).spec_bitset().wf(),
        ensures
            final(self).spec_bitset() == old(self).spec_bitset(),
            match r {
                Some(i) => {
                    &&& old(self).spec_cursor() <= i
                    &&& old(self).spec_bitset()@.contains(i as int)
                    &&& forall|j: int|
                        old(self).spec_cursor() <= j < i ==> !old(
                            self,
                        ).spec_bitset()@.contains(j)
                    &&& final(self).spec_cursor() == i + 1
                },
                None => {
                    &&& forall|j: int|
                        old(self).spec_cursor() <= j ==> !old(self).spec_bitset()@.contains(j)
                    &&& final(self).spec_cursor() >= old(self).spec_cursor()
                },
            },
    {
        let len = self.bitset.bits.len();
        while self.cursor / 64 < len
            invariant
                self.bitset == old(self).bitset,
                len == self.bitset.bits@.len(),
                len <= usize::MAX / 64,
                old(self).cursor <= self.cursor,
                forall|j: int|
                    old(self).cursor <= j < self.cursor ==> !self.bitset@.contains(j),
            decreases len * 64 - self.cursor,
        {
            let found = self.bitset.contains(self.cursor);
            self.cursor = self.cursor + 1;
            if found {
                return Some(self.cursor - 1);
            }
        }
        assert forall|j: int| old(self).cursor <= j implies !self.bitset@.contains(j) by {
            if j >= self.cursor {
                assert(j / 64 >= self.cursor / 64);
            }
        }
        None
    }
}

} // verus!
