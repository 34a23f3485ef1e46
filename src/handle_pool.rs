use vstd::prelude::*;
use crate::handle::{Handle, HandleIndex};

verus! {

/// The number of `true` entries of `s`.
pub open spec fn count_true(s: Seq<bool>) -> nat
    decreases s.len(),
{
    if s.len() == 0 {
        0
    } else {
        count_true(s.drop_last()) + (if s.last() { 1nat } else { 0nat })
    }
}

proof fn lemma_count_true_bound(s: Seq<bool>)
    ensures
        count_true(s) <= s.len(),
    decreases s.len(),
{
    if s.len() > 0 {
        lemma_count_true_bound(s.drop_last());
    }
}

proof fn lemma_count_true_push(s: Seq<bool>, b: bool)
    ensures
        count_true(s.push(b)) == count_true(s) + (if b { 1nat } else { 0nat }),
{
    assert(s.push(b).drop_last() =~= s);
}

proof fn lemma_count_true_update(s: Seq<bool>, i: int, b: bool)
    requires
        0 <= i < s.len(),
    ensures
        count_true(s.update(i, b)) + (if s[i] { 1nat } else { 0nat })
            == count_true(s) + (if b { 1nat } else { 0nat }),
    decreases s.len(),
{
    if i == s.len() - 1 {
        assert(s.update(i, b).drop_last() =~= s.drop_last());
    } else {
        assert(s.update(i, b).drop_last() =~= s.drop_last().update(i, b));
        lemma_count_true_update(s.drop_last(), i, b);
    }
}

/// Issues and recycles generational handles.
///
/// Slot `i` holds the version that the next handle at index `i` carries and
/// whether a handle at `i` is currently alive. Freeing a handle bumps the
/// version of its slot, so that no copy of the freed handle is ever alive
/// again. A slot whose version reaches the largest value is retired for good
/// instead of being recycled.
pub struct HandlePool {
    versions: Vec<HandleIndex>,
    alive: Vec<bool>,
    frees: Vec<HandleIndex>,
    size: usize,
}

/// A range of slots of a `HandlePool`, walked in index order.
#[derive(Debug, Clone, Copy)]
pub struct HandleIter {
    pub start: usize,
    pub end: usize,
}

impl HandlePool {
    /// The number of slots ever issued.
    pub closed spec fn spec_len(&self) -> nat {
        self.versions@.len()
    }

    /// The current version of slot `i`.
    pub closed spec fn spec_version(&self, i: int) -> HandleIndex {
        self.versions@[i]
    }

    /// Whether a handle at slot `i` is currently alive.
    pub closed spec fn slot_alive(&self, i: int) -> bool {
        0 <= i < self.versions@.len() && self.alive@[i]
    }

    /// The slots that `create` recycles, the last one first.
    pub closed spec fn spec_frees(&self) -> Seq<HandleIndex> {
        self.frees@
    }

    /// The number of alive handles.
    pub closed spec fn spec_size(&self) -> nat {
        count_true(self.alive@)
    }

    /// The handle that slot `i` currently issues.
    pub open spec fn slot_handle(&self, i: int) -> Handle {
        Handle { index: i as HandleIndex, version: self.spec_version(i) }
    }

    /// Whether `h` is an alive handle of this pool.
    pub open spec fn spec_is_alive(&self, h: Handle) -> bool {
        self.slot_alive(h.index as int) && self.spec_version(h.index as int) == h.version
    }

    pub closed spec fn wf(&self) -> bool {
        &&& self.versions@.len() == self.alive@.len()
        &&& self.versions@.len() <= HandleIndex::MAX
        &&& self.size == count_true(self.alive@)
        &&& forall|i: int| 0 <= i < self.versions@.len() ==> self.versions@[i] >= 1
        &&& forall|i: int|
            0 <= i < self.versions@.len() && #[trigger] self.alive@[i] ==> self.versions@[i]
                < HandleIndex::MAX
        &&& forall|k: int|
            0 <= k < self.frees@.len() ==> {
                &&& self.frees@[k] < self.versions@.len()
                &&& !self.alive@[self.frees@[k] as int]
                &&& self.versions@[self.frees@[k] as int] < HandleIndex::MAX
            }
        &&& forall|k: int, l: int|
            0 <= k < l < self.frees@.len() ==> self.frees@[k] != self.frees@[l]
    }

    /// Each slot's version and liveness are carried from `self` to `other`
    /// except at slot `i`, and no slot disappears.
    pub open spec fn same_except(&self, other: &HandlePool, i: int) -> bool {
        &&& other.spec_len() >= self.spec_len()
        &&& forall|j: int|
            0 <= j < self.spec_len() && j != i ==> {
                &&& other.spec_version(j) == self.spec_version(j)
                &&& other.slot_alive(j) == self.slot_alive(j)
            }
    }

    /// No version of `self` is larger than the same slot's version in `other`.
    pub open spec fn versions_grow(&self, other: &HandlePool) -> bool {
        &&& other.spec_len() >= self.spec_len()
        &&& forall|j: int|
            0 <= j < self.spec_len() ==> self.spec_version(j) <= #[trigger] other.spec_version(j)
    }

    /// Whether `h` was issued by this pool at some point: the versions that a
    /// slot has handed out are those below its current version, and the
    /// current one too while the slot is alive.
    pub open spec fn spec_issued(&self, h: Handle) -> bool {
        &&& h.index < self.spec_len()
        &&& 1 <= h.version
        &&& (h.version < self.spec_version(h.index as int) || (h.version == self.spec_version(
            h.index as int,
        ) && self.slot_alive(h.index as int)))
    }

    /// Whether `create` can issue one more handle.
    pub open spec fn can_create(&self) -> bool {
        self.spec_frees().len() > 0 || self.spec_len() < HandleIndex::MAX
    }

    /// What `create` guarantees when it turns the pool `self` into `new` and
    /// hands out `r`: `r` reuses the most recently freed slot at that slot's
    /// current version, or opens a new slot with version 1; `r` differs from
    /// every handle issued before; no other slot changes.
    pub open spec fn created(&self, new: &HandlePool, r: Handle) -> bool {
        &&& new.spec_is_alive(r)
        &&& r.spec_is_valid()
        &&& !self.slot_alive(r.index as int)
        &&& !self.spec_issued(r)
        &&& new.spec_issued(r)
        &&& forall|h: Handle| #[trigger] self.spec_issued(h) ==> new.spec_issued(h)
        &&& self.spec_frees().len() > 0 ==> {
            &&& r.index == self.spec_frees().last()
            &&& r.version == self.spec_version(r.index as int)
            &&& new.spec_len() == self.spec_len()
            &&& new.spec_frees() == self.spec_frees().drop_last()
        }
        &&& self.spec_frees().len() == 0 ==> {
            &&& r.index == self.spec_len()
            &&& r.version == 1
            &&& new.spec_len() == self.spec_len() + 1
            &&& new.spec_frees() == self.spec_frees()
        }
        &&& new.spec_version(r.index as int) == r.version
        &&& self.same_except(new, r.index as int)
        &&& self.versions_grow(new)
        &&& new.spec_size() == self.spec_size() + 1
    }

    /// What `free` guarantees when it turns the pool `self` into `new` by
    /// freeing the alive handle `h`: the slot dies and its version grows by
    /// one; the slot is queued for reuse unless its version reached the
    /// largest value; no other slot changes.
    pub open spec fn freed(&self, new: &HandlePool, h: Handle) -> bool {
        &&& !new.slot_alive(h.index as int)
        &&& new.spec_len() == self.spec_len()
        &&& new.spec_version(h.index as int) == h.version + 1
        &&& new.spec_size() + 1 == self.spec_size()
        &&& self.same_except(new, h.index as int)
        &&& self.versions_grow(new)
        &&& forall|g: Handle| #[trigger] self.spec_issued(g) ==> new.spec_issued(g)
        &&& new.spec_frees() == (if h.version < HandleIndex::MAX - 1 {
            self.spec_frees().push(h.index)
        } else {
            self.spec_frees()
        })
    }

    /// The handles alive in slots `start .. end` for which `keep` holds, in
    /// index order.
    pub open spec fn live_where(&self, start: int, end: int, keep: spec_fn(int) -> bool) -> Seq<
        Handle,
    >
        decreases end - start,
    {
        if start >= end || start < 0 {
            Seq::empty()
        } else {
            let rest = self.live_where(start + 1, end, keep);
            if self.slot_alive(start) && keep(start) {
                seq![self.slot_handle(start)].add(rest)
            } else {
                rest
            }
        }
    }

    /// The alive handles of slots `start .. end`, in index order.
    pub open spec fn live_between(&self, start: int, end: int) -> Seq<Handle> {
        self.live_where(start, end, |i: int| true)
    }

    /// Constructs a new, empty `HandlePool`.
    pub fn new() -> (r: Self)
        ensures
            r.wf(),
            r.spec_len() == 0,
            r.spec_size() == 0,
            r.spec_frees().len() == 0,
    {
        HandlePool { versions: Vec::new(), alive: Vec::new(), frees: Vec::new(), size: 0 }
    }

    /// Constructs a new, empty `HandlePool` with room for `capacity` slots.
    pub fn with_capacity(capacity: usize) -> (r: Self)
        ensures
            r.wf(),
            r.spec_len() == 0,
            r.spec_size() == 0,
            r.spec_frees().len() == 0,
    {
        HandlePool {
            versions: Vec::with_capacity(capacity),
            alive: Vec::with_capacity(capacity),
            frees: Vec::new(),
            size: 0,
        }
    }

    /// Issues a handle: recycles the most recently freed slot if there is
    /// one, and opens a new slot with version 1 otherwise.
    pub fn create(&mut self) -> (r: Handle)
        requires
            old(self).wf(),
            old(self).can_create(),
        ensures
            final(self).wf(),
            old(self).created(&*final(self), r),
    {
        proof {
            lemma_count_true_bound(self.alive@);
        }
        if self.frees.len() > 0 {
            let index = self.frees.pop().unwrap();
            let i = index as usize;
            proof {
                lemma_count_true_update(self.alive@, i as int, true);
            }
            self.alive.set(i, true);
            proof {
                lemma_count_true_bound(self.alive@);
            }
            self.size = self.size + 1;
            let version = self.versions[i];
            assert forall|k: int, l: int|
                0 <= k < l < self.frees@.len() implies self.frees@[k] != self.frees@[l] by {
                assert(self.frees@[k] == old(self).frees@[k]);
                assert(self.frees@[l] == old(self).frees@[l]);
            }
            assert forall|k: int| 0 <= k < self.frees@.len() implies !self.alive@[
                self.frees@[k] as int
            ] by {
                assert(self.frees@[k] == old(self).frees@[k]);
                assert(old(self).frees@[k] != index);
            }
            Handle::new(index, version)
        } else {
            let index = self.versions.len() as HandleIndex;
            proof {
                lemma_count_true_push(self.alive@, true);
            }
            self.versions.push(1);
            self.alive.push(true);
            assert(self.size < self.alive@.len());
            self.size = self.size + 1;
            Handle::new(index, 1)
        }
    }

    /// Whether `handle` is alive in this pool.
    pub fn is_alive(&self, handle: &Handle) -> (r: bool)
        requires
            self.wf(),
        ensures
            r == self.spec_is_alive(*handle),
    {
        let i = handle.index as usize;
        i < self.versions.len() && self.alive[i] && self.versions[i] == handle.version
    }

    /// Frees `handle` if it is alive and reports whether it was. The slot's
    /// version grows by one and the slot is recycled; a slot whose version is
    /// already the largest one is retired instead.
    pub fn free(&mut self, handle: &Handle) -> (r: bool)
        requires
            old(self).wf(),
        ensures
            final(self).wf(),
            r == old(self).spec_is_alive(*handle),
            !final(self).spec_is_alive(*handle),
            !r ==> *final(self) == *old(self),
            r ==> old(self).freed(&*final(self), *handle),
    {
        if !self.is_alive(handle) {
            return false;
        }
        let i = handle.index as usize;
        proof {
            lemma_count_true_update(self.alive@, i as int, false);
        }
        self.alive.set(i, false);
        self.size = self.size - 1;
        if self.versions[i] < HandleIndex::MAX - 1 {
            let v = self.versions[i] + 1;
            self.versions.set(i, v);
            assert forall|k: int| 0 <= k < old(self).frees@.len() implies old(self).frees@[k]
                != handle.index by {}
            self.frees.push(handle.index);
        } else {
            self.versions.set(i, HandleIndex::MAX);
        }
        true
    }

    /// Returns the number of alive handles.
    pub fn size(&self) -> (r: usize)
        requires
            self.wf(),
        ensures
            r == self.spec_size(),
    {
        self.size
    }

    /// Returns the current version of slot `i`.
    pub fn version_at(&self, i: usize) -> (r: HandleIndex)
        requires
            self.wf(),
            i < self.spec_len(),
        ensures
            r == self.spec_version(i as int),
    {
        self.versions[i]
    }

    /// Returns the number of slots ever issued.
    pub fn len(&self) -> (r: usize)
        requires
            self.wf(),
        ensures
            r == self.spec_len(),
    {
        self.versions.len()
    }

    /// Returns an iterator over all slots of the pool.
    pub fn iter(&self) -> (r: HandleIter)
        requires
            self.wf(),
        ensures
            r.start == 0,
            r.end == self.spec_len(),
    {
        HandleIter { start: 0, end: self.versions.len() }
    }
}

impl HandlePool {
    /// Only issued slots are alive, and the slots waiting for reuse are
    /// distinct, issued and dead.
    pub proof fn lemma_wf_facts(&self)
        requires
            self.wf(),
        ensures
            self.spec_len() <= HandleIndex::MAX,
            forall|i: int| #[trigger] self.slot_alive(i) ==> 0 <= i < self.spec_len(),
            forall|k: int|
                0 <= k < self.spec_frees().len() ==> {
                    &&& #[trigger] self.spec_frees()[k] < self.spec_len()
                    &&& !self.slot_alive(self.spec_frees()[k] as int)
                },
            forall|k: int, l: int|
                0 <= k < l < self.spec_frees().len() ==> self.spec_frees()[k]
                    != self.spec_frees()[l],
    {
    }

    /// The alive handles of the pool.
    pub open spec fn alive_handles(&self) -> Set<Handle> {
        Set::new(|h: Handle| self.spec_is_alive(h))
    }

    /// The alive handles of the first `n` slots.
    closed spec fn alive_below(&self, n: int) -> Set<Handle> {
        Set::new(|h: Handle| h.index < n && self.spec_is_alive(h))
    }

    proof fn lemma_alive_below(&self, n: int)
        requires
            self.wf(),
            0 <= n <= self.spec_len(),
        ensures
            self.alive_below(n).finite(),
            self.alive_below(n).len() == count_true(self.alive@.subrange(0, n)),
        decreases n,
    {
        if n == 0 {
            assert(self.alive_below(0) =~= Set::<Handle>::empty());
        } else {
            self.lemma_alive_below(n - 1);
            let prev = self.alive_below(n - 1);
            assert(self.alive@.subrange(0, n).drop_last() =~= self.alive@.subrange(0, n - 1));
            let h = self.slot_handle(n - 1);
            assert(h.index == n - 1);
            if self.alive@[n - 1] {
                assert(self.alive_below(n) =~= prev.insert(h));
                assert(!prev.contains(h));
            } else {
                assert(self.alive_below(n) =~= prev);
            }
        }
    }

    /// The alive handles are finitely many, as many as `spec_size` counts.
    pub proof fn lemma_alive_handles(&self)
        requires
            self.wf(),
        ensures
            self.alive_handles().finite(),
            self.alive_handles().len() == self.spec_size(),
    {
        self.lemma_alive_below(self.spec_len() as int);
        assert(self.alive@.subrange(0, self.spec_len() as int) =~= self.alive@);
        assert(self.alive_below(self.spec_len() as int) =~= self.alive_handles());
    }

    /// Splitting a range of slots at `mid` splits its handles at the same
    /// place: `start .. end` yields the handles of `start .. mid` followed by
    /// those of `mid .. end`.
    pub proof fn lemma_live_where_split(
        &self,
        start: int,
        mid: int,
        end: int,
        keep: spec_fn(int) -> bool,
    )
        requires
            0 <= start <= mid <= end,
        ensures
            self.live_where(start, end, keep) == self.live_where(start, mid, keep).add(
                self.live_where(mid, end, keep),
            ),
        decreases mid - start,
    {
        if start < mid {
            self.lemma_live_where_split(start + 1, mid, end, keep);
            assert(self.live_where(start, mid, keep).add(self.live_where(mid, end, keep))
                =~= self.live_where(start, end, keep));
        } else {
            assert(self.live_where(start, mid, keep) =~= Seq::<Handle>::empty());
            assert(self.live_where(start, mid, keep).add(self.live_where(mid, end, keep))
                =~= self.live_where(mid, end, keep));
        }
    }

    /// Every handle of the walk of `start .. end` lies in that range.
    pub proof fn lemma_live_where_range(
        &self,
        start: int,
        end: int,
        keep: spec_fn(int) -> bool,
        h: Handle,
    )
        requires
            self.wf(),
            0 <= start,
            self.live_where(start, end, keep).contains(h),
        ensures
            start <= h.index < end,
        decreases end - start,
    {
        if start < end {
            let rest = self.live_where(start + 1, end, keep);
            if rest.contains(h) {
                self.lemma_live_where_range(start + 1, end, keep, h);
            } else {
                let all = self.live_where(start, end, keep);
                let k = choose|k: int| 0 <= k < all.len() && all[k] == h;
                if k > 0 {
                    assert(rest[k - 1] == h);
                }
                assert(h == self.slot_handle(start));
            }
        }
    }

    /// Slots at or past the end of the pool hold no handle.
    pub proof fn lemma_live_where_beyond(&self, start: int, end: int, keep: spec_fn(int) -> bool)
        requires
            start >= self.spec_len(),
        ensures
            self.live_where(start, end, keep).len() == 0,
        decreases end - start,
    {
        if start < end {
            self.lemma_live_where_beyond(start + 1, end, keep);
        }
    }

    /// A handle stands in the walk of `start .. end` exactly when it is alive,
    /// its slot lies in the range and `keep` holds of the slot; the walk lists
    /// the handles in increasing index order.
    pub proof fn lemma_live_where_members(
        &self,
        start: int,
        end: int,
        keep: spec_fn(int) -> bool,
    )
        requires
            self.wf(),
            0 <= start,
            end <= self.spec_len(),
        ensures
            forall|h: Handle|
                #[trigger] self.live_where(start, end, keep).contains(h) <==> {
                    &&& start <= h.index < end
                    &&& self.spec_is_alive(h)
                    &&& keep(h.index as int)
                },
            forall|a: int, b: int|
                0 <= a < b < self.live_where(start, end, keep).len() ==> (
                #[trigger] self.live_where(start, end, keep)[a]).index
                    < #[trigger] self.live_where(start, end, keep)[b].index,
        decreases end - start,
    {
        if start < end {
            self.lemma_live_where_members(start + 1, end, keep);
            let rest = self.live_where(start + 1, end, keep);
            let all = self.live_where(start, end, keep);
            assert(start < HandleIndex::MAX);
            assert(self.slot_handle(start).index == start);
            if self.slot_alive(start) && keep(start) {
                assert(all == seq![self.slot_handle(start)].add(rest));
                assert forall|h: Handle| #[trigger] all.contains(h) <==> {
                    &&& start <= h.index < end
                    &&& self.spec_is_alive(h)
                    &&& keep(h.index as int)
                } by {
                    if all.contains(h) {
                        let k = choose|k: int| 0 <= k < all.len() && all[k] == h;
                        if k > 0 {
                            assert(rest[k - 1] == h);
                            assert(rest.contains(h));
                        } else {
                            assert(all[0] == self.slot_handle(start));
                            assert(h == self.slot_handle(start));
                            assert(h.index == start);
                        }
                    }
                    if start <= h.index < end && self.spec_is_alive(h) && keep(h.index as int) {
                        if h.index == start {
                            assert(all[0] == h);
                        } else {
                            assert(rest.contains(h));
                            let k = choose|k: int| 0 <= k < rest.len() && rest[k] == h;
                            assert(all[k + 1] == h);
                        }
                    }
                }
                assert forall|x: int, y: int| 0 <= x < y < all.len() implies (
                #[trigger] all[x]).index < (#[trigger] all[y]).index by {
                    if x == 0 {
                        assert(all[0] == self.slot_handle(start));
                        assert(all[y] == rest[y - 1]);
                        assert(rest.contains(all[y]));
                    } else {
                        assert(all[x] == rest[x - 1]);
                        assert(all[y] == rest[y - 1]);
                    }
                }
            } else {
                assert(all == rest);
                assert forall|h: Handle| #[trigger] all.contains(h) <==> {
                    &&& start <= h.index < end
                    &&& self.spec_is_alive(h)
                    &&& keep(h.index as int)
                } by {
                    if start <= h.index < end && self.spec_is_alive(h) && keep(h.index as int) {
                        assert(h.index != start);
                    }
                }
            }
        }
    }
}

/// Versions never shrink along a run of pool operations.
pub proof fn lemma_versions_grow_transitive(first: HandlePool, second: HandlePool, third: HandlePool)
    requires
        first.versions_grow(&second),
        second.versions_grow(&third),
    ensures
        first.versions_grow(&third),
{
    assert forall|j: int| 0 <= j < first.spec_len() implies first.spec_version(j) <= #[trigger] third.spec_version(j) by {
        assert(second.spec_version(j) <= third.spec_version(j));
    }
}

/// A freed handle never comes back: once `free(h1)` has raised the version of
/// its slot, every handle alive at that slot in any later state of the pool
/// differs from `h1`, in particular one that `create` issues when it recycles
/// the slot.
pub proof fn lemma_freed_handle_never_returns(
    freed: HandlePool,
    later: HandlePool,
    h1: Handle,
    h2: Handle,
)
    requires
        h1.index < freed.spec_len(),
        freed.spec_version(h1.index as int) > h1.version,
        freed.versions_grow(&later),
        later.spec_is_alive(h2),
        h2.index == h1.index,
    ensures
        h2 != h1,
        !later.spec_is_alive(h1),
{
    assert(freed.spec_version(h1.index as int) <= later.spec_version(h1.index as int));
}

impl HandleIter {
    /// The alive handles that this iterator has yet to yield from `pool`.
    pub open spec fn remaining(&self, pool: &HandlePool) -> Seq<Handle> {
        pool.live_between(self.start as int, self.end as int)
    }

    /// Yields the next alive handle of the range, in index order.
    pub fn next(&mut self, pool: &HandlePool) -> (r: Option<Handle>)
        requires
            pool.wf(),
        ensures
            final(self).end == old(self).end,
            old(self).remaining(pool).len() == 0 ==> r.is_none() && final(self).remaining(
                pool,
            ).len() == 0,
            old(self).remaining(pool).len() > 0 ==> r == Some(old(self).remaining(pool)[0])
                && final(self).remaining(pool) == old(self).remaining(pool).drop_first(),
    {
        let len = pool.len();
        while self.start < self.end && self.start < len
            invariant
                pool.wf(),
                len == pool.spec_len(),
                self.end == old(self).end,
                self.remaining(pool) == old(self).remaining(pool),
            decreases self.end - self.start,
        {
            let h = Handle::new(self.start as HandleIndex, pool.version_at(self.start));
            self.start = self.start + 1;
            if pool.is_alive(&h) {
                return Some(h);
            }
        }
        proof {
            if self.start < self.end {
                pool.lemma_live_where_beyond(self.start as int, self.end as int, |i: int| true);
            }
        }
        None
    }

    /// Divides the range at its midpoint into two disjoint ranges.
    pub fn split(&self) -> (r: (HandleIter, HandleIter))
        ensures
            r.0.start == self.start,
            r.1.end == self.end,
            r.0.end == r.1.start,
            self.start <= self.end ==> self.start <= r.0.end <= self.end && r.0.end - self.start
                == (self.end - self.start) / 2,
    {
        let mid = if self.start < self.end {
            self.start + (self.end - self.start) / 2
        } else {
            self.start
        };
        (HandleIter { start: self.start, end: mid }, HandleIter { start: mid, end: self.end })
    }

    /// Divides the range into its first `len` slots and the rest.
    pub fn split_with(&self, len: usize) -> (r: (HandleIter, HandleIter))
        ensures
            r.0.start == self.start,
            r.1.end == self.end,
            r.0.end == r.1.start,
            self.start <= self.end ==> r.0.end == (if len >= self.end - self.start {
                self.end as int
            } else {
                self.start + len
            }),
    {
        let mid = if self.start >= self.end {
            self.start
        } else if len >= self.end - self.start {
            self.end
        } else {
            self.start + len
        };
        (HandleIter { start: self.start, end: mid }, HandleIter { start: mid, end: self.end })
    }
}

} // verus!
