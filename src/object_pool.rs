use vstd::prelude::*;
use crate::handle::Handle;
use crate::handle_pool::{HandleIter, HandlePool};

verus! {

/// Walking the two halves of a split walk over the pool's slots yields
/// every handle of the pool exactly once: each handle that names a value
/// comes from one half, and no handle comes from both.
pub proof fn lemma_split_walk_covers<T>(pool: &ObjectPool<T>, left: HandleIter, right: HandleIter)
    requires
        pool.wf(),
        left.start == 0,
        left.start <= left.end,
        left.end == right.start,
        right.start <= right.end,
        right.end == pool.spec_handles().spec_len(),
    ensures
        forall|h: Handle|
            #[trigger] pool@.contains_key(h) <==> (left.remaining(&pool.spec_handles()).contains(h)
                || right.remaining(&pool.spec_handles()).contains(h)),
        forall|h: Handle|
            !(#[trigger] left.remaining(&pool.spec_handles()).contains(h) && right.remaining(
                &pool.spec_handles(),
            ).contains(h)),
{
    let p = pool.spec_handles();
    let keep = |i: int| true;
    p.lemma_live_where_members(0, left.end as int, keep);
    p.lemma_live_where_members(left.end as int, right.end as int, keep);
    pool.lemma_view_is_alive_handles();
    assert forall|h: Handle| #[trigger] pool@.contains_key(h) implies (left.remaining(&p).contains(h)
        || right.remaining(&p).contains(h)) by {
        p.lemma_wf_facts();
        assert(p.slot_alive(h.index as int));
    }
}

/// A collection of values, each named by the handle that `create` issued
/// for it. Freeing the handle takes the value out of the pool.
pub struct ObjectPool<T> {
    handles: HandlePool,
    values: Vec<Option<T>>,
}

impl<T> ObjectPool<T> {
    pub closed spec fn wf(&self) -> bool {
        &&& self.handles.wf()
        &&& self.values@.len() == self.handles.spec_len()
        &&& forall|i: int|
            0 <= i < self.values@.len() ==> (#[trigger] self.values@[i]).is_some()
                == self.handles.slot_alive(i)
    }

    /// The pool's handle allocator.
    pub closed spec fn spec_handles(&self) -> HandlePool {
        self.handles
    }

    /// The value named by each alive handle.
    pub closed spec fn view(&self) -> Map<Handle, T> {
        Map::new(
            |h: Handle| self.handles.spec_is_alive(h),
            |h: Handle| self.values@[h.index as int]->Some_0,
        )
    }

    /// Whether `create` can issue one more handle.
    pub open spec fn can_create(&self) -> bool {
        self.spec_handles().can_create()
    }

    /// The pool holds a value exactly under each alive handle of its
    /// allocator, so it holds as many values as the allocator counts alive
    /// handles.
    pub proof fn lemma_view_is_alive_handles(&self)
        requires
            self.wf(),
        ensures
            forall|h: Handle| #[trigger] self@.contains_key(h) <==> self.spec_handles().spec_is_alive(h),
            self@.dom() == self.spec_handles().alive_handles(),
            self@.dom().finite(),
            self@.dom().len() == self.spec_handles().spec_size(),
    {
        assert(self@.dom() =~= self.handles.alive_handles());
        self.handles.lemma_alive_handles();
    }

    /// Constructs a new, empty `ObjectPool`.
    pub fn new() -> (r: Self)
        ensures
            r.wf(),
            r@ == Map::<Handle, T>::empty(),
            r.spec_handles().spec_size() == 0,
            r.spec_handles().spec_len() == 0,
            r.spec_handles().spec_frees().len() == 0,
            r.can_create(),
    {
        let r = ObjectPool { handles: HandlePool::new(), values: Vec::new() };
        proof {
            r.handles.lemma_wf_facts();
        }
        assert(r@ =~= Map::<Handle, T>::empty());
        r
    }

    /// Constructs a new, empty `ObjectPool` with room for `capacity` values.
    pub fn with_capacity(capacity: usize) -> (r: Self)
        ensures
            r.wf(),
            r@ == Map::<Handle, T>::empty(),
            r.spec_handles().spec_size() == 0,
            r.spec_handles().spec_len() == 0,
            r.spec_handles().spec_frees().len() == 0,
            r.can_create(),
    {
        let r = ObjectPool {
            handles: HandlePool::with_capacity(capacity),
            values: Vec::with_capacity(capacity),
        };
        proof {
            r.handles.lemma_wf_facts();
        }
        assert(r@ =~= Map::<Handle, T>::empty());
        r
    }

    /// Stores `value` under a freshly issued handle.
    pub fn create(&mut self, value: T) -> (r: Handle)
        requires
            old(self).wf(),
            old(self).can_create(),
        ensures
            final(self).wf(),
            !old(self)@.contains_key(r),
            final(self)@ == old(self)@.insert(r, value),
            old(self).spec_handles().created(&final(self).spec_handles(), r),
    {
        proof {
            self.handles.lemma_wf_facts();
        }
        let handle = self.handles.create();
        let i = handle.index as usize;
        proof {
            self.handles.lemma_wf_facts();
        }
        if i >= self.values.len() {
            self.values.push(Some(value));
        } else {
            self.values.set(i, Some(value));
        }
        assert forall|j: int| 0 <= j < self.values@.len() implies (
        #[trigger] self.values@[j]).is_some() == self.handles.slot_alive(j) by {
            if j != i {
                assert(self.values@[j] == old(self).values@[j]);
            }
        }
        assert(self@ =~= old(self)@.insert(handle, value)) by {
            assert forall|h: Handle| #[trigger] self@.contains_key(h) implies h == handle
                || old(self)@.contains_key(h) by {
                if h.index != handle.index {
                    assert(old(self).handles.slot_alive(h.index as int));
                }
            }
            assert forall|h: Handle| old(self)@.contains_key(h) implies #[trigger] self@.contains_key(h)
                && self@[h] == old(self)@[h] by {
                assert(h.index != handle.index);
                assert(self.values@[h.index as int] == old(self).values@[h.index as int]);
            }
        }
        handle
    }

    /// Returns a mutable reference to the value named by `handle`.
    pub fn get_mut(&mut self, handle: &Handle) -> (r: Option<&mut T>)
        requires
            old(self).wf(),
        ensures
            final(self).wf(),
            final(self).spec_handles() == old(self).spec_handles(),
            match r {
                Some(v) => {
                    &&& old(self)@.contains_key(*handle)
                    &&& *v == old(self)@[*handle]
                    &&& final(self)@ == old(self)@.insert(*handle, *final(v))
                },
                None => !old(self)@.contains_key(*handle) && final(self)@ == old(self)@,
            },
    {
        proof {
            self.handles.lemma_wf_facts();
        }
        if self.handles.is_alive(handle) {
            let i = handle.index as usize;
            let slot = &mut self.values[i];
            let r = slot.as_mut();
            r
        } else {
            None
        }
    }

    /// Returns the value named by `handle`.
    pub fn get(&self, handle: &Handle) -> (r: Option<&T>)
        requires
            self.wf(),
        ensures
            match r {
                Some(v) => self@.contains_key(*handle) && *v == self@[*handle],
                None => !self@.contains_key(*handle),
            },
    {
        proof {
            self.handles.lemma_wf_facts();
        }
        if self.handles.is_alive(handle) {
            self.values[handle.index as usize].as_ref()
        } else {
            None
        }
    }

    /// Whether `handle` names a value of this pool.
    pub fn is_alive(&self, handle: &Handle) -> (r: bool)
        requires
            self.wf(),
        ensures
            r == self@.contains_key(*handle),
    {
        self.handles.is_alive(handle)
    }

    /// Takes out the value named by `handle` and frees the handle.
    pub fn free(&mut self, handle: &Handle) -> (r: Option<T>)
        requires
            old(self).wf(),
        ensures
            final(self).wf(),
            final(self)@ == old(self)@.remove(*handle),
            match r {
                Some(v) => old(self)@.contains_key(*handle) && v == old(self)@[*handle]
                    && old(self).spec_handles().freed(&final(self).spec_handles(), *handle),
                None => !old(self)@.contains_key(*handle) && *final(self) == *old(self),
            },
    {
        proof {
            self.handles.lemma_wf_facts();
        }
        if self.handles.free(handle) {
            let i = handle.index as usize;
            proof {
                self.handles.lemma_wf_facts();
            }
            let v = self.values[i].take();
            assert forall|j: int| 0 <= j < self.values@.len() implies (
            #[trigger] self.values@[j]).is_some() == self.handles.slot_alive(j) by {
                if j != i {
                    assert(self.values@[j] == old(self).values@[j]);
                }
            }
            assert(self@ =~= old(self)@.remove(*handle)) by {
                assert forall|h: Handle| old(self)@.contains_key(h) && h != *handle implies #[trigger] self@.contains_key(h)
                    && self@[h] == old(self)@[h] by {
                    assert(h.index != handle.index);
                    assert(self.values@[h.index as int] == old(self).values@[h.index as int]);
                }
            }
            v
        } else {
            assert(old(self)@.remove(*handle) =~= old(self)@);
            None
        }
    }

    /// Returns the number of values in the pool.
    pub fn len(&self) -> (r: usize)
        requires
            self.wf(),
        ensures
            r == self.spec_handles().spec_size(),
            r == self@.dom().len(),
    {
        proof {
            self.lemma_view_is_alive_handles();
        }
        self.handles.size()
    }

    /// Returns the pool's handle allocator, which `HandleIter::next` walks.
    pub fn handles(&self) -> (r: &HandlePool)
        requires
            self.wf(),
        ensures
            *r == self.spec_handles(),
            r.wf(),
    {
        &self.handles
    }

    /// Returns an iterator over the slots of the pool; walking it with
    /// `HandleIter::next` yields the alive handles in index order.
    pub fn iter(&self) -> (r: HandleIter)
        requires
            self.wf(),
        ensures
            r.start == 0,
            r.end == self.spec_handles().spec_len(),
            forall|h: Handle| #[trigger] r.remaining(&self.spec_handles()).contains(h) <==> self@.contains_key(h),
    {
        proof {
            self.handles.lemma_wf_facts();
            self.handles.lemma_live_where_members(0, self.handles.spec_len() as int, |i: int| true);
        }
        self.handles.iter()
    }
}

} // verus!
