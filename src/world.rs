use vstd::prelude::*;
use crate::arena::{Arena, ArenaKind};
use crate::bitset::{BitSet, CAPACITY};
use crate::handle::{Handle, HandleIndex};
use crate::handle_pool::{HandleIter, HandlePool};

verus! {

/// An entity is a handle issued by a `World`.
pub type Entity = Handle;

/// The sole owner of entities and of their components.
///
/// A component type is registered once and is named afterwards by the
/// identifier that `register` returned. Each entity carries a bitmask whose
/// bit `c` is set exactly when the entity holds a component of type `c`.
pub struct World<T> {
    entities: HandlePool,
    masks: Vec<BitSet>,
    arenas: Vec<Arena<T>>,
}

/// The values of the components present at slot `i`, in the order of their
/// type identifiers below `n`.
pub open spec fn present_values<T>(stores: Seq<Map<HandleIndex, T>>, i: HandleIndex, n: int) -> Seq<
    T,
>
    decreases n,
{
    if n <= 0 {
        Seq::empty()
    } else {
        let rest = present_values(stores, i, n - 1);
        if stores[n - 1].contains_key(i) {
            rest.push(stores[n - 1][i])
        } else {
            rest
        }
    }
}

impl<T> World<T> {
    pub closed spec fn wf(&self) -> bool {
        &&& self.entities.wf()
        &&& self.masks@.len() == self.entities.spec_len()
        &&& self.arenas@.len() <= CAPACITY
        &&& forall|i: int, c: int|
            0 <= i < self.masks@.len() ==> (#[trigger] self.masks@[i]@.contains(c) <==> (0 <= c
                < self.arenas@.len() && self.arenas@[c]@.contains_key(i as HandleIndex)))
        &&& forall|c: int, k: HandleIndex|
            0 <= c < self.arenas@.len() && #[trigger] self.arenas@[c]@.contains_key(k) ==> k
                < self.masks@.len() && self.entities.slot_alive(k as int)
    }

    /// The handle allocator behind the entities.
    pub closed spec fn spec_pool(&self) -> HandlePool {
        self.entities
    }

    /// The number of registered component types.
    pub closed spec fn kinds(&self) -> nat {
        self.arenas@.len()
    }

    /// The values of component type `c`, by entity index.
    pub closed spec fn store(&self, c: int) -> Map<HandleIndex, T> {
        self.arenas@[c]@
    }

    /// The stores of all registered component types.
    pub closed spec fn stores(&self) -> Seq<Map<HandleIndex, T>> {
        self.arenas@.map_values(|a: Arena<T>| a@)
    }

    /// The presence bitmask of slot `i`.
    pub closed spec fn spec_mask(&self, i: int) -> BitSet {
        self.masks@[i]
    }

    /// Whether `e` is an alive entity of this world.
    pub open spec fn spec_is_alive(&self, e: Entity) -> bool {
        self.spec_pool().spec_is_alive(e)
    }

    /// Whether the alive entity `e` holds a component of type `c`.
    pub open spec fn spec_has(&self, e: Entity, c: int) -> bool {
        &&& self.spec_is_alive(e)
        &&& 0 <= c < self.kinds()
        &&& self.store(c).contains_key(e.index)
    }

    /// The stores of all types but `c` are those of `other`.
    pub open spec fn stores_except(&self, other: &World<T>, c: int) -> bool {
        &&& self.kinds() == other.kinds()
        &&& forall|d: int| 0 <= d < self.kinds() && d != c ==> #[trigger] self.store(d) == other.store(d)
    }

    /// Whether `create` can issue one more entity.
    pub open spec fn can_create(&self) -> bool {
        self.spec_pool().can_create()
    }

    /// The bitmask of an issued slot records exactly the component types
    /// whose store holds the slot.
    pub proof fn lemma_mask_facts(&self, i: int, c: int)
        requires
            self.wf(),
            0 <= i < self.spec_pool().spec_len(),
        ensures
            self.spec_mask(i)@.contains(c) <==> (0 <= c < self.kinds() && self.store(c).contains_key(
                i as HandleIndex,
            )),
    {
    }

    proof fn lemma_stores(&self)
        ensures
            self.stores().len() == self.kinds(),
            forall|c: int| 0 <= c < self.kinds() ==> #[trigger] self.stores()[c] == self.store(c),
    {
    }

    /// Constructs a world with no entities and no component types.
    pub fn new() -> (r: Self)
        ensures
            r.wf(),
            r.kinds() == 0,
            r.spec_pool().spec_len() == 0,
            r.spec_pool().spec_size() == 0,
            r.spec_pool().spec_frees().len() == 0,
            r.can_create(),
    {
        let r = World { entities: HandlePool::new(), masks: Vec::new(), arenas: Vec::new() };
        proof {
            r.entities.lemma_wf_facts();
        }
        r
    }

    /// Registers a component type stored in the given layout and returns its
    /// identifier, the next one unused.
    pub fn register(&mut self, kind: ArenaKind) -> (r: usize)
        requires
            old(self).wf(),
            old(self).kinds() < CAPACITY,
        ensures
            final(self).wf(),
            r == old(self).kinds(),
            final(self).kinds() == old(self).kinds() + 1,
            final(self).store(r as int) == Map::<HandleIndex, T>::empty(),
            forall|c: int| 0 <= c < old(self).kinds() ==> #[trigger] final(self).store(c) == old(self).store(c),
            final(self).spec_pool() == old(self).spec_pool(),
    {
        let id = self.arenas.len();
        self.arenas.push(Arena::new(kind));
        assert forall|i: int, c: int| 0 <= i < self.masks@.len() implies (
        #[trigger] self.masks@[i]@.contains(c) <==> (0 <= c < self.arenas@.len()
            && self.arenas@[c]@.contains_key(i as HandleIndex))) by {
            assert(old(self).masks@[i]@.contains(c) <==> (0 <= c < old(self).arenas@.len()
                && old(self).arenas@[c]@.contains_key(i as HandleIndex)));
            if c == id {
                assert(!self.arenas@[c]@.contains_key(i as HandleIndex));
            }
        }
        assert forall|c: int, k: HandleIndex|
            0 <= c < self.arenas@.len() && #[trigger] self.arenas@[c]@.contains_key(k) implies k
                < self.masks@.len() && self.entities.slot_alive(k as int) by {
            if c < id {
                assert(self.arenas@[c] == old(self).arenas@[c]);
            }
        }
        id
    }

    /// Issues a new entity, which holds no component.
    pub fn create(&mut self) -> (r: Entity)
        requires
            old(self).wf(),
            old(self).can_create(),
        ensures
            final(self).wf(),
            old(self).spec_pool().created(&final(self).spec_pool(), r),
            final(self).kinds() == old(self).kinds(),
            forall|c: int| 0 <= c < old(self).kinds() ==> #[trigger] final(self).store(c) == old(self).store(c),
            forall|c: int| !final(self).spec_has(r, c),
    {
        proof {
            self.entities.lemma_wf_facts();
        }
        let e = self.entities.create();
        proof {
            self.entities.lemma_wf_facts();
        }
        if (e.index as usize) == self.masks.len() {
            self.masks.push(BitSet::new());
        }
        assert forall|i: int, c: int| 0 <= i < self.masks@.len() implies (
        #[trigger] self.masks@[i]@.contains(c) <==> (0 <= c < self.arenas@.len()
            && self.arenas@[c]@.contains_key(i as HandleIndex))) by {
            if i < old(self).masks@.len() {
                assert(old(self).masks@[i]@.contains(c) <==> (0 <= c < old(self).arenas@.len()
                    && old(self).arenas@[c]@.contains_key(i as HandleIndex)));
            } else {
                if 0 <= c < self.arenas@.len() && self.arenas@[c]@.contains_key(i as HandleIndex) {
                    assert(old(self).arenas@[c]@.contains_key(i as HandleIndex));
                }
            }
        }
        assert forall|c: int, k: HandleIndex|
            0 <= c < self.arenas@.len() && #[trigger] self.arenas@[c]@.contains_key(k) implies k
                < self.masks@.len() && self.entities.slot_alive(k as int) by {
            assert(old(self).entities.slot_alive(k as int));
        }
        assert forall|c: int| !self.spec_has(e, c) by {
            if 0 <= c < self.kinds() && self.store(c).contains_key(e.index) {
                assert(old(self).entities.slot_alive(e.index as int));
            }
        }
        e
    }

    /// Whether `e` is an alive entity of this world.
    pub fn is_alive(&self, e: Entity) -> (r: bool)
        requires
            self.wf(),
        ensures
            r == self.spec_is_alive(e),
    {
        self.entities.is_alive(&e)
    }

    /// Returns the number of alive entities.
    pub fn size(&self) -> (r: usize)
        requires
            self.wf(),
        ensures
            r == self.spec_pool().spec_size(),
    {
        self.entities.size()
    }

    /// Frees `e` and hands back the components it held, in the order of their
    /// type identifiers; dropping the result drops each of them once. Freeing
    /// an entity that is not alive changes nothing and hands back nothing.
    pub fn free(&mut self, e: Entity) -> (r: Vec<T>)
        requires
            old(self).wf(),
        ensures
            final(self).wf(),
            !final(self).spec_is_alive(e),
            !old(self).spec_is_alive(e) ==> *final(self) == *old(self) && r@.len() == 0,
            old(self).spec_is_alive(e) ==> {
                &&& r@ == present_values(old(self).stores(), e.index, old(self).kinds() as int)
                &&& final(self).kinds() == old(self).kinds()
                &&& forall|c: int|
                    0 <= c < old(self).kinds() ==> #[trigger] final(self).store(c) == old(
                        self,
                    ).store(c).remove(e.index)
                &&& old(self).spec_pool().freed(&final(self).spec_pool(), e)
            },
    {
        let mut removed: Vec<T> = Vec::new();
        if !self.entities.is_alive(&e) {
            return removed;
        }
        proof {
            self.entities.lemma_wf_facts();
            old(self).lemma_stores();
        }
        let i = e.index as usize;
        let n = self.arenas.len();
        let mut c: usize = 0;
        while c < n
            invariant
                0 <= c <= n,
                n == self.arenas@.len(),
                n == old(self).arenas@.len(),
                i == e.index,
                i < self.masks@.len(),
                self.entities == old(self).entities,
                self.masks == old(self).masks,
                old(self).wf(),
                old(self).stores().len() == n,
                forall|d: int| 0 <= d < n ==> #[trigger] old(self).stores()[d] == old(self).store(d),
                forall|d: int|
                    0 <= d < c ==> #[trigger] self.arenas@[d]@ == old(self).arenas@[d]@.remove(
                        e.index,
                    ),
                forall|d: int| c <= d < n ==> #[trigger] self.arenas@[d]@ == old(self).arenas@[d]@,
                removed@ == present_values(old(self).stores(), e.index, c as int),
            decreases n - c,
        {
            if self.masks[i].contains(c) {
                let v = self.arenas[c].remove(e.index);
                removed.push(v.unwrap());
            } else {
                let ghost cc = c as int;
                assert(!old(self).arenas@[cc]@.contains_key(e.index));
                assert(old(self).arenas@[cc]@.remove(e.index) =~= old(self).arenas@[cc]@);
            }
            c = c + 1;
        }
        self.masks.set(i, BitSet::new());
        let freed = self.entities.free(&e);
        proof {
            self.entities.lemma_wf_facts();
        }
        assert forall|j: int, d: int| 0 <= j < self.masks@.len() implies (
        #[trigger] self.masks@[j]@.contains(d) <==> (0 <= d < self.arenas@.len()
            && self.arenas@[d]@.contains_key(j as HandleIndex))) by {
            if j != i {
                assert(old(self).masks@[j]@.contains(d) <==> (0 <= d < old(self).arenas@.len()
                    && old(self).arenas@[d]@.contains_key(j as HandleIndex)));
            }
        }
        assert forall|d: int, k: HandleIndex|
            0 <= d < self.arenas@.len() && #[trigger] self.arenas@[d]@.contains_key(k) implies k
                < self.masks@.len() && self.entities.slot_alive(k as int) by {
            assert(old(self).arenas@[d]@.contains_key(k));
        }
        removed
    }

    /// Attaches `value` as the component of type `c` of the alive entity `e`
    /// and returns the component it replaces.
    pub fn assign(&mut self, e: Entity, c: usize, value: T) -> (r: Option<T>)
        requires
            old(self).wf(),
            c < old(self).kinds(),
            old(self).spec_is_alive(e),
        ensures
            final(self).wf(),
            r.is_some() == old(self).store(c as int).contains_key(e.index),
            r.is_some() ==> r.unwrap() == old(self).store(c as int)[e.index],
            final(self).store(c as int) == old(self).store(c as int).insert(e.index, value),
            final(self).stores_except(&*old(self), c as int),
            final(self).spec_pool() == old(self).spec_pool(),
    {
        proof {
            self.entities.lemma_wf_facts();
        }
        let i = e.index as usize;
        let mut mask = self.masks[i];
        mask.insert(c);
        self.masks.set(i, mask);
        let previous = self.arenas[c].insert(e.index, value);
        assert forall|j: int, d: int| 0 <= j < self.masks@.len() implies (
        #[trigger] self.masks@[j]@.contains(d) <==> (0 <= d < self.arenas@.len()
            && self.arenas@[d]@.contains_key(j as HandleIndex))) by {
            assert(old(self).masks@[j]@.contains(d) <==> (0 <= d < old(self).arenas@.len()
                && old(self).arenas@[d]@.contains_key(j as HandleIndex)));
        }
        assert forall|d: int, k: HandleIndex|
            0 <= d < self.arenas@.len() && #[trigger] self.arenas@[d]@.contains_key(k) implies k
                < self.masks@.len() && self.entities.slot_alive(k as int) by {
            if d != c || k != e.index {
                assert(old(self).arenas@[d]@.contains_key(k));
            }
        }
        previous
    }

    /// Detaches and returns the component of type `c` of `e`; an entity
    /// that is not alive holds nothing and nothing changes.
    pub fn remove(&mut self, e: Entity, c: usize) -> (r: Option<T>)
        requires
            old(self).wf(),
            c < old(self).kinds(),
        ensures
            final(self).wf(),
            r.is_some() == old(self).spec_has(e, c as int),
            r.is_some() ==> r.unwrap() == old(self).store(c as int)[e.index],
            old(self).spec_is_alive(e) ==> final(self).store(c as int) == old(self).store(
                c as int,
            ).remove(e.index),
            !old(self).spec_is_alive(e) ==> final(self).store(c as int) == old(self).store(
                c as int,
            ),
            final(self).stores_except(&*old(self), c as int),
            final(self).spec_pool() == old(self).spec_pool(),
    {
        if !self.entities.is_alive(&e) {
            return None;
        }
        proof {
            self.entities.lemma_wf_facts();
        }
        let i = e.index as usize;
        let mut mask = self.masks[i];
        mask.remove(c);
        self.masks.set(i, mask);
        let previous = self.arenas[c].remove(e.index);
        assert forall|j: int, d: int| 0 <= j < self.masks@.len() implies (
        #[trigger] self.masks@[j]@.contains(d) <==> (0 <= d < self.arenas@.len()
            && self.arenas@[d]@.contains_key(j as HandleIndex))) by {
            assert(old(self).masks@[j]@.contains(d) <==> (0 <= d < old(self).arenas@.len()
                && old(self).arenas@[d]@.contains_key(j as HandleIndex)));
        }
        assert forall|d: int, k: HandleIndex|
            0 <= d < self.arenas@.len() && #[trigger] self.arenas@[d]@.contains_key(k) implies k
                < self.masks@.len() && self.entities.slot_alive(k as int) by {
            assert(old(self).arenas@[d]@.contains_key(k));
        }
        previous
    }

    /// Whether `e` is alive and holds a component of type `c`.
    pub fn has(&self, e: Entity, c: usize) -> (r: bool)
        requires
            self.wf(),
            c < self.kinds(),
        ensures
            r == self.spec_has(e, c as int),
    {
        if !self.entities.is_alive(&e) {
            return false;
        }
        proof {
            self.entities.lemma_wf_facts();
        }
        self.masks[e.index as usize].contains(c)
    }

    /// Returns the component of type `c` of `e`, if `e` is alive and holds
    /// one.
    pub fn fetch(&self, e: Entity, c: usize) -> (r: Option<&T>)
        requires
            self.wf(),
            c < self.kinds(),
        ensures
            r.is_some() == self.spec_has(e, c as int),
            r.is_some() ==> *r.unwrap() == self.store(c as int)[e.index],
    {
        if !self.entities.is_alive(&e) {
            return None;
        }
        self.arenas[c].get(e.index)
    }

    /// Returns a mutable reference to the component of type `c` of `e`, if
    /// `e` is alive and holds one.
    pub fn fetch_mut(&mut self, e: Entity, c: usize) -> (r: Option<&mut T>)
        requires
            old(self).wf(),
            c < old(self).kinds(),
        ensures
            final(self).wf(),
            r.is_some() == old(self).spec_has(e, c as int),
            r.is_some() ==> *r.unwrap() == old(self).store(c as int)[e.index] && final(self).store(
                c as int,
            ) == old(self).store(c as int).insert(e.index, *final(r.unwrap())),
            r.is_none() ==> final(self).store(c as int) == old(self).store(c as int),
            final(self).stores_except(&*old(self), c as int),
            final(self).spec_pool() == old(self).spec_pool(),
    {
        if !self.entities.is_alive(&e) {
            return None;
        }
        self.arenas[c].get_mut(e.index)
    }

    /// The slots whose bitmask holds every member of `query`.
    pub open spec fn matches(&self, query: BitSet) -> spec_fn(int) -> bool {
        |i: int| self.spec_mask(i).spec_superset_of(query)
    }

    /// Builds a view over the alive entities that hold a component of each of
    /// the given types.
    pub fn view_with(&self, types: &[usize]) -> (r: EntityView)
        requires
            self.wf(),
            forall|k: int| 0 <= k < types@.len() ==> #[trigger] types@[k] < self.kinds(),
        ensures
            r.wf(),
            forall|c: int| #[trigger] r.spec_query()@.contains(c) <==> exists|k: int|
                0 <= k < types@.len() && types@[k] == c,
            r.spec_start() == 0,
            r.spec_end() == self.spec_pool().spec_len(),
    {
        let mut mask = BitSet::new();
        let mut k: usize = 0;
        while k < types.len()
            invariant
                0 <= k <= types@.len(),
                self.kinds() <= CAPACITY,
                forall|j: int| 0 <= j < types@.len() ==> #[trigger] types@[j] < self.kinds(),
                forall|c: int| #[trigger] mask@.contains(c) <==> exists|j: int|
                    0 <= j < k && types@[j] == c,
            decreases types@.len() - k,
        {
            let ghost before = mask@;
            mask.insert(types[k]);
            assert forall|c: int| #[trigger] mask@.contains(c) <==> exists|j: int|
                0 <= j < k + 1 && types@[j] == c by {
                if c == types@[k as int] {
                    assert(types@[k as int] == c);
                } else if mask@.contains(c) {
                    assert(before.contains(c));
                    let j = choose|j: int| 0 <= j < k && types@[j] == c;
                    assert(0 <= j < k + 1 && types@[j] == c);
                }
            }
            k = k + 1;
        }
        EntityView { mask, slots: self.entities.iter() }
    }

    /// Starts building a new entity, which holds no component yet.
    pub fn build(&mut self) -> (r: EntityBuilder)
        requires
            old(self).wf(),
            old(self).can_create(),
        ensures
            final(self).wf(),
            old(self).spec_pool().created(&final(self).spec_pool(), r.spec_entity()),
            final(self).kinds() == old(self).kinds(),
            forall|c: int| !final(self).spec_has(r.spec_entity(), c),
            forall|c: int| 0 <= c < old(self).kinds() ==> #[trigger] final(self).store(c) == old(self).store(c),
    {
        EntityBuilder { entity: self.create() }
    }
}

/// An entity under construction: components are attached one by one, and
/// `finish` hands out the entity.
pub struct EntityBuilder {
    entity: Entity,
}

impl EntityBuilder {
    /// The entity being built.
    pub closed spec fn spec_entity(&self) -> Entity {
        self.entity
    }

    /// Attaches `value` as the component of type `c` of the entity.
    pub fn with<T>(self, world: &mut World<T>, c: usize, value: T) -> (r: EntityBuilder)
        requires
            old(world).wf(),
            c < old(world).kinds(),
            old(world).spec_is_alive(self.spec_entity()),
        ensures
            r.spec_entity() == self.spec_entity(),
            final(world).wf(),
            final(world).store(c as int) == old(world).store(c as int).insert(
                self.spec_entity().index,
                value,
            ),
            final(world).stores_except(&*old(world), c as int),
            final(world).spec_pool() == old(world).spec_pool(),
    {
        world.assign(self.entity, c, value);
        self
    }

    /// Hands out the built entity.
    pub fn finish(self) -> (r: Entity)
        ensures
            r == self.spec_entity(),
    {
        self.entity
    }
}

/// The alive entities of a slot range whose bitmask holds every type of a
/// query, walked in index order. A view can be split into two views over
/// disjoint slot ranges, which together yield what the whole would.
#[derive(Debug, Clone, Copy)]
pub struct EntityView {
    mask: BitSet,
    slots: HandleIter,
}

impl EntityView {
    /// The component types an entity must hold to be yielded.
    pub closed spec fn spec_query(&self) -> BitSet {
        self.mask
    }

    /// The first slot not yet examined.
    pub closed spec fn spec_start(&self) -> int {
        self.slots.start as int
    }

    /// The end of the slot range.
    pub closed spec fn spec_end(&self) -> int {
        self.slots.end as int
    }

    pub open spec fn wf(&self) -> bool {
        self.spec_start() <= self.spec_end()
    }

    /// The entities of `world` that this view has yet to yield.
    pub open spec fn remaining<T>(&self, world: &World<T>) -> Seq<Entity> {
        world.spec_pool().live_where(self.spec_start(), self.spec_end(), world.matches(self.spec_query()))
    }

    /// Yields the next matching entity, in index order.
    pub fn next<T>(&mut self, world: &World<T>) -> (r: Option<Entity>)
        requires
            world.wf(),
            old(self).wf(),
        ensures
            final(self).wf(),
            final(self).spec_query() == old(self).spec_query(),
            final(self).spec_end() == old(self).spec_end(),
            old(self).remaining(world).len() == 0 ==> r.is_none() && final(self).remaining(
                world,
            ).len() == 0,
            old(self).remaining(world).len() > 0 ==> r == Some(old(self).remaining(world)[0])
                && final(self).remaining(world) == old(self).remaining(world).drop_first(),
    {
        let len = world.entities.len();
        proof {
            world.entities.lemma_wf_facts();
        }
        while self.slots.start < self.slots.end && self.slots.start < len
            invariant
                world.wf(),
                len == world.spec_pool().spec_len(),
                len <= HandleIndex::MAX,
                self.wf(),
                self.mask == old(self).mask,
                self.slots.end == old(self).slots.end,
                self.remaining(world) == old(self).remaining(world),
            decreases self.slots.end - self.slots.start,
        {
            let i = self.slots.start;
            let h = Handle::new(i as HandleIndex, world.entities.version_at(i));
            self.slots.start = i + 1;
            if world.entities.is_alive(&h) && world.masks[i].is_superset(&self.mask) {
                return Some(h);
            }
        }
        proof {
            if self.slots.start < self.slots.end {
                world.spec_pool().lemma_live_where_beyond(
                    self.spec_start(),
                    self.spec_end(),
                    world.matches(self.spec_query()),
                );
            }
        }
        None
    }

    /// Collects every entity this view has yet to yield, in index order.
    pub fn entities<T>(&self, world: &World<T>) -> (r: Vec<Entity>)
        requires
            world.wf(),
            self.wf(),
        ensures
            r@ == self.remaining(world),
    {
        let mut out: Vec<Entity> = Vec::new();
        let mut rest = *self;
        loop
            invariant
                world.wf(),
                rest.wf(),
                out@ + rest.remaining(world) == self.remaining(world),
            decreases rest.remaining(world).len(),
        {
            let ghost before = rest.remaining(world);
            match rest.next(world) {
                Some(e) => {
                    assert(out@.push(e) + rest.remaining(world) =~= out@ + before);
                    out.push(e);
                },
                None => {
                    assert(out@ + rest.remaining(world) =~= out@);
                    return out;
                },
            }
        }
    }

    /// Returns the number of slots this view has yet to examine.
    pub fn slot_count(&self) -> (r: usize)
        requires
            self.wf(),
        ensures
            r == self.spec_end() - self.spec_start(),
    {
        self.slots.end - self.slots.start
    }

    /// Divides the remaining slot range at its midpoint.
    pub fn split(&self) -> (r: (EntityView, EntityView))
        requires
            self.wf(),
        ensures
            r.0.wf(),
            r.1.wf(),
            r.0.spec_query() == self.spec_query(),
            r.1.spec_query() == self.spec_query(),
            r.0.spec_start() == self.spec_start(),
            r.1.spec_end() == self.spec_end(),
            r.0.spec_end() == r.1.spec_start(),
            r.0.spec_end() - self.spec_start() == (self.spec_end() - self.spec_start()) / 2,
    {
        let (lhs, rhs) = self.slots.split();
        (EntityView { mask: self.mask, slots: lhs }, EntityView { mask: self.mask, slots: rhs })
    }

    /// Divides the remaining slot range into its first `len` slots and the
    /// rest.
    pub fn split_with(&self, len: usize) -> (r: (EntityView, EntityView))
        requires
            self.wf(),
        ensures
            r.0.wf(),
            r.1.wf(),
            r.0.spec_query() == self.spec_query(),
            r.1.spec_query() == self.spec_query(),
            r.0.spec_start() == self.spec_start(),
            r.1.spec_end() == self.spec_end(),
            r.0.spec_end() == r.1.spec_start(),
            r.0.spec_end() == (if len >= self.spec_end() - self.spec_start() {
                self.spec_end()
            } else {
                self.spec_start() + len
            }),
    {
        let (lhs, rhs) = self.slots.split_with(len);
        (EntityView { mask: self.mask, slots: lhs }, EntityView { mask: self.mask, slots: rhs })
    }
}

/// What `assign` stores, `fetch` returns: after `assign(e, c, v)` the entity
/// holds `v`; a second `assign(e, c, v2)` hands back `v` and afterwards the
/// entity holds `v2`.
pub proof fn lemma_assign_then_fetch<T>(
    w0: World<T>,
    w1: World<T>,
    w2: World<T>,
    e: Entity,
    c: int,
    v: T,
    v2: T,
)
    requires
        w0.wf(),
        0 <= c < w0.kinds(),
        w0.spec_is_alive(e),
        w1.store(c) == w0.store(c).insert(e.index, v),
        w1.stores_except(&w0, c),
        w1.spec_pool() == w0.spec_pool(),
        w2.store(c) == w1.store(c).insert(e.index, v2),
        w2.stores_except(&w1, c),
        w2.spec_pool() == w1.spec_pool(),
    ensures
        w1.spec_has(e, c),
        w1.store(c)[e.index] == v,
        w1.store(c).contains_key(e.index),
        w2.spec_has(e, c),
        w2.store(c)[e.index] == v2,
{
}

/// A view yields exactly the alive entities of its slot range that hold a
/// component of every queried type, in increasing index order, which is the
/// order in which the allocator walks its live handles.
pub proof fn lemma_view_members<T>(world: &World<T>, view: EntityView)
    requires
        world.wf(),
        view.wf(),
        0 <= view.spec_start(),
        view.spec_end() <= world.spec_pool().spec_len(),
    ensures
        forall|h: Entity|
            #[trigger] view.remaining(world).contains(h) <==> {
                &&& view.spec_start() <= h.index < view.spec_end()
                &&& world.spec_is_alive(h)
                &&& forall|c: int| view.spec_query()@.contains(c) ==> world.spec_has(h, c)
            },
        forall|a: int, b: int|
            0 <= a < b < view.remaining(world).len() ==> (#[trigger] view.remaining(world)[a]).index
                < (#[trigger] view.remaining(world)[b]).index,
{
    let keep = world.matches(view.spec_query());
    world.spec_pool().lemma_live_where_members(view.spec_start(), view.spec_end(), keep);
    assert forall|h: Entity| #[trigger] view.remaining(world).contains(h) <==> {
        &&& view.spec_start() <= h.index < view.spec_end()
        &&& world.spec_is_alive(h)
        &&& forall|c: int| view.spec_query()@.contains(c) ==> world.spec_has(h, c)
    } by {
        if world.spec_is_alive(h) && view.spec_start() <= h.index < view.spec_end() {
            let i = h.index as int;
            assert(keep(i) == world.spec_mask(i).spec_superset_of(view.spec_query()));
            assert(keep(i) <==> forall|c: int|
                view.spec_query()@.contains(c) ==> world.spec_has(h, c)) by {
                assert forall|c: int| #[trigger] world.spec_mask(i)@.contains(c) <==> (0 <= c
                    < world.kinds() && world.store(c).contains_key(h.index)) by {
                    world.lemma_mask_facts(i, c);
                }
            }
        }
    }
}

/// Splitting a view loses and repeats nothing: the two halves cover
/// disjoint slot ranges, and exhausting the left half and then the right one
/// yields the entities of the whole view in the same order, hence the same
/// set of entities.
pub proof fn lemma_split_covers<T>(
    world: &World<T>,
    whole: EntityView,
    left: EntityView,
    right: EntityView,
)
    requires
        world.wf(),
        whole.wf(),
        left.wf(),
        right.wf(),
        0 <= whole.spec_start(),
        left.spec_query() == whole.spec_query(),
        right.spec_query() == whole.spec_query(),
        left.spec_start() == whole.spec_start(),
        left.spec_end() == right.spec_start(),
        right.spec_end() == whole.spec_end(),
    ensures
        whole.remaining(world) == left.remaining(world) + right.remaining(world),
        forall|h: Entity|
            #[trigger] whole.remaining(world).contains(h) <==> (left.remaining(world).contains(h)
                || right.remaining(world).contains(h)),
        forall|h: Entity|
            !(#[trigger] left.remaining(world).contains(h) && right.remaining(world).contains(h)),
{
    let keep = world.matches(whole.spec_query());
    world.spec_pool().lemma_live_where_split(
        whole.spec_start(),
        left.spec_end(),
        whole.spec_end(),
        keep,
    );
    let l = left.remaining(world);
    let r = right.remaining(world);
    assert forall|h: Entity| #[trigger] whole.remaining(world).contains(h) <==> (l.contains(h)
        || r.contains(h)) by {
        if l.contains(h) {
            let k = choose|k: int| 0 <= k < l.len() && l[k] == h;
            assert((l + r)[k] == h);
        }
        if r.contains(h) {
            let k = choose|k: int| 0 <= k < r.len() && r[k] == h;
            assert((l + r)[l.len() + k] == h);
        }
        if (l + r).contains(h) {
            let k = choose|k: int| 0 <= k < (l + r).len() && (l + r)[k] == h;
            if k < l.len() {
                assert(l[k] == h);
            } else {
                assert(r[k - l.len()] == h);
            }
        }
    }
    assert forall|h: Entity| !(#[trigger] l.contains(h) && r.contains(h)) by {
        if l.contains(h) && r.contains(h) {
            lemma_walk_range(world, left, h);
            lemma_walk_range(world, right, h);
        }
    }
}

/// Every entity a view has yet to yield lies in its slot range.
proof fn lemma_walk_range<T>(world: &World<T>, view: EntityView, h: Entity)
    requires
        world.wf(),
        0 <= view.spec_start(),
        view.remaining(world).contains(h),
    ensures
        view.spec_start() <= h.index < view.spec_end(),
{
    world.spec_pool().lemma_live_where_range(
        view.spec_start(),
        view.spec_end(),
        world.matches(view.spec_query()),
        h,
    );
}

} // verus!
