use std::collections::HashSet;
use std::sync::{Arc, RwLock};

use crayon::arena::ArenaKind;
use crayon::world::{Entity, World};

#[derive(Debug, Clone, Default, PartialEq, Eq)]
struct Position {
    x: u32,
    y: u32,
}

#[derive(Debug, Clone, Default)]
struct Reference {
    value: Arc<RwLock<usize>>,
}

impl Drop for Reference {
    fn drop(&mut self) {
        *self.value.write().unwrap() += 1;
    }
}

#[derive(Debug)]
enum Comp {
    Position(Position),
    Reference(Reference),
}

fn position(c: Option<&Comp>) -> Option<&Position> {
    match c {
        Some(Comp::Position(p)) => Some(p),
        _ => None,
    }
}

fn position_mut(c: Option<&mut Comp>) -> Option<&mut Position> {
    match c {
        Some(Comp::Position(p)) => Some(p),
        _ => None,
    }
}

fn reference(c: Option<&Comp>) -> Option<&Reference> {
    match c {
        Some(Comp::Reference(r)) => Some(r),
        _ => None,
    }
}

fn reference_mut(c: Option<&mut Comp>) -> Option<&mut Reference> {
    match c {
        Some(Comp::Reference(r)) => Some(r),
        _ => None,
    }
}

#[test]
fn mod_basic() {
    let mut world: World<Comp> = World::new();
    let pos = world.register(ArenaKind::Dense);

    let e1 = world.create();
    world.assign(e1, pos, Comp::Position(Position { x: 1, y: 2 }));
    assert!(world.has(e1, pos));

    {
        let p = position(world.fetch(e1, pos)).unwrap();
        assert_eq!(*p, Position { x: 1, y: 2 });
    }

    {
        let p = position_mut(world.fetch_mut(e1, pos)).unwrap();
        p.x = 2;
        p.y = 5;
    }

    {
        let p = position(world.fetch(e1, pos)).unwrap();
        assert_eq!(*p, Position { x: 2, y: 5 });
    }

    world.remove(e1, pos);
    assert!(!world.has(e1, pos));
    assert!(world.fetch(e1, pos).is_none());
}

#[test]
fn free() {
    let mut world: World<Comp> = World::new();
    let pos = world.register(ArenaKind::Dense);
    let refc = world.register(ArenaKind::Sparse);

    let e1 = world.create();
    assert!(world.is_alive(e1));
    assert!(!world.has(e1, pos));
    assert!(world.fetch(e1, pos).is_none());

    world.assign(e1, pos, Comp::Position(Position { x: 1, y: 2 }));
    assert!(world.has(e1, pos));
    position(world.fetch(e1, pos)).unwrap();

    world.free(e1);
    assert!(!world.is_alive(e1));
    assert!(!world.has(e1, pos));
    assert!(world.fetch(e1, pos).is_none());

    let mut entities = Vec::new();
    let rc = Arc::new(RwLock::new(0));
    for i in 0..10 {
        let e = world.create();
        let shadow = rc.clone();
        entities.push(e);

        world.assign(e, refc, Comp::Reference(Reference { value: shadow }));
        if i % 2 == 0 {
            world.assign(e, pos, Comp::Position(Position { x: 1, y: 2 }));
        }
    }

    assert_eq!(*rc.read().unwrap(), 0);
    for i in 0..10 {
        world.free(entities[i]);
        assert_eq!(*rc.read().unwrap(), i + 1);
    }
    assert_eq!(*rc.read().unwrap(), 10);
}

#[test]
fn duplicated_assign() {
    let mut world: World<Comp> = World::new();
    let pos = world.register(ArenaKind::Dense);

    let e1 = world.create();
    assert!(world.assign(e1, pos, Comp::Position(Position { x: 1, y: 2 })).is_none());
    let previous = world.assign(e1, pos, Comp::Position(Position { x: 2, y: 4 }));
    assert_eq!(position(previous.as_ref()), Some(&Position { x: 1, y: 2 }));

    assert!(*position(world.fetch(e1, pos)).unwrap() == Position { x: 2, y: 4 })
}

#[test]
fn iter_with() {
    let mut world: World<Comp> = World::new();
    let pos = world.register(ArenaKind::Dense);
    let refc = world.register(ArenaKind::Sparse);

    let mut v = vec![];
    for i in 0..100 {
        let e = world.create();

        if i % 2 == 0 {
            world.assign(e, pos, Comp::Position(Position { x: e.index(), y: e.version() }));
        }

        if i % 3 == 0 {
            world.assign(e, refc, Comp::Reference(Reference::default()));
        }

        if i % 2 == 0 && i % 3 == 0 {
            v.push(e);
        }
    }

    {
        let view = world.view_with(&[pos, refc]);
        for e in view.entities(&world) {
            let p = Position { x: e.index(), y: e.version() };

            assert_eq!(*position(world.fetch(e, pos)).unwrap(), p);
        }
    }

    {
        let view = world.view_with(&[pos, refc]);
        for e in view.entities(&world) {
            position_mut(world.fetch_mut(e, pos)).unwrap().x += e.version();
            *reference_mut(world.fetch_mut(e, refc)).unwrap().value.write().unwrap() += 1;
        }
    }

    {
        let mut view = world.view_with(&[pos, refc]);
        for e in &v {
            let i = view.next(&world).unwrap();
            let p = Position { x: e.index() + e.version(), y: e.version() };

            assert_eq!(i, *e);
            assert_eq!(*position(world.fetch(*e, pos)).unwrap(), p);
            assert_eq!(*reference(world.fetch(*e, refc)).unwrap().value.read().unwrap(), 1);
        }
    }
}

#[test]
fn builder() {
    let mut world: World<Comp> = World::new();
    let pos = world.register(ArenaKind::Dense);
    let refc = world.register(ArenaKind::Sparse);

    let b = world.build();
    let e1 = b.with(&mut world, pos, Comp::Position(Position::default())).finish();
    assert!(world.has(e1, pos));
    assert!(!world.has(e1, refc));
}

#[test]
fn freed_entity_is_dead_and_its_index_comes_back_new() {
    let mut world: World<Comp> = World::new();
    let h1 = world.create();
    let _other = world.create();
    let removed = world.free(h1);
    assert!(removed.is_empty());
    assert!(!world.is_alive(h1));
    assert_eq!(world.size(), 1);

    let h2 = world.create();
    assert_eq!(h2.index(), h1.index());
    assert_ne!(h2, h1);
    assert!(world.is_alive(h2));
    assert!(!world.is_alive(h1));

    // Freeing a dead handle changes nothing.
    assert!(world.free(h1).is_empty());
    assert!(world.is_alive(h2));
    assert_eq!(world.size(), 2);
}

#[test]
fn assign_twice_returns_previous_then_fetch_sees_new() {
    let mut world: World<Comp> = World::new();
    let refc = world.register(ArenaKind::Sparse);
    let pos = world.register(ArenaKind::Sparse);
    let e = world.create();
    assert!(world.assign(e, pos, Comp::Position(Position { x: 7, y: 8 })).is_none());
    assert_eq!(position(world.fetch(e, pos)), Some(&Position { x: 7, y: 8 }));
    let previous = world.assign(e, pos, Comp::Position(Position { x: 9, y: 10 }));
    assert_eq!(position(previous.as_ref()), Some(&Position { x: 7, y: 8 }));
    assert_eq!(position(world.fetch(e, pos)), Some(&Position { x: 9, y: 10 }));
    assert!(!world.has(e, refc));
    assert_eq!(position(world.remove(e, pos).as_ref()), Some(&Position { x: 9, y: 10 }));
    assert!(world.remove(e, pos).is_none());
}

#[test]
fn free_hands_back_components_in_type_order() {
    let mut world: World<Comp> = World::new();
    let refc = world.register(ArenaKind::Sparse);
    let pos = world.register(ArenaKind::Dense);
    let rc = Arc::new(RwLock::new(0));
    let e = world.create();
    world.assign(e, pos, Comp::Position(Position { x: 3, y: 4 }));
    world.assign(e, refc, Comp::Reference(Reference { value: rc.clone() }));

    let removed = world.free(e);
    assert_eq!(removed.len(), 2);
    assert!(matches!(removed[0], Comp::Reference(_)));
    assert_eq!(position(removed.get(1)), Some(&Position { x: 3, y: 4 }));
    assert_eq!(*rc.read().unwrap(), 0);
    drop(removed);
    assert_eq!(*rc.read().unwrap(), 1);
    assert!(!world.has(e, pos));
}

#[test]
fn view_of_unassigned_type_is_empty() {
    let mut world: World<Comp> = World::new();
    let a = world.register(ArenaKind::Dense);
    let _e1 = world.create();
    let _e2 = world.create();
    let mut view = world.view_with(&[a]);
    assert!(view.entities(&world).is_empty());
    assert_eq!(view.next(&world), None);
}

#[test]
fn view_selects_superset_masks_in_handle_order() {
    let mut world: World<Comp> = World::new();
    let a = world.register(ArenaKind::Dense);
    let b = world.register(ArenaKind::Sparse);
    let mut expected = Vec::new();
    for i in 0..12u32 {
        let e = world.create();
        if i % 2 == 0 {
            world.assign(e, a, Comp::Position(Position { x: i, y: 0 }));
        }
        if i % 4 == 0 {
            world.assign(e, b, Comp::Position(Position { x: i, y: 1 }));
        }
        if i % 4 == 0 {
            expected.push(e);
        }
    }
    world.free(expected[1]);
    expected.remove(1);
    let both = world.view_with(&[a, b]).entities(&world);
    assert_eq!(both, expected);
    assert_eq!(world.view_with(&[a]).entities(&world).len(), 5);
    assert_eq!(world.view_with(&[]).entities(&world).len(), 11);
}

#[test]
fn split_view_halves_cover_the_whole() {
    let mut world: World<Comp> = World::new();
    let a = world.register(ArenaKind::Dense);
    let b = world.register(ArenaKind::Sparse);
    for i in 0..100u32 {
        let e: Entity = world.create();
        world.assign(e, a, Comp::Position(Position { x: i, y: i }));
        world.assign(e, b, Comp::Position(Position { x: i, y: 0 }));
    }
    let view = world.view_with(&[a, b]);
    let whole = view.entities(&world);
    assert_eq!(whole.len(), 100);

    let (left, right) = view.split();
    let l = left.entities(&world);
    let r = right.entities(&world);
    assert_eq!(l.len(), 50);
    assert_eq!(r.len(), 50);
    let union: HashSet<Entity> = l.iter().chain(r.iter()).cloned().collect();
    let all: HashSet<Entity> = whole.iter().cloned().collect();
    assert_eq!(union, all);
    assert!(l.iter().all(|e| !r.contains(e)));

    let (first, rest) = view.split_with(30);
    assert_eq!(first.entities(&world).len(), 30);
    assert_eq!(rest.entities(&world).len(), 70);
    let (ll, lr) = left.split();
    assert_eq!(ll.entities(&world).len() + lr.entities(&world).len(), 50);
}

/// A fixed xorshift sequence standing in for a seeded random generator.
struct XorShift {
    x: u32,
    y: u32,
    z: u32,
    w: u32,
}

impl XorShift {
    fn from_seed(seed: [u32; 4]) -> Self {
        XorShift { x: seed[0] | 1, y: seed[1], z: seed[2], w: seed[3] }
    }

    fn next_u32(&mut self) -> u32 {
        let t = self.x ^ (self.x << 11);
        self.x = self.y;
        self.y = self.z;
        self.z = self.w;
        self.w = self.w ^ (self.w >> 19) ^ (t ^ (t >> 8));
        self.w
    }
}

#[test]
fn random_allocate() {
    let mut generator = XorShift::from_seed([0, 1, 2, 3]);
    let mut world: World<Comp> = World::new();
    let pos = world.register(ArenaKind::Dense);
    let refc = world.register(ArenaKind::Sparse);

    let mut v = vec![];
    for i in 3..10 {
        let p = generator.next_u32() % i + 1;
        let r = generator.next_u32() % i + 1;
        for j in 0..100 {
            if j % p == 0 {
                let e = world.create();
                world.assign(e, pos, Comp::Position(Position { x: e.index(), y: e.version() }));
                if j % r == 0 {
                    world.assign(e, refc, Comp::Reference(Reference::default()));
                }
                v.push(e);
            }
        }

        let size = v.len() / 2;
        for _ in 0..size {
            let len = v.len();
            world.free(v.swap_remove(generator.next_u32() as usize % len));
        }
    }

    for i in v {
        assert_eq!(
            *position(world.fetch(i, pos)).unwrap(),
            Position { x: i.index(), y: i.version() }
        );
    }
}
