use std::collections::HashSet;

use crayon::handle::Handle;
use crayon::handle_pool::HandlePool;

#[derive(Debug, Default, Clone, Copy, PartialEq, Eq, Hash)]
struct TypeSafeHandle(Handle);

impl From<Handle> for TypeSafeHandle {
    fn from(handle: Handle) -> Self {
        TypeSafeHandle(handle)
    }
}

#[test]
fn handle_basic() {
    let mut h2 = Handle::new(2, 4);
    assert_eq!(h2.index(), 2);
    assert_eq!(h2.version(), 4);
    assert!(h2.is_valid());
    assert_eq!(h2.index, 2);

    h2.invalidate();
    assert_eq!(h2.index(), 0);
    assert_eq!(h2.version(), 0);
    assert!(!h2.is_valid());
    assert_eq!(h2.index, 0);
}

#[test]
fn container() {
    let h1 = Handle::new(1, 1);
    let h2 = Handle::new(1, 2);
    let h3 = Handle::new(2, 2);
    let h4 = Handle::new(1, 1);

    let mut map = HashSet::new();
    assert_eq!(map.insert(h1), true);
    assert_eq!(map.contains(&h1), true);
    assert_eq!(map.insert(h4), false);
    assert_eq!(map.contains(&h4), true);
    assert_eq!(map.insert(h2), true);
    assert_eq!(map.insert(h3), true);
}

#[test]
fn type_safe_handle() {
    let h1 = TypeSafeHandle::default();
    assert_eq!(h1, TypeSafeHandle::from(Handle::default()));

    let h2 = TypeSafeHandle(Handle::default());
    assert_eq!(h2.0, Handle::default());
}

#[test]
fn nil_handle_is_not_valid() {
    assert!(!Handle::nil().is_valid());
    assert_eq!(Handle::nil(), Handle::default());
    assert!(Handle::new(0, 1).is_valid());
    assert!(Handle::new(1, 0).is_valid());
}

#[test]
fn pool_recycles_index_with_new_version() {
    let mut pool = HandlePool::new();
    let h1 = pool.create();
    assert_eq!(h1, Handle::new(0, 1));
    assert!(h1.is_valid());
    assert!(pool.is_alive(&h1));
    assert_eq!(pool.size(), 1);

    assert!(pool.free(&h1));
    assert!(!pool.is_alive(&h1));
    assert_eq!(pool.size(), 0);
    assert!(!pool.free(&h1));

    let h2 = pool.create();
    assert_eq!(h2.index(), h1.index());
    assert_eq!(h2.version(), 2);
    assert_ne!(h2, h1);
    assert!(pool.is_alive(&h2));
    assert!(!pool.is_alive(&h1));
    assert_eq!(pool.len(), 1);
}

#[test]
fn pool_reuses_last_freed_slot_first() {
    let mut pool = HandlePool::with_capacity(4);
    let a = pool.create();
    let b = pool.create();
    let c = pool.create();
    assert_eq!((a.index(), b.index(), c.index()), (0, 1, 2));
    pool.free(&a);
    pool.free(&c);
    assert_eq!(pool.create().index(), 2);
    assert_eq!(pool.create().index(), 0);
    assert_eq!(pool.create().index(), 3);
    assert_eq!(pool.size(), 4);
}

#[test]
fn pool_iter_walks_live_handles_in_order() {
    let mut pool = HandlePool::new();
    let hs: Vec<Handle> = (0..6).map(|_| pool.create()).collect();
    pool.free(&hs[1]);
    pool.free(&hs[4]);

    let mut it = pool.iter();
    let mut seen = Vec::new();
    while let Some(h) = it.next(&pool) {
        seen.push(h);
    }
    assert_eq!(seen, vec![hs[0], hs[2], hs[3], hs[5]]);

    let (left, right) = pool.iter().split();
    assert_eq!((left.start, left.end, right.start, right.end), (0, 3, 3, 6));
    let (left, right) = pool.iter().split_with(4);
    assert_eq!((left.end, right.start), (4, 4));
    let (left, right) = pool.iter().split_with(10);
    assert_eq!((left.end, right.start, right.end), (6, 6, 6));
}
