use crayon::object_pool::ObjectPool;

#[test]
fn object_pool_basic() {
    let mut set = ObjectPool::<i32>::new();

    let e1 = set.create(3);
    assert_eq!(set.get(&e1), Some(&3));
    assert_eq!(set.len(), 1);
    assert_eq!(set.free(&e1), Some(3));
    assert_eq!(set.len(), 0);
    assert_eq!(set.get(&e1), None);
    assert_eq!(set.free(&e1), None);
    assert_eq!(set.len(), 0);
}

#[test]
fn object_pool_get_mut_and_reuse() {
    let mut set = ObjectPool::<String>::with_capacity(2);
    let a = set.create("a".to_string());
    let b = set.create("b".to_string());
    set.get_mut(&b).unwrap().push('!');
    assert_eq!(set.get(&b).map(|s| s.as_str()), Some("b!"));
    assert!(set.is_alive(&a));

    assert_eq!(set.free(&a), Some("a".to_string()));
    assert!(!set.is_alive(&a));
    assert!(set.get_mut(&a).is_none());

    let c = set.create("c".to_string());
    assert_eq!(c.index(), a.index());
    assert_ne!(c, a);
    assert_eq!(set.get(&a), None);
    assert_eq!(set.get(&c).map(|s| s.as_str()), Some("c"));

    let mut it = set.iter();
    let mut seen = Vec::new();
    while let Some(h) = it.next(set.handles()) {
        seen.push(h);
    }
    assert_eq!(seen, vec![c, b]);
}

struct Counted {
    drops: std::sync::Arc<std::sync::RwLock<usize>>,
}

impl Drop for Counted {
    fn drop(&mut self) {
        *self.drops.write().unwrap() += 1;
    }
}

#[test]
fn object_pool_free_drops_each_value_once() {
    let rc = std::sync::Arc::new(std::sync::RwLock::new(0));
    let mut pool = ObjectPool::new();
    let handles: Vec<_> = (0..10).map(|_| pool.create(Counted { drops: rc.clone() })).collect();
    for (i, h) in handles.iter().enumerate() {
        let v = pool.free(h);
        assert!(v.is_some());
        drop(v);
        assert_eq!(*rc.read().unwrap(), i + 1);
    }
    drop(pool);
    assert_eq!(*rc.read().unwrap(), 10);
}

#[test]
fn object_pool_split_walk_covers_alive_handles() {
    let mut pool = ObjectPool::new();
    let handles: Vec<_> = (0..100u32).map(|i| pool.create(i)).collect();
    let (left, right) = pool.iter().split();
    let walk = |mut it: crayon::handle_pool::HandleIter| {
        let mut out = Vec::new();
        while let Some(h) = it.next(pool.handles()) {
            out.push(h);
        }
        out
    };
    let l = walk(left);
    let r = walk(right);
    assert_eq!(l.len(), 50);
    assert_eq!(r.len(), 50);
    let mut all = l.clone();
    all.extend(r);
    assert_eq!(all, handles);
}
