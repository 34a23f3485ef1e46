use crayon::bitset::{BitSet, DynamicBitSet};

#[test]
fn bitset_basic() {
    let mut bits = BitSet::new();

    assert!(!bits.contains(5));

    bits.insert(5);
    assert!(bits.contains(5));

    bits.insert(9);
    assert!(bits.contains(9));
    assert!(!bits.contains(12));

    bits.insert(12);
    assert!(bits.contains(12));

    bits.insert(5);
    assert!(bits.contains(5));

    bits.insert(5);
    assert!(bits.contains(5));
    assert!(bits.contains(9));
    assert!(bits.contains(12));

    bits.remove(5);
    assert!(!bits.contains(5));
    assert!(bits.contains(9));
    assert!(bits.contains(12));

    bits.remove(12);
    assert!(!bits.contains(5));
    assert!(bits.contains(9));
    assert!(!bits.contains(12));

    bits.clear();
    assert!(bits == BitSet::new());
}

#[test]
fn intersect() {
    let mut lhs = BitSet::new();
    lhs.insert(1);
    lhs.insert(3);
    lhs.insert(9);

    let mut rhs = BitSet::new();
    rhs.insert(2);
    rhs.insert(3);
    rhs.insert(10);

    let v = lhs.intersect_with(&rhs);
    assert!(!v.contains(1));
    assert!(!v.contains(2));
    assert!(v.contains(3));
    assert!(!v.contains(9));
    assert!(!v.contains(10));
}

#[test]
fn intersect_is_idempotent_and_commutative() {
    let mut m1 = BitSet::new();
    m1.insert(0);
    m1.insert(7);
    m1.insert(63);
    let mut m2 = BitSet::new();
    m2.insert(7);
    m2.insert(40);

    assert_eq!(m1.intersect_with(&m1), m1);
    assert_eq!(m1.intersect_with(&m2), m2.intersect_with(&m1));
    assert!(m1.is_superset(&m1.intersect_with(&m2)));
    assert!(!m1.is_superset(&m2));
}

#[test]
fn bitset_iter_yields_members_in_order() {
    let mut bits = BitSet::new();
    bits.insert(63);
    bits.insert(2);
    bits.insert(17);
    let mut it = bits.iter();
    assert_eq!(it.next(), Some(2));
    assert_eq!(it.next(), Some(17));
    assert_eq!(it.next(), Some(63));
    assert_eq!(it.next(), None);
}

#[test]
fn dynamic_bitset_grows_and_reports_absent_beyond() {
    let mut bits = DynamicBitSet::new();
    assert!(!bits.contains(1000));
    bits.remove(1000);
    bits.insert(130);
    bits.insert(3);
    assert!(bits.contains(130));
    assert!(bits.contains(3));
    assert!(!bits.contains(129));
    assert!(!bits.contains(100_000));

    {
        let mut it = bits.iter();
        assert_eq!(it.next(), Some(3));
        assert_eq!(it.next(), Some(130));
        assert_eq!(it.next(), None);
    }

    bits.remove(130);
    assert!(!bits.contains(130));
    bits.clear();
    assert!(!bits.contains(3));
    assert_eq!(bits, DynamicBitSet::new());
}

#[test]
fn iterators_stay_exhausted() {
    let mut bits = BitSet::new();
    bits.insert(5);
    let mut it = bits.iter();
    assert_eq!(it.next(), Some(5));
    assert_eq!(it.next(), None);
    assert_eq!(it.next(), None);

    let mut dynamic = DynamicBitSet::new();
    dynamic.insert(5);
    let mut it = dynamic.iter();
    assert_eq!(it.next(), Some(5));
    assert_eq!(it.next(), None);
    assert_eq!(it.next(), None);
}
