use memgraph::key_range::{ref_bound, Bound, B};

fn start_key() -> [u8; 11] {
    [0, 1, 2, 3, 4, 5, 6, 7, 8, 9, 250]
}

fn distance() -> [u8; 11] {
    [1, 1, 1, 1, 1, 1, 1, 1, 1, 1, 10]
}

fn end_key() -> [u8; 11] {
    [1, 2, 3, 4, 5, 6, 7, 8, 9, 10, 255]
}

#[test]
fn end_key_adds_byte_by_byte_and_holds_at_255() {
    let r = B::arbitrary(0, start_key(), distance());
    assert!(matches!(r.start, Bound::Included(k) if k == start_key()));
    assert!(matches!(r.end, Bound::Included(k) if k == end_key()));
    let full = B::arbitrary(0, [255; 11], [255; 11]);
    assert!(matches!(full.end, Bound::Included(k) if k == [255; 11]));
}

#[test]
fn each_shape_byte_picks_its_ends() {
    let a = start_key();
    let b = end_key();
    let r = B::arbitrary(1, a, distance());
    assert!(matches!(r.start, Bound::Included(k) if k == a));
    assert!(matches!(r.end, Bound::Excluded(k) if k == b));
    let r = B::arbitrary(2, a, distance());
    assert!(matches!(r.start, Bound::Included(k) if k == a));
    assert!(matches!(r.end, Bound::Unbounded));
    let r = B::arbitrary(3, a, distance());
    assert!(matches!(r.start, Bound::Excluded(k) if k == a));
    assert!(matches!(r.end, Bound::Included(k) if k == b));
    let r = B::arbitrary(4, a, distance());
    assert!(matches!(r.start, Bound::Excluded(k) if k == a));
    assert!(matches!(r.end, Bound::Unbounded));
    let r = B::arbitrary(5, a, distance());
    assert!(matches!(r.start, Bound::Unbounded));
    assert!(matches!(r.end, Bound::Included(k) if k == b));
    let r = B::arbitrary(6, a, distance());
    assert!(matches!(r.start, Bound::Unbounded));
    assert!(matches!(r.end, Bound::Excluded(k) if k == b));
    let r = B::arbitrary(7, a, distance());
    assert!(matches!(r.start, Bound::Unbounded));
    assert!(matches!(r.end, Bound::Unbounded));
}

#[test]
fn shape_byte_counts_modulo_eight() {
    let r = B::arbitrary(12, start_key(), distance());
    assert!(matches!(r.start, Bound::Excluded(_)));
    assert!(matches!(r.end, Bound::Unbounded));
    let r = B::arbitrary(255, start_key(), distance());
    assert!(matches!(r.start, Bound::Unbounded));
    assert!(matches!(r.end, Bound::Unbounded));
}

#[test]
fn no_shape_is_excluded_at_both_ends() {
    for information in 0..=255u8 {
        let r = B::arbitrary(information, start_key(), distance());
        assert!(!(matches!(r.start, Bound::Excluded(_)) && matches!(r.end, Bound::Excluded(_))));
    }
}

#[test]
fn borrowed_bounds_keep_kind_and_key() {
    let r = B::arbitrary(3, start_key(), distance());
    assert!(matches!(r.start_bound(), Bound::Excluded(k) if *k == start_key()));
    assert!(matches!(r.end_bound(), Bound::Included(k) if *k == end_key()));
    assert!(matches!(ref_bound(&Bound::<u8>::Unbounded), Bound::Unbounded));
    assert!(matches!(ref_bound(&Bound::Included(7u8)), Bound::Included(&7)));
}
