use tikv_bridge::range::{to_bound_range, range_contains, KeyBound};

fn k(s: &[u8]) -> Vec<u8> {
    s.to_vec()
}

#[test]
fn four_flag_combinations_govern_boundaries() {
    // start=b"a", end=b"z": each flag flips its own boundary's acceptance.
    let cases = [
        (true, false, true, false),
        (true, true, true, true),
        (false, false, false, false),
        (false, true, false, true),
    ];
    for (include_start, include_end, accepts_a, accepts_z) in cases {
        let r = to_bound_range(Some(k(b"a")), Some(k(b"z")), include_start, include_end);
        assert_eq!(range_contains(&r, &k(b"a")), accepts_a);
        assert_eq!(range_contains(&r, &k(b"z")), accepts_z);
        // an interior key is accepted whatever the flags say
        assert!(range_contains(&r, &k(b"m")));
        // keys outside the interval are rejected whatever the flags say
        assert!(!range_contains(&r, &k(b"A")));
        assert!(!range_contains(&r, &k(b"zz")));
    }
}

#[test]
fn half_open_defaults() {
    // include_start = true, include_end = false: the conventional half-open range.
    let r = to_bound_range(Some(k(b"a")), Some(k(b"z")), true, false);
    assert!(range_contains(&r, &k(b"a")));
    assert!(range_contains(&r, &k(b"y")));
    assert!(!range_contains(&r, &k(b"z")));
}

#[test]
fn absent_start_is_unbounded_regardless_of_flag() {
    for include_start in [true, false] {
        let r = to_bound_range(None, Some(k(b"z")), include_start, false);
        assert!(matches!(r.start, KeyBound::Unbounded));
        assert!(range_contains(&r, &k(b"")));
        assert!(range_contains(&r, &k(b"a")));
        assert!(!range_contains(&r, &k(b"z")));
    }
}

#[test]
fn absent_end_is_unbounded_regardless_of_flag() {
    for include_end in [true, false] {
        let r = to_bound_range(Some(k(b"a")), None, true, include_end);
        assert!(matches!(r.end, KeyBound::Unbounded));
        assert!(range_contains(&r, &k(b"a")));
        assert!(range_contains(&r, &k(b"zzzzzz")));
        assert!(!range_contains(&r, &k(b"")));
    }
}

#[test]
fn both_absent_accepts_everything() {
    let r = to_bound_range(None, None, false, true);
    assert!(matches!(r.start, KeyBound::Unbounded));
    assert!(matches!(r.end, KeyBound::Unbounded));
    assert!(range_contains(&r, &k(b"")));
    assert!(range_contains(&r, &k(b"anything")));
}

#[test]
fn bound_shapes_follow_flags() {
    let r = to_bound_range(Some(k(b"s")), Some(k(b"e")), true, false);
    assert!(matches!(&r.start, KeyBound::Included(s) if s == &k(b"s")));
    assert!(matches!(&r.end, KeyBound::Excluded(e) if e == &k(b"e")));
    let r = to_bound_range(Some(k(b"s")), Some(k(b"e")), false, true);
    assert!(matches!(&r.start, KeyBound::Excluded(s) if s == &k(b"s")));
    assert!(matches!(&r.end, KeyBound::Included(e) if e == &k(b"e")));
}

#[test]
fn prefixes_order_strictly() {
    // b"a" is a proper prefix of b"ab": the shorter key comes first.
    let r = to_bound_range(Some(k(b"a")), Some(k(b"ab")), false, false);
    assert!(!range_contains(&r, &k(b"a")));
    assert!(!range_contains(&r, &k(b"ab")));
    assert!(range_contains(&r, &k(b"aa")));
}
