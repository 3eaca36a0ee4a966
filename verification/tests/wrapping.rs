use thecurse::utils::wrapping::{wrapping_ge, wrapping_gt, wrapping_le, wrapping_lt};

#[test]
fn wrapping_less_than() {
    assert!(wrapping_lt(0, 1));
    assert!(wrapping_lt(0, u16::MAX / 2));
    assert!(wrapping_lt(u16::MAX, 0));
    assert!(wrapping_lt(u16::MAX / 2 + 1, 0));
    assert!(wrapping_lt(u16::MAX / 2, u16::MAX / 2 + 1));
}

#[test]
fn wrapping_less_than_or_equal() {
    assert!(wrapping_le(0, 1));
    assert!(wrapping_le(0, u16::MAX / 2));
    assert!(wrapping_le(u16::MAX, 0));
    assert!(wrapping_le(u16::MAX / 2 + 1, 0));
    assert!(wrapping_le(u16::MAX / 2, u16::MAX / 2 + 1));
    assert!(wrapping_le(0, 0));
    assert!(wrapping_le(u16::MAX, u16::MAX));
}

#[test]
fn wrapping_greater_than() {
    assert!(wrapping_gt(2, 1));
    assert!(wrapping_gt(u16::MAX, u16::MAX / 2 + 1));
    assert!(wrapping_gt(u16::MAX / 2, 0));
    assert!(!wrapping_gt(u16::MAX / 2 + 1, 0));
    assert!(!wrapping_gt(u16::MAX / 2, u16::MAX / 2));
}

#[test]
fn wrapping_greater_than_or_equal() {
    assert!(wrapping_ge(2, 1));
    assert!(wrapping_ge(u16::MAX, u16::MAX / 2 + 1));
    assert!(wrapping_ge(u16::MAX / 2, 0));
    assert!(!wrapping_ge(u16::MAX / 2 + 1, 0));
    assert!(wrapping_ge(21_000, 21_000));
    assert!(wrapping_ge(u16::MAX / 2, u16::MAX / 2));
}

#[test]
fn wrapping_half_way_pair_is_before_both_ways() {
    // The one pair that lies half of the number space apart.
    assert!(wrapping_lt(0, 0x8000));
    assert!(wrapping_lt(0x8000, 0));
    assert!(!wrapping_gt(0, 0x8000));
    assert!(!wrapping_gt(0x8000, 0));
}

#[test]
fn wrapping_successor_is_after() {
    for a in [0u16, 1, 0x7fff, 0x8000, u16::MAX] {
        assert!(wrapping_lt(a, a.wrapping_add(1)));
        assert!(wrapping_gt(a.wrapping_add(1), a));
        assert!(!wrapping_lt(a, a));
        assert!(wrapping_le(a, a) && wrapping_ge(a, a));
    }
}
