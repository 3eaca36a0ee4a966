//! Comparisons of `u16` sequence numbers that wrap around at `u16::MAX`.
//!
//! `a` is "before" `b` when going forward from `a` reaches `b` in less than half
//! of the number space.
use vstd::prelude::*;

verus! {

/// The distance from `b` forward to `a`, modulo `2^16`.
pub open spec fn forward_distance(a: u16, b: u16) -> int {
    (a as int - b as int) % 0x1_0000
}

/// The distance from `b` to `a` read as a signed 16 bit number: in
/// `-0x8000 ..= 0x7fff`.
pub open spec fn signed_gap(a: u16, b: u16) -> int {
    let d = forward_distance(a, b);
    if d < 0x8000 {
        d
    } else {
        d - 0x1_0000
    }
}

proof fn lemma_wrapping_sub_as_i16(a: u16, b: u16)
    ensures
        ((a.wrapping_sub(b)) as i16) < 0 <==> signed_gap(a, b) < 0,
        ((a.wrapping_sub(b)) as i16) > 0 <==> signed_gap(a, b) > 0,
{
    let w = a.wrapping_sub(b);
    assert(w == (a as int - b as int) % 0x1_0000);
    assert((w as i16) < 0 <==> w >= 0x8000) by (bit_vector);
    assert((w as i16) > 0 <==> 0 < w && w < 0x8000) by (bit_vector);
}

/// `a` comes strictly before `b` in wrapping order.
pub fn wrapping_lt(a: u16, b: u16) -> (r: bool)
    ensures
        r == (signed_gap(a, b) < 0),
{
    proof {
        lemma_wrapping_sub_as_i16(a, b);
    }
    (a.wrapping_sub(b) as i16) < 0
}

/// `a` equals `b` or comes before it in wrapping order.
pub fn wrapping_le(a: u16, b: u16) -> (r: bool)
    ensures
        r == (a == b || signed_gap(a, b) < 0),
{
    proof {
        lemma_wrapping_sub_as_i16(a, b);
    }
    a == b || (a.wrapping_sub(b) as i16) < 0
}

/// `a` comes strictly after `b` in wrapping order.
pub fn wrapping_gt(a: u16, b: u16) -> (r: bool)
    ensures
        r == (signed_gap(a, b) > 0),
{
    proof {
        lemma_wrapping_sub_as_i16(a, b);
    }
    (a.wrapping_sub(b) as i16) > 0
}

/// `a` equals `b` or comes after it in wrapping order.
pub fn wrapping_ge(a: u16, b: u16) -> (r: bool)
    ensures
        r == (a == b || signed_gap(a, b) > 0),
{
    proof {
        lemma_wrapping_sub_as_i16(a, b);
    }
    a == b || (a.wrapping_sub(b) as i16) > 0
}

/// Exactly one of "before", "equal" and "after" holds for any two sequence
/// numbers.
pub proof fn lemma_wrapping_trichotomy(a: u16, b: u16)
    ensures
        signed_gap(a, b) < 0 || a == b || signed_gap(a, b) > 0,
        !(signed_gap(a, b) < 0 && signed_gap(a, b) > 0),
        a == b <==> signed_gap(a, b) == 0,
{
}

/// `a` is before `b` exactly when `b` is after `a`, except for the one pair of
/// numbers that lie exactly half of the number space apart: there `a` is
/// before `b` and `b` is before `a`.
pub proof fn lemma_wrapping_lt_converse_gt(a: u16, b: u16)
    requires
        forward_distance(a, b) != 0x8000,
    ensures
        (signed_gap(a, b) < 0) == (signed_gap(b, a) > 0),
{
}

/// Every sequence number comes before its successor, also across the wrap at
/// `u16::MAX`.
pub proof fn lemma_wrapping_successor(a: u16)
    ensures
        signed_gap(a, a.wrapping_add(1)) < 0,
        signed_gap(a.wrapping_add(1), a) > 0,
{
}

} // verus!
