//! Modular arithmetic on the 16-bit RTP sequence ring.
//!
//! Sequence numbers live on a ring of 65536 points.  All comparisons go
//! through the forward distance `(b - a) mod 2^16`: a value is "ahead" of
//! another when it is less than half a ring away in the forward direction,
//! and "behind" (late) when it is more than half a ring away.

use vstd::prelude::*;

verus! {

/// Forward distance from `a` to `b` on the 16-bit ring: the number of `+1`
/// steps that take `a` to `b`, in `[0, 65535]`.
pub open spec fn seq_dist(a: u16, b: u16) -> int {
    if b >= a {
        b - a
    } else {
        b - a + 65536
    }
}

/// `a` strictly precedes `b` on the ring: `a` lies in the open half-ring
/// behind `b`, that is, `(a - b) mod 2^16` is in `[2^15 + 1, 2^16 - 1]`.
pub open spec fn seq_before(a: u16, b: u16) -> bool {
    seq_dist(b, a) > 32768
}

/// A packet with sequence `arrived` is late relative to the next expected
/// sequence `expected` iff it lies in the half-ring behind `expected`.
pub open spec fn seq_is_late(expected: u16, arrived: u16) -> bool {
    seq_dist(expected, arrived) > 32768
}

/// Ring successor: `(s + 1) mod 2^16`.
pub open spec fn seq_next(s: u16) -> u16 {
    if s == 65535 {
        0
    } else {
        (s + 1) as u16
    }
}

/// Ring predecessor: `(s - 1) mod 2^16`.
pub open spec fn seq_prev(s: u16) -> u16 {
    if s == 0 {
        65535
    } else {
        (s - 1) as u16
    }
}

/// Ring addition: `(s + d) mod 2^16`.
pub open spec fn seq_add(s: u16, d: u16) -> u16 {
    if s + d < 65536 {
        (s + d) as u16
    } else {
        (s + d - 65536) as u16
    }
}

/// Forward distance from `a` to `b`, computed on machine integers.
pub fn distance_forward(a: u16, b: u16) -> (r: u16)
    ensures
        r == seq_dist(a, b),
{
    b.wrapping_sub(a)
}

/// Whether `a` lies at or within half a ring ahead of `b`, i.e.
/// `(a - b) mod 2^16 < 2^15`.  Equal sequences compare true.
pub fn sequence_compare(a: u16, b: u16) -> (r: bool)
    ensures
        r == (seq_dist(b, a) < 32768),
{
    let diff: u16 = a.wrapping_sub(b);
    diff < 32768
}

/// The two forward distances between distinct points make a full turn.
pub proof fn lemma_dist_antisym(a: u16, b: u16)
    ensures
        a == b ==> seq_dist(a, b) == 0 && seq_dist(b, a) == 0,
        a != b ==> seq_dist(a, b) + seq_dist(b, a) == 65536,
{
}

/// Trichotomy on the ring: for every pair that is not exactly half a ring
/// apart, exactly one of `seq_before(a, b)`, `a == b`, `seq_before(b, a)`
/// holds.  (At distance exactly `2^15` — the antipode — neither direction
/// precedes the other.)
pub proof fn lemma_seq_trichotomy(a: u16, b: u16)
    requires
        seq_dist(a, b) != 32768,
    ensures
        a == b ==> !seq_before(a, b) && !seq_before(b, a),
        a != b ==> (seq_before(a, b) <==> !seq_before(b, a)),
{
    lemma_dist_antisym(a, b);
}

/// Late classification at the ring boundary: the immediate predecessor of
/// the expected sequence is late, the immediate successor is not.
pub proof fn lemma_late_boundary(expected: u16)
    ensures
        seq_is_late(expected, seq_prev(expected)),
        !seq_is_late(expected, seq_next(expected)),
{
}

/// Advancing the origin by one shortens every positive forward distance by
/// one.
pub proof fn lemma_dist_next(n: u16, s: u16)
    requires
        seq_dist(n, s) >= 1,
    ensures
        seq_dist(seq_next(n), s) == seq_dist(n, s) - 1,
{
}

/// Forward distance inverts ring addition: stepping `k` forward from `x`
/// lands exactly `k` away.
pub proof fn lemma_dist_add(x: u16, k: u16)
    ensures
        seq_dist(x, seq_add(x, k)) == k,
{
}

} // verus!
