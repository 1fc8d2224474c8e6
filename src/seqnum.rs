//! Sequence-space arithmetic over 32-bit sequence numbers (modulo 2^32).
use vstd::prelude::*;

verus! {

/// The size of the sequence space.
pub open spec fn modulus() -> int {
    0x1_0000_0000
}

/// Forward distance from `from` to `to` in sequence space, in `[0, 2^32)`.
pub open spec fn seq_dist(from: u32, to: u32) -> int {
    (to as int - from as int) % modulus()
}

/// `a` precedes `b`: the signed 32-bit reading of `a - b` is negative.
pub open spec fn seq_lt(a: u32, b: u32) -> bool {
    seq_dist(b, a) >= 0x8000_0000
}

/// `x` lies in the half-open window `[start, end)` of sequence space.
pub open spec fn seq_in_window(start: u32, x: u32, end: u32) -> bool {
    seq_dist(start, x) < seq_dist(start, end)
}

/// `a + n` in sequence space.
pub open spec fn seq_add(a: u32, n: int) -> u32 {
    ((a as int + n) % modulus()) as u32
}

proof fn lemma_wrapping_sub_is_dist(a: u32, b: u32)
    ensures
        vstd::wrapping::u32_specs::wrapping_sub(a, b) as int == seq_dist(b, a),
{
}

/// Wraparound-safe "less than" on sequence numbers.
pub fn wrapping_lt(a: u32, b: u32) -> (r: bool)
    ensures
        r == seq_lt(a, b),
{
    proof {
        lemma_wrapping_sub_is_dist(a, b);
    }
    a.wrapping_sub(b) >= 0x8000_0000
}

/// Whether `x` lies in the window that starts at `start` and ends just before `end`.
pub fn is_between_wrapped(start: u32, x: u32, end: u32) -> (r: bool)
    ensures
        r == seq_in_window(start, x, end),
{
    proof {
        lemma_wrapping_sub_is_dist(x, start);
        lemma_wrapping_sub_is_dist(end, start);
    }
    x.wrapping_sub(start) < end.wrapping_sub(start)
}

/// `a + n` modulo 2^32.
pub fn seq_plus(a: u32, n: u32) -> (r: u32)
    ensures
        r == seq_add(a, n as int),
{
    a.wrapping_add(n)
}

/// No sequence number precedes itself, and every sequence number precedes its
/// successor, across the wraparound from `0xFFFF_FFFF` to `0` as well.
pub proof fn lemma_lt_irreflexive_and_successor(a: u32)
    ensures
        !seq_lt(a, a),
        seq_lt(a, seq_add(a, 1)),
{
}

/// The window that starts at `nxt` and spans `wnd > 0` numbers always holds `nxt`.
pub proof fn lemma_window_holds_its_start(nxt: u32, wnd: u32)
    requires
        wnd > 0,
    ensures
        seq_in_window(nxt, nxt, seq_add(nxt, wnd as int)),
{
}

} // verus!
