//! Big-endian byte encodings and the Internet checksum.
use vstd::prelude::*;

verus! {

/// The two big-endian bytes of a 16-bit value.
pub open spec fn u16_bytes(v: int) -> Seq<u8> {
    seq![(v / 256) as u8, (v % 256) as u8]
}

/// The four big-endian bytes of a 32-bit value.
pub open spec fn u32_bytes(v: int) -> Seq<u8> {
    u16_bytes(v / 0x1_0000) + u16_bytes(v % 0x1_0000)
}

/// The 16-bit big-endian value stored at `s[i..i + 2]`.
pub open spec fn be16(s: Seq<u8>, i: int) -> int {
    s[i] as int * 256 + s[i + 1] as int
}

/// The 32-bit big-endian value stored at `s[i..i + 4]`.
pub open spec fn be32(s: Seq<u8>, i: int) -> int {
    be16(s, i) * 0x1_0000 + be16(s, i + 2)
}

pub proof fn lemma_be16_bytes(s: Seq<u8>, i: int)
    requires
        0 <= i,
        i + 2 <= s.len(),
    ensures
        u16_bytes(be16(s, i)) == s.subrange(i, i + 2),
        0 <= be16(s, i) < 0x1_0000,
{
    assert(u16_bytes(be16(s, i)) =~= s.subrange(i, i + 2));
}

pub proof fn lemma_be32_bytes(s: Seq<u8>, i: int)
    requires
        0 <= i,
        i + 4 <= s.len(),
    ensures
        u32_bytes(be32(s, i)) == s.subrange(i, i + 4),
        0 <= be32(s, i) < 0x1_0000_0000,
{
    lemma_be16_bytes(s, i);
    lemma_be16_bytes(s, i + 2);
    let v = be32(s, i);
    assert(v / 0x1_0000 == be16(s, i));
    assert(v % 0x1_0000 == be16(s, i + 2));
    assert(u32_bytes(v) =~= s.subrange(i, i + 4));
}

/// The 16-bit word that starts at byte `i`; an odd final byte is padded with zero.
pub open spec fn word_at(b: Seq<u8>, i: int) -> int {
    if i + 1 < b.len() {
        be16(b, i)
    } else {
        b[i] as int * 256
    }
}

/// Ones' complement addition of two 16-bit quantities (end-around carry).
pub open spec fn ones_add(a: int, w: int) -> int {
    if a + w > 0xFFFF {
        a + w - 0xFFFF
    } else {
        a + w
    }
}

/// Ones' complement sum of the first `k` words of `b`.
pub open spec fn ones_sum(b: Seq<u8>, k: nat) -> int
    decreases k,
{
    if k == 0 {
        0
    } else {
        ones_add(ones_sum(b, (k - 1) as nat), word_at(b, 2 * (k - 1)))
    }
}

/// The Internet checksum of `b`: the ones' complement of the ones' complement
/// sum of its 16-bit words.
#[verifier::opaque]
pub open spec fn internet_checksum(b: Seq<u8>) -> int {
    0xFFFF - ones_sum(b, ((b.len() + 1) / 2) as nat)
}

/// Computes the Internet checksum of a byte string.
pub fn checksum(b: &[u8]) -> (r: u16)
    ensures
        r as int == internet_checksum(b@),
{
    let n = b.len();
    let words: usize = n / 2 + n % 2;
    let mut acc: u32 = 0;
    let mut k: usize = 0;
    while k < words
        invariant
            words == (n + 1) / 2,
            n == b@.len(),
            k <= words,
            0 <= acc <= 0xFFFF,
            acc as int == ones_sum(b@, k as nat),
        decreases words - k,
    {
        let i = 2 * k;
        let w: u32 = if i + 1 < n {
            b[i] as u32 * 256 + b[i + 1] as u32
        } else {
            b[i] as u32 * 256
        };
        acc = acc + w;
        if acc > 0xFFFF {
            acc = acc - 0xFFFF;
        }
        k = k + 1;
    }
    proof {
        reveal(internet_checksum);
    }
    (0xFFFF - acc) as u16
}

/// Reads the big-endian 16-bit value at `s[i..i + 2]`.
pub fn read_u16_at(s: &[u8], i: usize) -> (r: u16)
    requires
        i + 2 <= s@.len(),
    ensures
        r as int == be16(s@, i as int),
{
    s[i] as u16 * 256 + s[i + 1] as u16
}

/// Reads the big-endian 32-bit value at `s[i..i + 4]`.
pub fn read_u32_at(s: &[u8], i: usize) -> (r: u32)
    requires
        i + 4 <= s@.len(),
    ensures
        r as int == be32(s@, i as int),
{
    let n = s.len();
    assert(i + 2 < n);
    let hi = read_u16_at(s, i) as u32;
    let lo = read_u16_at(s, i + 2) as u32;
    hi * 0x1_0000 + lo
}

/// Appends the big-endian bytes of `v`.
pub fn push_u16(out: &mut Vec<u8>, v: u16)
    ensures
        final(out)@ == old(out)@ + u16_bytes(v as int),
{
    out.push((v / 256) as u8);
    out.push((v % 256) as u8);
    assert(final(out)@ =~= old(out)@ + u16_bytes(v as int));
}

/// Appends the big-endian bytes of `v`.
pub fn push_u32(out: &mut Vec<u8>, v: u32)
    ensures
        final(out)@ == old(out)@ + u32_bytes(v as int),
{
    push_u16(out, (v / 0x1_0000) as u16);
    push_u16(out, (v % 0x1_0000) as u16);
    assert(final(out)@ =~= old(out)@ + u32_bytes(v as int));
}

/// Appends `s[start..end]`.
pub fn push_range(out: &mut Vec<u8>, s: &[u8], start: usize, end: usize)
    requires
        start <= end <= s@.len(),
    ensures
        final(out)@ == old(out)@ + s@.subrange(start as int, end as int),
{
    let mut i = start;
    while i < end
        invariant
            start <= i <= end <= s@.len(),
            out@ == old(out)@ + s@.subrange(start as int, i as int),
        decreases end - i,
    {
        out.push(s[i]);
        i = i + 1;
        assert(out@ =~= old(out)@ + s@.subrange(start as int, i as int));
    }
}

/// A ones' complement sum stays within 16 bits.
pub proof fn lemma_ones_sum_bounded(b: Seq<u8>, k: nat)
    ensures
        0 <= ones_sum(b, k) <= 0xFFFF,
    decreases k,
{
    if k > 0 {
        lemma_ones_sum_bounded(b, (k - 1) as nat);
        let i = 2 * (k - 1);
        if 0 <= i < b.len() {
            assert(0 <= word_at(b, i) <= 0xFFFF);
        }
    }
}

/// Ones' complement sum of all the 16-bit words of `b`.
pub open spec fn ones_total(b: Seq<u8>) -> int {
    ones_sum(b, ((b.len() + 1) / 2) as nat)
}

/// Plain sum of the first `k` words of `b`.
pub open spec fn plain_sum(b: Seq<u8>, k: nat) -> int
    decreases k,
{
    if k == 0 {
        0
    } else {
        plain_sum(b, (k - 1) as nat) + word_at(b, 2 * (k - 1))
    }
}

proof fn lemma_ones_sum_is_plain_sum_mod(b: Seq<u8>, k: nat)
    ensures
        ones_sum(b, k) % 0xFFFF == plain_sum(b, k) % 0xFFFF,
        (ones_sum(b, k) == 0) == (plain_sum(b, k) == 0),
        plain_sum(b, k) >= 0,
    decreases k,
{
    if k > 0 {
        lemma_ones_sum_is_plain_sum_mod(b, (k - 1) as nat);
        lemma_ones_sum_bounded(b, (k - 1) as nat);
        let a = ones_sum(b, (k - 1) as nat);
        let p = plain_sum(b, (k - 1) as nat);
        let w = word_at(b, 2 * (k - 1));
        assert(0 <= w <= 0xFFFF);
        assert((a + w) % 0xFFFF == (p + w) % 0xFFFF) by {
            vstd::arithmetic::div_mod::lemma_add_mod_noop(a, w, 0xFFFF);
            vstd::arithmetic::div_mod::lemma_add_mod_noop(p, w, 0xFFFF);
        }
        if a + w > 0xFFFF {
            assert((a + w - 0xFFFF) % 0xFFFF == (a + w) % 0xFFFF) by {
                vstd::arithmetic::div_mod::lemma_mod_sub_multiples_vanish(a + w, 0xFFFF);
            }
        }
    }
}

proof fn lemma_plain_sum_one_word_changed(b: Seq<u8>, b2: Seq<u8>, j: int, k: nat)
    requires
        b.len() == b2.len(),
        0 <= j,
        2 * k <= b.len() + 1,
        forall|x: int|
            0 <= x < b.len() && x % 2 == 0 && x != 2 * j ==> #[trigger] word_at(b, x) == word_at(b2, x),
    ensures
        plain_sum(b2, k) == plain_sum(b, k) + (if j < k {
            word_at(b2, 2 * j) - word_at(b, 2 * j)
        } else {
            0
        }),
    decreases k,
{
    if k > 0 {
        lemma_plain_sum_one_word_changed(b, b2, j, (k - 1) as nat);
        if 2 * (k - 1) < b.len() && k - 1 != j {
            assert(word_at(b, 2 * (k - 1)) == word_at(b2, 2 * (k - 1)));
        }
    }
}

/// Filling a zeroed 16-bit field (at an even offset) with the checksum of
/// the bytes makes their ones' complement sum all ones: the usual check that
/// a receiver makes.
pub proof fn lemma_checksum_field_sums_to_all_ones(b0: Seq<u8>, i: int)
    requires
        0 <= i,
        i % 2 == 0,
        i + 1 < b0.len(),
        b0[i] == 0,
        b0[i + 1] == 0,
    ensures
        ({
            let c = internet_checksum(b0);
            ones_total(b0.update(i, (c / 256) as u8).update(i + 1, (c % 256) as u8)) == 0xFFFF
        }),
{
    reveal(internet_checksum);
    let n = ((b0.len() + 1) / 2) as nat;
    lemma_ones_sum_bounded(b0, n);
    let c = internet_checksum(b0);
    let b1 = b0.update(i, (c / 256) as u8).update(i + 1, (c % 256) as u8);
    let j = i / 2;
    assert forall|x: int| 0 <= x < b0.len() && x % 2 == 0 && x != 2 * j implies #[trigger] word_at(
        b0,
        x,
    ) == word_at(b1, x) by {
        assert(x != i + 1 && x + 1 != i);
    }
    assert(word_at(b1, 2 * j) == c);
    assert(word_at(b0, 2 * j) == 0);
    lemma_plain_sum_one_word_changed(b0, b1, j, n);
    lemma_ones_sum_is_plain_sum_mod(b0, n);
    lemma_ones_sum_is_plain_sum_mod(b1, n);
    lemma_ones_sum_bounded(b1, n);
    let s0 = ones_sum(b0, n);
    let p0 = plain_sum(b0, n);
    let p1 = plain_sum(b1, n);
    assert(p1 == p0 + c);
    assert(p1 % 0xFFFF == 0) by {
        vstd::arithmetic::div_mod::lemma_add_mod_noop(p0, c, 0xFFFF);
        vstd::arithmetic::div_mod::lemma_add_mod_noop(s0, c, 0xFFFF);
    }
    assert(p1 > 0);
    assert(ones_sum(b1, n) == 0xFFFF);
}

} // verus!
