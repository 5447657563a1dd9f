//! Helpers over byte sequences: big-endian numbers and fixed-size copies.
use vstd::prelude::*;

verus! {

/// The number that two bytes write, most significant first.
pub open spec fn be16(hi: u8, lo: u8) -> nat {
    (hi * 256 + lo) as nat
}

/// The two bytes of a 16-bit number, most significant first.
pub open spec fn be16_bytes(n: nat) -> Seq<u8> {
    seq![(n / 256 % 256) as u8, (n % 256) as u8]
}

/// Combine two bytes, most significant first.
pub fn u16_from_be(hi: u8, lo: u8) -> (r: u16)
    ensures
        r as nat == be16(hi, lo),
{
    hi as u16 * 256 + lo as u16
}

/// Two bytes that write a number give the number back.
pub proof fn lemma_be16_round_trip(n: nat)
    requires
        n < 65536,
    ensures
        be16(be16_bytes(n)[0], be16_bytes(n)[1]) == n,
{
}

/// Append a 16-bit number, most significant byte first.
pub fn push_be16(out: &mut Vec<u8>, n: u16)
    ensures
        final(out)@ == old(out)@ + be16_bytes(n as nat),
{
    out.push((n / 256) as u8);
    out.push((n % 256) as u8);
    assert(out@ == old(out)@ + be16_bytes(n as nat));
}

/// The number that four bytes write, most significant first.
pub open spec fn be32(a: u8, b: u8, c: u8, d: u8) -> nat {
    (be16(a, b) * 65536 + be16(c, d)) as nat
}

/// Combine four bytes, most significant first.
pub fn u32_from_be(a: u8, b: u8, c: u8, d: u8) -> (r: u32)
    ensures
        r as nat == be32(a, b, c, d),
{
    u16_from_be(a, b) as u32 * 65536 + u16_from_be(c, d) as u32
}

/// Append bytes.
pub fn push_bytes(out: &mut Vec<u8>, s: &[u8])
    ensures
        final(out)@ == old(out)@ + s@,
{
    let ghost start = out@;
    let mut i: usize = 0;
    while i < s.len()
        invariant
            i <= s.len(),
            out@ == start + s@.take(i as int),
        decreases s.len() - i,
    {
        out.push(s[i]);
        i += 1;
        assert(s@.take(i as int) == s@.take(i - 1).push(s@[i - 1]));
    }
    assert(s@.take(i as int) == s@);
}

/// A copy of the bytes from `from` up to `to`.
pub fn copy_range(s: &[u8], from: usize, to: usize) -> (r: Vec<u8>)
    requires
        from <= to <= s.len(),
    ensures
        r@ == s@.subrange(from as int, to as int),
{
    let mut r: Vec<u8> = Vec::new();
    push_bytes(&mut r, vstd::slice::slice_subrange(s, from, to));
    assert(r@ == s@.subrange(from as int, to as int));
    r
}

/// The sixteen bytes from `from` on.
pub fn array16(s: &[u8], from: usize) -> (r: [u8; 16])
    requires
        from + 16 <= s.len(),
    ensures
        r@ == s@.subrange(from as int, from + 16),
{
    let mut r: [u8; 16] = [0u8;16];
    let mut i: usize = 0;
    while i < 16
        invariant
            i <= 16,
            from + 16 <= s.len(),
            forall|j: int| 0 <= j < i ==> r@[j] == s@[from + j],
        decreases 16 - i,
    {
        r[i] = s[from + i];
        i += 1;
    }
    assert(r@ == s@.subrange(from as int, from + 16));
    r
}

/// Whether two byte sequences are equal.
pub fn same_bytes(a: &[u8], b: &[u8]) -> (r: bool)
    ensures
        r == (a@ == b@),
{
    if a.len() != b.len() {
        return false;
    }
    let mut i: usize = 0;
    while i < a.len()
        invariant
            i <= a.len(),
            a.len() == b.len(),
            forall|j: int| 0 <= j < i ==> a@[j] == b@[j],
        decreases a.len() - i,
    {
        if a[i] != b[i] {
            return false;
        }
        i += 1;
    }
    assert(a@ == b@);
    true
}

} // verus!
