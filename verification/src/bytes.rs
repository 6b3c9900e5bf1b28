//! Big-endian numbers in byte sequences.

use vstd::prelude::*;

verus! {

/// The number with the high byte `hi` and the low byte `lo`.
pub open spec fn be16(hi: u8, lo: u8) -> int {
    hi * 256 + lo
}

/// The two bytes of `n`, the high byte first.
pub open spec fn be16_bytes(n: u16) -> Seq<u8> {
    seq![(n / 256) as u8, (n % 256) as u8]
}

/// The number with the high byte `hi` and the low byte `lo`.
pub fn read_be16(hi: u8, lo: u8) -> (r: u16)
    ensures
        r == be16(hi, lo),
{
    hi as u16 * 256 + lo as u16
}

/// Appends the two bytes of `n` to `out`, the high byte first.
pub fn push_be16(out: &mut Vec<u8>, n: u16)
    ensures
        final(out)@ == old(out)@ + be16_bytes(n),
{
    out.push((n / 256) as u8);
    out.push((n % 256) as u8);
    assert(out@ =~= old(out)@ + be16_bytes(n));
}

/// The four bytes of `n`, the high byte first.
pub open spec fn be32_bytes(n: u32) -> Seq<u8> {
    seq![
        (n / 0x100_0000) as u8,
        (n / 0x1_0000 % 0x100) as u8,
        (n / 0x100 % 0x100) as u8,
        (n % 0x100) as u8,
    ]
}

/// The number in the four bytes of `p` at `at`.
pub open spec fn be32_at(p: Seq<u8>, at: int) -> int {
    p[at] * 0x100_0000 + p[at + 1] * 0x1_0000 + p[at + 2] * 0x100 + p[at + 3]
}

/// What is written in two bytes reads back as the same number.
pub proof fn lemma_be16(n: u16)
    ensures
        be16(be16_bytes(n)[0], be16_bytes(n)[1]) == n,
{
}

/// What is written in four bytes reads back as the same number.
pub proof fn lemma_be32(n: u32)
    ensures
        be32_at(be32_bytes(n), 0) == n,
{
    let a = n / 0x100_0000;
    let b = n / 0x1_0000 % 0x100;
    let c = n / 0x100 % 0x100;
    let d = n % 0x100;
    assert(a <= 0xff && b <= 0xff && c <= 0xff && d <= 0xff);
    assert(n / 0x1_0000 == a * 0x100 + b);
    assert(n / 0x100 == (a * 0x100 + b) * 0x100 + c);
    assert(n == ((a * 0x100 + b) * 0x100 + c) * 0x100 + d);
}

/// Appends `bytes` to `out`.
pub fn push_all(out: &mut Vec<u8>, bytes: &[u8])
    ensures
        final(out)@ == old(out)@ + bytes@,
{
    let mut i: usize = 0;
    while i < bytes.len()
        invariant
            i <= bytes.len(),
            out@ == old(out)@ + bytes@.take(i as int),
        decreases bytes.len() - i,
    {
        out.push(bytes[i]);
        assert(out@ =~= old(out)@ + bytes@.take(i + 1));
        i = i + 1;
    }
    assert(bytes@.take(bytes@.len() as int) =~= bytes@);
    assert(out@ =~= old(out)@ + bytes@);
}

} // verus!
