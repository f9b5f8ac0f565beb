//! Integers as big-endian and little-endian bytes.

use vstd::prelude::*;

verus! {

/// The low two bytes of `n`, high byte first.
pub open spec fn be16(n: nat) -> Seq<u8> {
    seq![(n / 0x100 % 0x100) as u8, (n % 0x100) as u8]
}

/// The low four bytes of `n`, high byte first.
pub open spec fn be32(n: nat) -> Seq<u8> {
    seq![
        (n / 0x100_0000 % 0x100) as u8,
        (n / 0x1_0000 % 0x100) as u8,
        (n / 0x100 % 0x100) as u8,
        (n % 0x100) as u8,
    ]
}

/// The low four bytes of `n`, low byte first.
pub open spec fn le32(n: nat) -> Seq<u8> {
    seq![
        (n % 0x100) as u8,
        (n / 0x100 % 0x100) as u8,
        (n / 0x1_0000 % 0x100) as u8,
        (n / 0x100_0000 % 0x100) as u8,
    ]
}

/// The number that four bytes write, high byte first.
pub open spec fn be32_value(b: Seq<u8>) -> nat {
    (b[0] * 0x100_0000 + b[1] * 0x1_0000 + b[2] * 0x100 + b[3]) as nat
}

/// The number that four bytes write, low byte first.
pub open spec fn le32_value(b: Seq<u8>) -> nat {
    (b[3] * 0x100_0000 + b[2] * 0x1_0000 + b[1] * 0x100 + b[0]) as nat
}

/// Reading four bytes gives back the number they were written from.
pub proof fn be32_reads_back(n: nat)
    requires
        n < 0x1_0000_0000,
    ensures
        be32_value(be32(n)) == n,
{
}

/// Reading four bytes gives back the number they were written from.
pub proof fn le32_reads_back(n: nat)
    requires
        n < 0x1_0000_0000,
    ensures
        le32_value(le32(n)) == n,
{
}

/// Append the low two bytes of `n`, high byte first.
pub fn push_be16(out: &mut Vec<u8>, n: u64)
    ensures
        final(out)@ == old(out)@ + be16(n as nat),
{
    out.push((n / 0x100 % 0x100) as u8);
    out.push((n % 0x100) as u8);
    assert(out@ =~= old(out)@ + be16(n as nat));
}

/// Append the low four bytes of `n`, high byte first.
pub fn push_be32(out: &mut Vec<u8>, n: u64)
    ensures
        final(out)@ == old(out)@ + be32(n as nat),
{
    out.push((n / 0x100_0000 % 0x100) as u8);
    out.push((n / 0x1_0000 % 0x100) as u8);
    out.push((n / 0x100 % 0x100) as u8);
    out.push((n % 0x100) as u8);
    assert(out@ =~= old(out)@ + be32(n as nat));
}

/// Append the low four bytes of `n`, low byte first.
pub fn push_le32(out: &mut Vec<u8>, n: u64)
    ensures
        final(out)@ == old(out)@ + le32(n as nat),
{
    out.push((n % 0x100) as u8);
    out.push((n / 0x100 % 0x100) as u8);
    out.push((n / 0x1_0000 % 0x100) as u8);
    out.push((n / 0x100_0000 % 0x100) as u8);
    assert(out@ =~= old(out)@ + le32(n as nat));
}

/// Append the bytes of `b` from `from` on.
pub fn push_bytes(out: &mut Vec<u8>, b: &[u8], from: usize)
    requires
        from <= b@.len(),
    ensures
        final(out)@ == old(out)@ + b@.skip(from as int),
{
    let mut i: usize = from;
    while i < b.len()
        invariant
            from <= i <= b@.len(),
            out@ == old(out)@ + b@.subrange(from as int, i as int),
        decreases b@.len() - i,
    {
        out.push(b[i]);
        i += 1;
        assert(out@ =~= old(out)@ + b@.subrange(from as int, i as int));
    }
    assert(out@ =~= old(out)@ + b@.skip(from as int));
}

/// High byte first, every byte weighs 256 of the next, and together they come
/// to the number; low byte first, the same bytes stand the other way round.
pub proof fn bytes_weigh_by_their_order(n: nat)
    requires
        n < 0x1_0000_0000,
    ensures
        be32(n).len() == 4,
        le32(n).len() == 4,
        ((be32(n)[0] * 256 + be32(n)[1]) * 256 + be32(n)[2]) * 256 + be32(n)[3] == n,
        ((le32(n)[3] * 256 + le32(n)[2]) * 256 + le32(n)[1]) * 256 + le32(n)[0] == n,
        n < 0x1_0000 ==> be16(n).len() == 2 && be16(n)[0] * 256 + be16(n)[1] == n,
{
}

/// Four bytes are read as they are written: the first weighs most high byte
/// first, and the last weighs most low byte first.
pub proof fn bytes_are_read_by_their_order(b: Seq<u8>)
    requires
        b.len() == 4,
    ensures
        be32_value(b) == ((b[0] * 256 + b[1]) * 256 + b[2]) * 256 + b[3],
        le32_value(b) == ((b[3] * 256 + b[2]) * 256 + b[1]) * 256 + b[0],
{
}

} // verus!
