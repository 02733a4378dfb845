use vstd::prelude::*;

verus! {

/// The four little-endian bytes of `x`.
pub open spec fn le32(x: u32) -> Seq<u8> {
    seq![
        (x % 256) as u8,
        ((x / 256) % 256) as u8,
        ((x / 65536) % 256) as u8,
        ((x / 16777216) % 256) as u8,
    ]
}

/// The two little-endian bytes of `x`.
pub open spec fn le16(x: u16) -> Seq<u8> {
    seq![(x % 256) as u8, ((x / 256) % 256) as u8]
}

/// The value of four little-endian bytes.
pub open spec fn le_value(b: Seq<u8>) -> nat
    recommends
        b.len() == 4,
{
    b[0] as nat + b[1] as nat * 256 + b[2] as nat * 65536 + b[3] as nat * 16777216
}

/// Appends the little-endian bytes of `x`.
pub fn push_u32_le(buf: &mut Vec<u8>, x: u32)
    ensures
        final(buf)@ == old(buf)@ + le32(x),
{
    buf.push((x % 256) as u8);
    buf.push(((x / 256) % 256) as u8);
    buf.push(((x / 65536) % 256) as u8);
    buf.push(((x / 16777216) % 256) as u8);
    assert(buf@ =~= old(buf)@ + le32(x));
}

/// Appends the little-endian bytes of `x`.
pub fn push_u16_le(buf: &mut Vec<u8>, x: u16)
    ensures
        final(buf)@ == old(buf)@ + le16(x),
{
    buf.push((x % 256) as u8);
    buf.push(((x / 256) % 256) as u8);
    assert(buf@ =~= old(buf)@ + le16(x));
}

/// Appends every byte of `b`.
pub fn push_bytes(buf: &mut Vec<u8>, b: &[u8])
    ensures
        final(buf)@ == old(buf)@ + b@,
{
    let mut k: usize = 0;
    while k < b.len()
        invariant
            0 <= k <= b@.len(),
            buf@ == old(buf)@ + b@.take(k as int),
        decreases b@.len() - k,
    {
        buf.push(b[k]);
        k += 1;
        assert(buf@ =~= old(buf)@ + b@.take(k as int));
    }
    assert(b@.take(b@.len() as int) =~= b@);
}

/// Overwrites the four bytes at `at` with the little-endian bytes of `x`.
pub fn set_u32_le(buf: &mut Vec<u8>, at: usize, x: u32)
    requires
        at + 4 <= old(buf)@.len(),
    ensures
        final(buf)@ == old(buf)@.take(at as int) + le32(x) + old(buf)@.skip(at + 4),
{
    let len = buf.len();
    assert(at + 4 <= len);
    buf.set(at, (x % 256) as u8);
    buf.set(at + 1, ((x / 256) % 256) as u8);
    buf.set(at + 2, ((x / 65536) % 256) as u8);
    buf.set(at + 3, ((x / 16777216) % 256) as u8);
    assert(buf@ =~= old(buf)@.take(at as int) + le32(x) + old(buf)@.skip(at + 4));
}

/// Reads the little-endian word at `offset`.
pub fn read_u32_le(from: &[u8], offset: usize) -> (r: u32)
    requires
        offset + 4 <= from@.len(),
    ensures
        r as nat == le_value(from@.subrange(offset as int, offset + 4)),
{
    let b0 = from[offset] as u32;
    let b1 = from[offset + 1] as u32;
    let b2 = from[offset + 2] as u32;
    let b3 = from[offset + 3] as u32;
    b0 + b1 * 256 + b2 * 65536 + b3 * 16777216
}

} // verus!
