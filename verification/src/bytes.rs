//! Plain integer/byte conversions, big- and little-endian.

use vstd::prelude::*;

verus! {

/// The two bytes of `x`, most significant first.
pub open spec fn spec_u16_be(x: u16) -> Seq<u8> {
    seq![(x >> 8) as u8, x as u8]
}

/// The two bytes of `x`, least significant first.
pub open spec fn spec_u16_le(x: u16) -> Seq<u8> {
    seq![x as u8, (x >> 8) as u8]
}

/// The four bytes of `x`, most significant first.
pub open spec fn spec_u32_be(x: u32) -> Seq<u8> {
    seq![(x >> 24) as u8, (x >> 16) as u8, (x >> 8) as u8, x as u8]
}

/// The four bytes of `x`, least significant first.
pub open spec fn spec_u32_le(x: u32) -> Seq<u8> {
    seq![x as u8, (x >> 8) as u8, (x >> 16) as u8, (x >> 24) as u8]
}

/// The sixteen bytes of `x`, most significant first.
pub open spec fn spec_u128_be(x: u128) -> Seq<u8> {
    seq![
        (x >> 120) as u8,
        (x >> 112) as u8,
        (x >> 104) as u8,
        (x >> 96) as u8,
        (x >> 88) as u8,
        (x >> 80) as u8,
        (x >> 72) as u8,
        (x >> 64) as u8,
        (x >> 56) as u8,
        (x >> 48) as u8,
        (x >> 40) as u8,
        (x >> 32) as u8,
        (x >> 24) as u8,
        (x >> 16) as u8,
        (x >> 8) as u8,
        x as u8,
    ]
}

/// The u16 read from two bytes, most significant first.
pub open spec fn spec_u16_from_be(b0: u8, b1: u8) -> u16 {
    (((b0 as u16) << 8) | (b1 as u16)) as u16
}

/// The u32 read from four bytes, most significant first.
pub open spec fn spec_u32_from_be(b0: u8, b1: u8, b2: u8, b3: u8) -> u32 {
    (((b0 as u32) << 24) | ((b1 as u32) << 16) | ((b2 as u32) << 8) | (b3 as u32)) as u32
}

/// The u32 read from four bytes, least significant first.
pub open spec fn spec_u32_from_le(b0: u8, b1: u8, b2: u8, b3: u8) -> u32 {
    spec_u32_from_be(b3, b2, b1, b0)
}

/// Appends the two bytes of `x`, most significant first.
pub fn push_u16_be(v: &mut Vec<u8>, x: u16)
    ensures
        final(v)@ == old(v)@ + spec_u16_be(x),
{
    v.push((x >> 8) as u8);
    v.push(x as u8);
    proof {
        assert(v@ =~= old(v)@ + spec_u16_be(x));
    }
}

/// Appends the two bytes of `x`, least significant first.
pub fn push_u16_le(v: &mut Vec<u8>, x: u16)
    ensures
        final(v)@ == old(v)@ + spec_u16_le(x),
{
    v.push(x as u8);
    v.push((x >> 8) as u8);
    proof {
        assert(v@ =~= old(v)@ + spec_u16_le(x));
    }
}

/// Appends the four bytes of `x`, most significant first.
pub fn push_u32_be(v: &mut Vec<u8>, x: u32)
    ensures
        final(v)@ == old(v)@ + spec_u32_be(x),
{
    v.push((x >> 24) as u8);
    v.push((x >> 16) as u8);
    v.push((x >> 8) as u8);
    v.push(x as u8);
    proof {
        assert(v@ =~= old(v)@ + spec_u32_be(x));
    }
}

/// Appends the four bytes of `x`, least significant first.
pub fn push_u32_le(v: &mut Vec<u8>, x: u32)
    ensures
        final(v)@ == old(v)@ + spec_u32_le(x),
{
    v.push(x as u8);
    v.push((x >> 8) as u8);
    v.push((x >> 16) as u8);
    v.push((x >> 24) as u8);
    proof {
        assert(v@ =~= old(v)@ + spec_u32_le(x));
    }
}

/// Appends the sixteen bytes of `x`, most significant first.
pub fn push_u128_be(v: &mut Vec<u8>, x: u128)
    ensures
        final(v)@ == old(v)@ + spec_u128_be(x),
{
    v.push((x >> 120) as u8);
    v.push((x >> 112) as u8);
    v.push((x >> 104) as u8);
    v.push((x >> 96) as u8);
    v.push((x >> 88) as u8);
    v.push((x >> 80) as u8);
    v.push((x >> 72) as u8);
    v.push((x >> 64) as u8);
    v.push((x >> 56) as u8);
    v.push((x >> 48) as u8);
    v.push((x >> 40) as u8);
    v.push((x >> 32) as u8);
    v.push((x >> 24) as u8);
    v.push((x >> 16) as u8);
    v.push((x >> 8) as u8);
    v.push(x as u8);
    proof {
        assert(v@ =~= old(v)@ + spec_u128_be(x));
    }
}

/// Reading two big-endian bytes back gives the encoded value.
pub proof fn lemma_u16_be_round_trip(x: u16)
    ensures
        spec_u16_from_be(spec_u16_be(x)[0], spec_u16_be(x)[1]) == x,
{
    assert(((((x >> 8) as u8) as u16) << 8 | ((x as u8) as u16)) as u16 == x) by (bit_vector);
}

/// Reads a u16 from two bytes, most significant first.
pub fn u16_from_be(b0: u8, b1: u8) -> (r: u16)
    ensures
        r == spec_u16_from_be(b0, b1),
{
    ((b0 as u16) << 8u16) | (b1 as u16)
}

/// Reads a u32 from four bytes, most significant first.
pub fn u32_from_be(b0: u8, b1: u8, b2: u8, b3: u8) -> (r: u32)
    ensures
        r == spec_u32_from_be(b0, b1, b2, b3),
{
    ((b0 as u32) << 24u32) | ((b1 as u32) << 16u32) | ((b2 as u32) << 8u32) | (b3 as u32)
}

/// Reads a u32 from four bytes, least significant first.
pub fn u32_from_le(b0: u8, b1: u8, b2: u8, b3: u8) -> (r: u32)
    ensures
        r == spec_u32_from_le(b0, b1, b2, b3),
{
    u32_from_be(b3, b2, b1, b0)
}

/// The u128 read from sixteen bytes, most significant first.
pub open spec fn spec_u128_from_be(b: Seq<u8>) -> u128
    decreases b.len(),
{
    if b.len() == 0 {
        0u128
    } else {
        ((spec_u128_from_be(b.drop_last()) << 8) | (b.last() as u128)) as u128
    }
}

/// Reads a u128 from sixteen bytes of a slice, most significant first.
pub fn u128_from_be_slice(b: &[u8], offset: usize) -> (r: u128)
    requires
        offset + 16 <= b@.len(),
    ensures
        r == spec_u128_from_be(b@.subrange(offset as int, offset + 16)),
{
    let blen: usize = b.len();
    let mut r: u128 = 0;
    let mut i: usize = 0;
    while i < 16
        invariant
            i <= 16,
            blen == b@.len(),
            offset + 16 <= b@.len(),
            r == spec_u128_from_be(b@.subrange(offset as int, offset + i)),
        decreases 16 - i,
    {
        let ghost prefix = b@.subrange(offset as int, offset + i);
        r = (r << 8u128) | (b[offset + i] as u128);
        proof {
            let prefix2 = b@.subrange(offset as int, offset + i + 1);
            assert(prefix2.drop_last() =~= prefix);
            assert(prefix2.last() == b@[offset + i]);
        }
        i = i + 1;
    }
    proof {
        assert(b@.subrange(offset as int, offset + 16) == b@.subrange(
            offset as int,
            offset + 16,
        ));
    }
    r
}

} // verus!
