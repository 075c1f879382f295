//! Little-endian encoding of 4-byte jump addresses inside the bytecode.

use vstd::prelude::*;

verus! {

/// The four bytes of `x`, least significant first.
pub open spec fn le4(x: u32) -> Seq<u8> {
    seq![
        (x & 0xff) as u8,
        ((x >> 8) & 0xff) as u8,
        ((x >> 16) & 0xff) as u8,
        ((x >> 24) & 0xff) as u8,
    ]
}

/// The value read from four bytes, least significant first.
pub open spec fn le4_val(b0: u8, b1: u8, b2: u8, b3: u8) -> u32 {
    (b0 as u32) | ((b1 as u32) << 8) | ((b2 as u32) << 16) | ((b3 as u32) << 24)
}

/// `s` with the four bytes at `pos` replaced by the little-endian form of `x`.
pub open spec fn store_le4(s: Seq<u8>, pos: int, x: u32) -> Seq<u8> {
    s.update(pos, le4(x)[0]).update(pos + 1, le4(x)[1]).update(pos + 2, le4(x)[2]).update(
        pos + 3,
        le4(x)[3],
    )
}

/// Reading back the four little-endian bytes of `x` yields `x`.
pub proof fn lemma_le4_roundtrip(x: u32)
    ensures
        le4_val(le4(x)[0], le4(x)[1], le4(x)[2], le4(x)[3]) == x,
{
    assert((((x & 0xff) as u8) as u32) | ((((x >> 8) & 0xff) as u8) as u32) << 8 | ((((x >> 16)
        & 0xff) as u8) as u32) << 16 | ((((x >> 24) & 0xff) as u8) as u32) << 24 == x)
        by (bit_vector);
}

/// Appends the little-endian form of `x` to `v`.
pub fn push_le4(v: &mut Vec<u8>, x: u32)
    ensures
        final(v)@ == old(v)@ + le4(x),
{
    proof {
        assert(x & 0xff < 256 && (x >> 8) & 0xff < 256 && (x >> 16) & 0xff < 256 && (x >> 24)
            & 0xff < 256) by (bit_vector);
    }
    v.push((x & 0xff) as u8);
    v.push(((x >> 8) & 0xff) as u8);
    v.push(((x >> 16) & 0xff) as u8);
    v.push(((x >> 24) & 0xff) as u8);
    proof {
        assert(v@ =~= old(v)@ + le4(x));
    }
}

/// Overwrites the four bytes at `pos` with the little-endian form of `x`.
pub fn write_le4_at(v: &mut Vec<u8>, pos: usize, x: u32)
    requires
        pos + 4 <= old(v).len(),
    ensures
        final(v)@ == store_le4(old(v)@, pos as int, x),
{
    proof {
        assert(x & 0xff < 256 && (x >> 8) & 0xff < 256 && (x >> 16) & 0xff < 256 && (x >> 24)
            & 0xff < 256) by (bit_vector);
    }
    v[pos] = (x & 0xff) as u8;
    v[pos + 1] = ((x >> 8) & 0xff) as u8;
    v[pos + 2] = ((x >> 16) & 0xff) as u8;
    v[pos + 3] = ((x >> 24) & 0xff) as u8;
}

/// Reads the 4-byte little-endian value at `pos`.
pub fn read_le4(v: &Vec<u8>, pos: usize) -> (r: u32)
    requires
        pos + 4 <= v.len(),
    ensures
        r == le4_val(v@[pos as int], v@[pos as int + 1], v@[pos as int + 2], v@[pos as int + 3]),
{
    let b0 = v[pos];
    let b1 = v[pos + 1];
    let b2 = v[pos + 2];
    let b3 = v[pos + 3];
    (b0 as u32) | ((b1 as u32) << 8) | ((b2 as u32) << 16) | ((b3 as u32) << 24)
}

} // verus!
