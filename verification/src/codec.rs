//! Big-endian 32-bit fields: every number in the container format is stored
//! this way.

use vstd::prelude::*;

verus! {

/// Value of four bytes read as one big-endian 32-bit integer.
pub open spec fn be32(s: Seq<u8>) -> u32
    recommends
        s.len() == 4,
{
    ((s[0] as u32) << 24) | ((s[1] as u32) << 16) | ((s[2] as u32) << 8) | (s[3] as u32)
}

/// The four big-endian bytes of a 32-bit integer.
pub open spec fn be32_bytes(x: u32) -> Seq<u8> {
    seq![(x >> 24) as u8, (x >> 16) as u8, (x >> 8) as u8, x as u8]
}

/// Writing a field and reading it back yields the original value.
pub proof fn lemma_be32_of_be32_bytes(x: u32)
    ensures
        be32(be32_bytes(x)) == x,
{
    assert(((((x >> 24) as u8) as u32) << 24) | ((((x >> 16) as u8) as u32) << 16) | ((((x
        >> 8) as u8) as u32) << 8) | ((x as u8) as u32) == x) by (bit_vector);
}

/// Combines four bytes into the big-endian 32-bit value they spell.
pub fn be32_of(b0: u8, b1: u8, b2: u8, b3: u8) -> (x: u32)
    ensures
        x == be32(seq![b0, b1, b2, b3]),
{
    ((b0 as u32) << 24) | ((b1 as u32) << 16) | ((b2 as u32) << 8) | (b3 as u32)
}

/// Reads the big-endian field that starts at `pos`.
pub fn read_be32(b: &Vec<u8>, pos: usize) -> (x: u32)
    requires
        pos + 4 <= b.len(),
    ensures
        x == be32(b@.subrange(pos as int, pos as int + 4)),
{
    let x0 = b[pos] as u32;
    let x1 = b[pos + 1] as u32;
    let x2 = b[pos + 2] as u32;
    let x3 = b[pos + 3] as u32;
    proof {
        let s = b@.subrange(pos as int, pos as int + 4);
        assert(s[0] == b@[pos as int]);
        assert(s[1] == b@[pos as int + 1]);
        assert(s[2] == b@[pos as int + 2]);
        assert(s[3] == b@[pos as int + 3]);
    }
    (x0 << 24) | (x1 << 16) | (x2 << 8) | x3
}

/// Appends the four big-endian bytes of `x`.
pub fn push_be32(out: &mut Vec<u8>, x: u32)
    ensures
        final(out)@ == old(out)@ + be32_bytes(x),
{
    out.push((x >> 24) as u8);
    out.push((x >> 16) as u8);
    out.push((x >> 8) as u8);
    out.push(x as u8);
    proof {
        assert(out@ =~= old(out)@ + be32_bytes(x));
    }
}

} // verus!
