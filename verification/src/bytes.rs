//! Big-endian 64-bit words inside byte strings.

use vstd::prelude::*;

verus! {

/// The eight bytes of `x`, most significant first.
pub open spec fn be64(x: u64) -> Seq<u8> {
    seq![
        ((x >> 56) & 0xff) as u8,
        ((x >> 48) & 0xff) as u8,
        ((x >> 40) & 0xff) as u8,
        ((x >> 32) & 0xff) as u8,
        ((x >> 24) & 0xff) as u8,
        ((x >> 16) & 0xff) as u8,
        ((x >> 8) & 0xff) as u8,
        (x & 0xff) as u8,
    ]
}

/// The word whose big-endian bytes are `b0 .. b7`.
pub open spec fn word_of(b0: u8, b1: u8, b2: u8, b3: u8, b4: u8, b5: u8, b6: u8, b7: u8) -> u64 {
    ((b0 as u64) << 56) | ((b1 as u64) << 48) | ((b2 as u64) << 40) | ((b3 as u64) << 32) | ((b4 as u64)
        << 24) | ((b5 as u64) << 16) | ((b6 as u64) << 8) | (b7 as u64)
}

/// The word read big-endian from the eight bytes of `bytes` that start at `off`.
pub open spec fn be64_at(bytes: Seq<u8>, off: int) -> u64
    recommends
        0 <= off,
        off + 8 <= bytes.len(),
{
    word_of(
        bytes[off],
        bytes[off + 1],
        bytes[off + 2],
        bytes[off + 3],
        bytes[off + 4],
        bytes[off + 5],
        bytes[off + 6],
        bytes[off + 7],
    )
}

/// Reading back the big-endian bytes of a word gives the word.
pub proof fn lemma_be64_round_trip(x: u64)
    ensures
        be64(x).len() == 8,
        be64_at(be64(x), 0) == x,
{
    let b0 = ((x >> 56) & 0xff) as u8;
    let b1 = ((x >> 48) & 0xff) as u8;
    let b2 = ((x >> 40) & 0xff) as u8;
    let b3 = ((x >> 32) & 0xff) as u8;
    let b4 = ((x >> 24) & 0xff) as u8;
    let b5 = ((x >> 16) & 0xff) as u8;
    let b6 = ((x >> 8) & 0xff) as u8;
    let b7 = (x & 0xff) as u8;
    assert(word_of(b0, b1, b2, b3, b4, b5, b6, b7) == x) by (bit_vector)
        requires
            b0 == ((x >> 56) & 0xff) as u8,
            b1 == ((x >> 48) & 0xff) as u8,
            b2 == ((x >> 40) & 0xff) as u8,
            b3 == ((x >> 32) & 0xff) as u8,
            b4 == ((x >> 24) & 0xff) as u8,
            b5 == ((x >> 16) & 0xff) as u8,
            b6 == ((x >> 8) & 0xff) as u8,
            b7 == (x & 0xff) as u8,
    ;
}

/// A word read at an offset depends only on the eight bytes there.
pub proof fn lemma_be64_at_window(whole: Seq<u8>, off: int, part: Seq<u8>)
    requires
        0 <= off,
        off + 8 <= whole.len(),
        part == whole.subrange(off, off + 8),
    ensures
        be64_at(whole, off) == be64_at(part, 0),
{
}

/// XOR with the same mask twice gives the word back.
pub proof fn lemma_xor_twice(mask: u64, x: u64)
    ensures
        mask ^ (mask ^ x) == x,
        (mask ^ x) ^ mask == x,
{
    assert(mask ^ (mask ^ x) == x) by (bit_vector);
    assert((mask ^ x) ^ mask == x) by (bit_vector);
}

/// Appends the big-endian bytes of `x` to `out`.
pub fn put_be64(out: &mut Vec<u8>, x: u64)
    ensures
        final(out)@ == old(out)@ + be64(x),
{
    out.push(((x >> 56) & 0xff) as u8);
    out.push(((x >> 48) & 0xff) as u8);
    out.push(((x >> 40) & 0xff) as u8);
    out.push(((x >> 32) & 0xff) as u8);
    out.push(((x >> 24) & 0xff) as u8);
    out.push(((x >> 16) & 0xff) as u8);
    out.push(((x >> 8) & 0xff) as u8);
    out.push((x & 0xff) as u8);
    assert(out@ =~= old(out)@ + be64(x));
}

/// Reads the big-endian word that starts at `off`.
pub fn get_be64(bytes: &[u8], off: usize) -> (x: u64)
    requires
        off + 8 <= bytes@.len(),
    ensures
        x == be64_at(bytes@, off as int),
{
    let b0: u8 = bytes[off];
    let b1: u8 = bytes[off + 1];
    let b2: u8 = bytes[off + 2];
    let b3: u8 = bytes[off + 3];
    let b4: u8 = bytes[off + 4];
    let b5: u8 = bytes[off + 5];
    let b6: u8 = bytes[off + 6];
    let b7: u8 = bytes[off + 7];
    ((b0 as u64) << 56) | ((b1 as u64) << 48) | ((b2 as u64) << 40) | ((b3 as u64) << 32) | ((b4 as u64)
        << 24) | ((b5 as u64) << 16) | ((b6 as u64) << 8) | (b7 as u64)
}

} // verus!
