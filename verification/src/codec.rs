//! Byte-level encoding used inside the component arena: little-endian
//! words at computed offsets, and a two's-complement image of `isize`
//! values in 8 bytes that does not depend on the platform's word width.
use vstd::prelude::*;

verus! {

/// The 64-bit two's-complement image of a signed word.
pub open spec fn int_bits(x: isize) -> u64 {
    if x >= 0 {
        x as u64
    } else {
        (x + 0x1_0000_0000_0000_0000) as u64
    }
}

/// The signed word whose two's-complement image is `b`; meaningful only
/// when `int_bits_valid(b)` holds.
pub open spec fn bits_int(b: u64) -> isize {
    if b <= isize::MAX as u64 {
        b as isize
    } else {
        (b - 0x1_0000_0000_0000_0000) as isize
    }
}

/// `b` is the image of some signed word.
pub open spec fn int_bits_valid(b: u64) -> bool {
    int_bits(bits_int(b)) == b
}

pub proof fn lemma_int_bits_round_trip(x: isize)
    ensures
        bits_int(int_bits(x)) == x,
        int_bits_valid(int_bits(x)),
{
}

/// When a valid image is above the positive range, its decoded word is the
/// image shifted down by one full 64-bit wrap.
pub proof fn lemma_valid_bits_negative(b: u64)
    requires
        int_bits_valid(b),
        b > isize::MAX as u64,
    ensures
        b - 0x1_0000_0000_0000_0000 >= isize::MIN,
        bits_int(b) == b - 0x1_0000_0000_0000_0000,
{
    let v = bits_int(b);
    if v >= 0 {
        assert(int_bits(v) == v as u64);
        assert(false);
    }
}

/// Encodes a signed word into its 64-bit two's-complement image.
pub fn int_to_bits(x: isize) -> (b: u64)
    ensures
        b == int_bits(x),
        int_bits_valid(b),
        bits_int(b) == x,
{
    proof {
        lemma_int_bits_round_trip(x);
    }
    if x >= 0 {
        x as u64
    } else {
        let m: u64 = (-(x + 1)) as u64;
        u64::MAX - m
    }
}

/// Decodes a 64-bit two's-complement image back into the signed word.
pub fn bits_to_int(b: u64) -> (x: isize)
    requires
        int_bits_valid(b),
    ensures
        x == bits_int(b),
{
    if b <= (isize::MAX as u64) {
        b as isize
    } else {
        proof {
            lemma_valid_bits_negative(b);
        }
        let m: u64 = u64::MAX - b;
        -(m as isize) - 1
    }
}

/// Overwrites `buf[off .. off + src.len()]` with `src`, leaving every other
/// byte as it was.
pub fn write_bytes_at(buf: &mut Vec<u8>, off: usize, src: &Vec<u8>)
    requires
        off + src@.len() <= old(buf)@.len(),
    ensures
        final(buf)@.len() == old(buf)@.len(),
        final(buf)@.subrange(off as int, off + src@.len()) == src@,
        forall|j: int|
            0 <= j < old(buf)@.len() && !(off <= j < off + src@.len()) ==> final(buf)@[j] == old(
                buf,
            )@[j],
{
    let n: usize = buf.len();
    let mut k: usize = 0;
    while k < src.len()
        invariant
            k <= src@.len(),
            off + src@.len() <= buf@.len(),
            buf@.len() == n,
            buf@.len() == old(buf)@.len(),
            forall|j: int| 0 <= j < k ==> buf@[off + j] == src@[j],
            forall|j: int|
                0 <= j < buf@.len() && !(off <= j < off + k) ==> buf@[j] == old(buf)@[j],
        decreases src@.len() - k,
    {
        let b: u8 = src[k];
        buf[off + k] = b;
        k = k + 1;
    }
    proof {
        assert(final(buf)@.subrange(off as int, off + src@.len()) =~= src@);
    }
}

/// Writes the little-endian bytes of `x` at `off`.
pub fn write_u64_le_at(buf: &mut Vec<u8>, off: usize, x: u64)
    requires
        off + 8 <= old(buf)@.len(),
    ensures
        final(buf)@.len() == old(buf)@.len(),
        final(buf)@.subrange(off as int, off + 8) == vstd::bytes::spec_u64_to_le_bytes(x),
        forall|j: int|
            0 <= j < old(buf)@.len() && !(off <= j < off + 8) ==> final(buf)@[j] == old(buf)@[j],
{
    proof {
        vstd::bytes::lemma_auto_spec_u64_to_from_le_bytes();
    }
    let bytes: Vec<u8> = vstd::bytes::u64_to_le_bytes(x);
    write_bytes_at(buf, off, &bytes);
}

/// Writes the little-endian bytes of `x` at `off`.
pub fn write_u32_le_at(buf: &mut Vec<u8>, off: usize, x: u32)
    requires
        off + 4 <= old(buf)@.len(),
    ensures
        final(buf)@.len() == old(buf)@.len(),
        final(buf)@.subrange(off as int, off + 4) == vstd::bytes::spec_u32_to_le_bytes(x),
        forall|j: int|
            0 <= j < old(buf)@.len() && !(off <= j < off + 4) ==> final(buf)@[j] == old(buf)@[j],
{
    proof {
        vstd::bytes::lemma_auto_spec_u32_to_from_le_bytes();
    }
    let bytes: Vec<u8> = vstd::bytes::u32_to_le_bytes(x);
    write_bytes_at(buf, off, &bytes);
}

/// Reads the little-endian 64-bit word stored at `off`.
pub fn read_u64_le_at(buf: &Vec<u8>, off: usize) -> (x: u64)
    requires
        off + 8 <= buf@.len(),
    ensures
        x == vstd::bytes::spec_u64_from_le_bytes(buf@.subrange(off as int, off + 8)),
{
    let n: usize = buf.len();
    let mut tmp: Vec<u8> = Vec::new();
    let mut k: usize = 0;
    while k < 8
        invariant
            k <= 8,
            off + 8 <= buf@.len(),
            buf@.len() == n,
            tmp@.len() == k,
            forall|j: int| 0 <= j < k ==> tmp@[j] == buf@[off + j],
        decreases 8 - k,
    {
        let b: u8 = buf[off + k];
        tmp.push(b);
        k = k + 1;
    }
    proof {
        assert(tmp@ =~= buf@.subrange(off as int, off + 8));
    }
    vstd::bytes::u64_from_le_bytes(tmp.as_slice())
}

/// Reads the little-endian 32-bit word stored at `off`.
pub fn read_u32_le_at(buf: &Vec<u8>, off: usize) -> (x: u32)
    requires
        off + 4 <= buf@.len(),
    ensures
        x == vstd::bytes::spec_u32_from_le_bytes(buf@.subrange(off as int, off + 4)),
{
    let n: usize = buf.len();
    let mut tmp: Vec<u8> = Vec::new();
    let mut k: usize = 0;
    while k < 4
        invariant
            k <= 4,
            off + 4 <= buf@.len(),
            buf@.len() == n,
            tmp@.len() == k,
            forall|j: int| 0 <= j < k ==> tmp@[j] == buf@[off + j],
        decreases 4 - k,
    {
        let b: u8 = buf[off + k];
        tmp.push(b);
        k = k + 1;
    }
    proof {
        assert(tmp@ =~= buf@.subrange(off as int, off + 4));
    }
    vstd::bytes::u32_from_le_bytes(tmp.as_slice())
}

} // verus!
