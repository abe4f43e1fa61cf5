//! Little-endian 32-bit words inside byte buffers, and whole-buffer copies.
//!
//! Every multi-byte integer in a page (header fields and slot entries) is
//! stored as four bytes, least significant first.  The spec function
//! [`le32_at`] is the single definition of that encoding; the exec readers
//! and writers are proved against it.

use vstd::prelude::*;

verus! {

broadcast use vstd::std_specs::vec::axiom_spec_len;

/// The integer encoded little-endian by the four bytes `b[off .. off + 4]`.
pub open spec fn le32_at(b: Seq<u8>, off: int) -> int {
    b[off] + b[off + 1] * 0x100 + b[off + 2] * 0x10000 + b[off + 3] * 0x1000000
}

/// Reads the little-endian 32-bit word at byte offset `off`.
pub fn read_u32_at(data: &Vec<u8>, off: usize) -> (r: u32)
    requires
        off + 4 <= data.len(),
    ensures
        r == le32_at(data@, off as int),
{
    let b0 = data[off] as u32;
    let b1 = data[off + 1] as u32;
    let b2 = data[off + 2] as u32;
    let b3 = data[off + 3] as u32;
    b0 + b1 * 0x100 + b2 * 0x10000 + b3 * 0x1000000
}

/// Writes `v` little-endian into the four bytes at offset `off`,
/// leaving every other byte unchanged.
pub fn write_u32_at(data: &mut Vec<u8>, off: usize, v: u32)
    requires
        off + 4 <= old(data).len(),
    ensures
        final(data)@.len() == old(data)@.len(),
        le32_at(final(data)@, off as int) == v,
        forall|i: int|
            0 <= i < old(data)@.len() && !(off <= i < off + 4) ==> final(data)@[i] == old(
                data,
            )@[i],
{
    let b0 = (v % 0x100) as u8;
    let b1 = ((v / 0x100) % 0x100) as u8;
    let b2 = ((v / 0x10000) % 0x100) as u8;
    let b3 = (v / 0x1000000) as u8;
    data[off] = b0;
    data[off + 1] = b1;
    data[off + 2] = b2;
    data[off + 3] = b3;
    proof {
        assert(v == (v % 0x100) + ((v / 0x100) % 0x100) * 0x100 + ((v / 0x10000) % 0x100) * 0x10000
            + (v / 0x1000000) * 0x1000000) by (bit_vector);
    }
}

/// A fresh copy of the buffer.
pub fn copy_bytes(src: &Vec<u8>) -> (r: Vec<u8>)
    ensures
        r@ == src@,
{
    let mut out: Vec<u8> = Vec::new();
    let mut i: usize = 0;
    while i < src.len()
        invariant
            i <= src@.len(),
            out@ == src@.subrange(0, i as int),
        decreases src@.len() - i,
    {
        out.push(src[i]);
        i = i + 1;
        proof {
            assert(out@ =~= src@.subrange(0, i as int));
        }
    }
    proof {
        assert(out@ =~= src@);
    }
    out
}

/// A fresh copy of `src[from .. to]`.
pub fn copy_range(src: &Vec<u8>, from: usize, to: usize) -> (r: Vec<u8>)
    requires
        from <= to,
        to <= src.len(),
    ensures
        r@ == src@.subrange(from as int, to as int),
{
    let mut out: Vec<u8> = Vec::new();
    let mut i: usize = from;
    while i < to
        invariant
            from <= i <= to,
            to <= src.len(),
            out@.len() == i - from,
            forall|j: int| 0 <= j < out@.len() ==> out@[j] == src@[from + j],
        decreases to - i,
    {
        out.push(src[i]);
        i = i + 1;
    }
    proof {
        assert(out@ =~= src@.subrange(from as int, to as int));
    }
    out
}

/// Copies `src` into `data[at .. at + src.len()]`, leaving the rest unchanged.
pub fn write_bytes_at(data: &mut Vec<u8>, at: usize, src: &[u8])
    requires
        at + src@.len() <= old(data).len(),
    ensures
        final(data)@.len() == old(data)@.len(),
        final(data)@.subrange(at as int, at + src@.len()) == src@,
        forall|i: int|
            0 <= i < old(data)@.len() && !(at <= i < at + src@.len()) ==> final(data)@[i] == old(
                data,
            )@[i],
{
    let mut i: usize = 0;
    while i < src.len()
        invariant
            i <= src@.len(),
            at + src@.len() <= data.len(),
            data@.len() == old(data)@.len(),
            forall|j: int| 0 <= j < i ==> data@[at + j] == src@[j],
            forall|j: int|
                0 <= j < data@.len() && !(at <= j < at + src@.len()) ==> data@[j] == old(
                    data,
                )@[j],
        decreases src@.len() - i,
    {
        data[at + i] = src[i];
        i = i + 1;
    }
    proof {
        assert(final(data)@.subrange(at as int, at + src@.len()) =~= src@);
    }
}

} // verus!
