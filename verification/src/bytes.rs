//! Big-endian integer fields of a byte buffer.
//!
//! Every multi-byte integer in an ISO-BMFF file is stored big-endian.  The
//! spec function [`be_uint`] gives the mathematical value of an `n`-byte
//! big-endian field, and the executable readers are proved to return exactly
//! that value.

use vstd::prelude::*;

verus! {

/// The value of the `n`-byte big-endian integer stored in `s` at `pos`.
pub open spec fn be_uint(s: Seq<u8>, pos: int, n: int) -> int
    decreases n,
{
    if n <= 0 {
        0
    } else {
        be_uint(s, pos, n - 1) * 256 + s[pos + n - 1]
    }
}

/// `256^n`, the number of values an `n`-byte field can take.
pub open spec fn pow256(n: int) -> int
    decreases n,
{
    if n <= 0 {
        1
    } else {
        256 * pow256(n - 1)
    }
}

/// An `n`-byte big-endian field holds a value in `[0, 256^n)`.
pub proof fn lemma_be_uint_bounds(s: Seq<u8>, pos: int, n: int)
    requires
        0 <= pos,
        pos + n <= s.len(),
        0 <= n,
    ensures
        0 <= be_uint(s, pos, n) < pow256(n),
    decreases n,
{
    if n > 0 {
        lemma_be_uint_bounds(s, pos, n - 1);
    }
}

/// The two's-complement reading of an unsigned 32-bit value.
pub open spec fn as_signed32(v: int) -> int {
    if v < 0x8000_0000 {
        v
    } else {
        v - 0x1_0000_0000
    }
}

/// Reads the 2-byte big-endian integer at `pos`.
pub fn be_u16(data: &Vec<u8>, pos: usize) -> (r: u16)
    requires
        pos + 2 <= data.len(),
    ensures
        r == be_uint(data@, pos as int, 2),
{
    proof {
        reveal_with_fuel(be_uint, 3);
        lemma_be_uint_bounds(data@, pos as int, 2);
    }
    (data[pos] as u16) * 256 + (data[pos + 1] as u16)
}

/// Reads the 3-byte big-endian integer at `pos`.
pub fn be_u24(data: &Vec<u8>, pos: usize) -> (r: u32)
    requires
        pos + 3 <= data.len(),
    ensures
        r == be_uint(data@, pos as int, 3),
{
    proof {
        reveal_with_fuel(be_uint, 4);
        lemma_be_uint_bounds(data@, pos as int, 3);
    }
    let b0 = data[pos] as u32;
    let b1 = data[pos + 1] as u32;
    let b2 = data[pos + 2] as u32;
    (b0 * 256 + b1) * 256 + b2
}

/// Reads the 4-byte big-endian integer at `pos`.
pub fn be_u32(data: &Vec<u8>, pos: usize) -> (r: u32)
    requires
        pos + 4 <= data.len(),
    ensures
        r == be_uint(data@, pos as int, 4),
{
    proof {
        reveal_with_fuel(be_uint, 5);
        lemma_be_uint_bounds(data@, pos as int, 4);
    }
    let b0 = data[pos] as u32;
    let b1 = data[pos + 1] as u32;
    let b2 = data[pos + 2] as u32;
    let b3 = data[pos + 3] as u32;
    ((b0 * 256 + b1) * 256 + b2) * 256 + b3
}

/// Reads the 8-byte big-endian integer at `pos`.
pub fn be_u64(data: &Vec<u8>, pos: usize) -> (r: u64)
    requires
        pos + 8 <= data.len(),
    ensures
        r == be_uint(data@, pos as int, 8),
{
    proof {
        reveal_with_fuel(be_uint, 9);
        lemma_be_uint_bounds(data@, pos as int, 8);
    }
    let mut r: u64 = 0;
    r = r * 256 + (data[pos] as u64);
    r = r * 256 + (data[pos + 1] as u64);
    r = r * 256 + (data[pos + 2] as u64);
    r = r * 256 + (data[pos + 3] as u64);
    r = r * 256 + (data[pos + 4] as u64);
    r = r * 256 + (data[pos + 5] as u64);
    r = r * 256 + (data[pos + 6] as u64);
    r = r * 256 + (data[pos + 7] as u64);
    r
}

/// Copies `data[off .. off + len]` into a fresh vector.
pub fn copy_range(data: &Vec<u8>, off: usize, len: usize) -> (r: Vec<u8>)
    requires
        off + len <= data.len(),
    ensures
        r@ == data@.subrange(off as int, off as int + len as int),
{
    let mut r: Vec<u8> = Vec::new();
    let mut i: usize = 0;
    while i < len
        invariant
            i <= len,
            off + len <= data.len(),
            r@ =~= data@.subrange(off as int, off as int + i as int),
        decreases len - i,
    {
        r.push(data[off + i]);
        i = i + 1;
        proof {
            assert(r@ =~= data@.subrange(off as int, off as int + i as int));
        }
    }
    proof {
        assert(r@ =~= data@.subrange(off as int, off as int + len as int));
    }
    r
}

/// Reinterprets an unsigned 32-bit value as signed (two's complement).
pub fn to_signed32(u: u32) -> (r: i32)
    ensures
        r == as_signed32(u as int),
{
    if u >= 0x8000_0000 {
        -((u32::MAX - u) as i32) - 1
    } else {
        u as i32
    }
}

/// Reads the 4-byte big-endian field at `pos` as a signed (two's-complement)
/// 32-bit integer.
pub fn be_i32(data: &Vec<u8>, pos: usize) -> (r: i32)
    requires
        pos + 4 <= data.len(),
    ensures
        r == as_signed32(be_uint(data@, pos as int, 4)),
{
    let u = be_u32(data, pos);
    proof {
        lemma_be_uint_bounds(data@, pos as int, 4);
        reveal_with_fuel(pow256, 5);
    }
    if u >= 0x8000_0000 {
        -((u32::MAX - u) as i32) - 1
    } else {
        u as i32
    }
}

} // verus!
