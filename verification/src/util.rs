//! The hex-window helper: a byte range of the input rendered as lowercase,
//! space-free hexadecimal text, clamped to the end of the data.

use vstd::prelude::*;
use crate::strings::{hex_of_bytes, push_hex_range};

verus! {

/// A rendered hex window: where it starts, how many bytes it actually
/// covers, and their hexadecimal text.
pub struct HexDump {
    pub offset: u64,
    pub length: u64,
    pub hex: String,
}

/// How many bytes a request for `length` bytes at `offset` actually yields
/// from `len` bytes of data: the request clamped to the end of the data.
pub open spec fn spec_clamped_len(len: int, offset: int, length: int) -> int {
    if offset >= len {
        0
    } else if offset + length > len {
        len - offset
    } else {
        length
    }
}

/// Renders up to `length` bytes of `data` starting at `offset` as lowercase
/// hexadecimal.
///
/// The returned `length` is the request clamped to the end of the data, and
/// `hex` holds exactly two lowercase digits per byte of
/// `data[offset .. offset + length]`, with no separators.  The result is a
/// function of the arguments alone, so equal calls return equal dumps
/// (see [`lemma_hex_range_idempotent`]).
pub fn hex_range(data: &Vec<u8>, offset: u64, length: u64) -> (r: HexDump)
    ensures
        r.offset == offset,
        r.length == spec_clamped_len(data.len() as int, offset as int, length as int),
        r.hex@ == hex_of_bytes(
            data@.subrange(
                if offset as int <= data.len() {
                    offset as int
                } else {
                    data.len() as int
                },
                (if offset as int <= data.len() {
                    offset as int
                } else {
                    data.len() as int
                }) + spec_clamped_len(data.len() as int, offset as int, length as int),
            ),
        ),
{
    let len = data.len();
    let start: usize = if offset >= len as u64 {
        len
    } else {
        offset as usize
    };
    let count: usize = if offset >= len as u64 {
        0
    } else if length > (len - start) as u64 {
        len - start
    } else {
        length as usize
    };
    let mut hex = String::new();
    push_hex_range(&mut hex, data, start, count);
    proof {
        assert(hex@ =~= hex_of_bytes(
            data@.subrange(start as int, start as int + count as int),
        ));
    }
    HexDump { offset, length: count as u64, hex }
}

/// Calling [`hex_range`] twice with the same data, offset and length gives
/// identical `offset`, `length` and `hex`: the contract pins each field to a
/// function of the arguments, so any two results that satisfy it are equal.
pub proof fn lemma_hex_range_idempotent(
    data: Seq<u8>,
    offset: int,
    length: int,
    r1: (int, int, Seq<char>),
    r2: (int, int, Seq<char>),
)
    requires
        ({
            let start = if offset <= data.len() {
                offset
            } else {
                data.len() as int
            };
            let n = spec_clamped_len(data.len() as int, offset, length);
            r1 == (offset, n, hex_of_bytes(data.subrange(start, start + n)))
        }),
        ({
            let start = if offset <= data.len() {
                offset
            } else {
                data.len() as int
            };
            let n = spec_clamped_len(data.len() as int, offset, length);
            r2 == (offset, n, hex_of_bytes(data.subrange(start, start + n)))
        }),
    ensures
        r1 == r2,
{
}

/// The clamping law of [`hex_range`]: the returned length is the minimum of
/// the requested length and the bytes remaining past `offset` (zero when
/// `offset` is at or past the end).
pub proof fn lemma_hex_range_clamps(len: int, offset: int, length: int)
    requires
        0 <= len,
        0 <= offset,
        0 <= length,
    ensures
        offset <= len ==> spec_clamped_len(len, offset, length) == (if length <= len - offset {
            length
        } else {
            len - offset
        }),
        offset > len ==> spec_clamped_len(len, offset, length) == 0,
        spec_clamped_len(len, offset, length) <= length,
{
}

} // verus!
