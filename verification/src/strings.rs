//! Text rendering: hexadecimal and decimal digit strings, and display names
//! for four-character codes.
//!
//! Every rendered string is pinned down character by character by a spec
//! function, so callers can reason about the exact text produced.

use vstd::prelude::*;

verus! {

/// Relies on `String::push`: appends the given character to the end of the
/// string.
#[verifier::external_body]
pub(crate) fn push_char(s: &mut String, c: char)
    ensures
        final(s)@ == old(s)@.push(c),
{
    s.push(c);
}

/// The lowercase hexadecimal digit for a value below 16.
pub open spec fn hex_digit(n: int) -> char {
    if n == 0 {
        '0'
    } else if n == 1 {
        '1'
    } else if n == 2 {
        '2'
    } else if n == 3 {
        '3'
    } else if n == 4 {
        '4'
    } else if n == 5 {
        '5'
    } else if n == 6 {
        '6'
    } else if n == 7 {
        '7'
    } else if n == 8 {
        '8'
    } else if n == 9 {
        '9'
    } else if n == 10 {
        'a'
    } else if n == 11 {
        'b'
    } else if n == 12 {
        'c'
    } else if n == 13 {
        'd'
    } else if n == 14 {
        'e'
    } else {
        'f'
    }
}

/// The two lowercase hexadecimal digits of one byte.
pub open spec fn hex_pair(b: u8) -> Seq<char> {
    seq![hex_digit(b as int / 16), hex_digit(b as int % 16)]
}

/// The lowercase, space-free hexadecimal rendering of a byte sequence.
pub open spec fn hex_of_bytes(s: Seq<u8>) -> Seq<char>
    decreases s.len(),
{
    if s.len() == 0 {
        Seq::empty()
    } else {
        hex_of_bytes(s.drop_last()) + hex_pair(s.last())
    }
}

/// The decimal digit for a value below 10.
pub open spec fn dec_digit(n: int) -> char {
    hex_digit(if 0 <= n < 10 {
        n
    } else {
        0
    })
}

/// The decimal rendering of a non-negative integer, without leading zeros
/// (a single `'0'` for zero).
pub open spec fn dec_of(n: int) -> Seq<char>
    decreases n,
{
    if n < 10 {
        seq![dec_digit(n)]
    } else {
        dec_of(n / 10) + seq![dec_digit(n % 10)]
    }
}

fn hex_digit_char(n: u8) -> (c: char)
    requires
        n < 16,
    ensures
        c == hex_digit(n as int),
{
    if n == 0 {
        '0'
    } else if n == 1 {
        '1'
    } else if n == 2 {
        '2'
    } else if n == 3 {
        '3'
    } else if n == 4 {
        '4'
    } else if n == 5 {
        '5'
    } else if n == 6 {
        '6'
    } else if n == 7 {
        '7'
    } else if n == 8 {
        '8'
    } else if n == 9 {
        '9'
    } else if n == 10 {
        'a'
    } else if n == 11 {
        'b'
    } else if n == 12 {
        'c'
    } else if n == 13 {
        'd'
    } else if n == 14 {
        'e'
    } else {
        'f'
    }
}

/// Appends the two hexadecimal digits of `b` to `s`.
pub fn push_hex_byte(s: &mut String, b: u8)
    ensures
        final(s)@ == old(s)@ + hex_pair(b),
{
    let ghost s0 = s@;
    push_char(s, hex_digit_char(b / 16));
    push_char(s, hex_digit_char(b % 16));
    proof {
        assert(s@ =~= s0 + hex_pair(b));
    }
}

/// Appends the hexadecimal rendering of `data[off .. off + len]` to `s`.
pub fn push_hex_range(s: &mut String, data: &Vec<u8>, off: usize, len: usize)
    requires
        off + len <= data.len(),
    ensures
        final(s)@ == old(s)@ + hex_of_bytes(data@.subrange(off as int, off as int + len as int)),
{
    let ghost s0 = s@;
    let mut i: usize = 0;
    while i < len
        invariant
            off + len <= data.len(),
            i <= len,
            s@ == s0 + hex_of_bytes(data@.subrange(off as int, off as int + i as int)),
        decreases len - i,
    {
        let ghost pre = data@.subrange(off as int, off as int + i as int);
        push_hex_byte(s, data[off + i]);
        i = i + 1;
        proof {
            let cur = data@.subrange(off as int, off as int + i as int);
            assert(cur.drop_last() =~= pre);
            assert(s@ =~= s0 + (hex_of_bytes(pre) + hex_pair(cur.last())));
        }
    }
    proof {
        assert(data@.subrange(off as int, off as int + len as int) =~= data@.subrange(
            off as int,
            off as int + len as int,
        ));
    }
}

/// Appends the decimal rendering of `n` to `s`.
pub fn push_dec(s: &mut String, n: u64)
    ensures
        final(s)@ == old(s)@ + dec_of(n as int),
    decreases n,
{
    let ghost s0 = s@;
    if n >= 10 {
        push_dec(s, n / 10);
    }
    push_char(s, hex_digit_char((n % 10) as u8));
    proof {
        if n < 10 {
            assert(s@ =~= s0 + dec_of(n as int));
        } else {
            assert(s@ =~= s0 + (dec_of(n as int / 10) + seq![dec_digit(n as int % 10)]));
        }
    }
}

/// The decimal rendering of `n` as a fresh string.
pub fn u64_to_string(n: u64) -> (s: String)
    ensures
        s@ == dec_of(n as int),
{
    let mut s = String::new();
    push_dec(&mut s, n);
    proof {
        assert(s@ =~= dec_of(n as int));
    }
    s
}

} // verus!
