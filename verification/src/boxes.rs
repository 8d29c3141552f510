//! The data model of the box tree: four-character codes, box headers, and
//! parsed nodes.

use vstd::prelude::*;
use crate::strings::{hex_of_bytes, push_char, push_hex_byte};

verus! {

/// A four-character box type tag: exactly four bytes, compared byte-wise.
#[derive(Clone, Copy, Debug)]
pub struct FourCC(pub [u8; 4]);

/// Whether `b` is a printable ASCII byte.
pub open spec fn printable(b: u8) -> bool {
    0x20 <= b < 0x7f
}

/// How a four-character code is displayed: as ASCII when all four bytes are
/// printable, else as eight hexadecimal digits.
pub open spec fn fourcc_display(t: Seq<u8>) -> Seq<char> {
    if forall|i: int| 0 <= i < t.len() ==> printable(#[trigger] t[i]) {
        Seq::new(t.len(), |i: int| t[i] as char)
    } else {
        hex_of_bytes(t)
    }
}

impl FourCC {
    /// Byte-wise equality against a four-byte literal.
    pub fn is(&self, other: &[u8; 4]) -> (r: bool)
        ensures
            r == (self.0@ == other@),
    {
        let r = self.0[0] == other[0] && self.0[1] == other[1] && self.0[2] == other[2]
            && self.0[3] == other[3];
        proof {
            if r {
                assert(self.0@ =~= other@);
            }
        }
        r
    }

    /// Byte-wise equality of two codes.
    pub fn matches(&self, other: &FourCC) -> (r: bool)
        ensures
            r == (self.0@ == other.0@),
    {
        self.is(&other.0)
    }

    /// The code as a 32-bit big-endian integer.
    pub open spec fn spec_code(self) -> int {
        crate::bytes::be_uint(self.0@, 0, 4)
    }

    /// Packs the four bytes into their big-endian 32-bit value.
    pub fn code(&self) -> (r: u32)
        ensures
            r == self.spec_code(),
    {
        proof {
            reveal_with_fuel(crate::bytes::be_uint, 5);
            crate::bytes::lemma_be_uint_bounds(self.0@, 0, 4);
            reveal_with_fuel(crate::bytes::pow256, 5);
        }
        let b0 = self.0[0] as u32;
        let b1 = self.0[1] as u32;
        let b2 = self.0[2] as u32;
        let b3 = self.0[3] as u32;
        ((b0 * 256 + b1) * 256 + b2) * 256 + b3
    }

    /// The display form of the code: ASCII if printable, else hex.
    pub fn display(&self) -> (s: String)
        ensures
            s@ == fourcc_display(self.0@),
    {
        let mut printable_all = true;
        let mut i: usize = 0;
        while i < 4
            invariant
                i <= 4,
                printable_all == forall|j: int| 0 <= j < i ==> printable(#[trigger] self.0@[j]),
            decreases 4 - i,
        {
            let b = self.0[i];
            if !(0x20 <= b && b < 0x7f) {
                printable_all = false;
            }
            i = i + 1;
        }
        let mut s = String::new();
        if printable_all {
            let mut k: usize = 0;
            while k < 4
                invariant
                    k <= 4,
                    forall|j: int| 0 <= j < 4 ==> printable(#[trigger] self.0@[j]),
                    s@ == Seq::new(k as nat, |j: int| self.0@[j] as char),
                decreases 4 - k,
            {
                push_char(&mut s, self.0[k] as char);
                k = k + 1;
                proof {
                    assert(s@ =~= Seq::new(k as nat, |j: int| self.0@[j] as char));
                }
            }
            proof {
                assert(s@ =~= fourcc_display(self.0@));
            }
        } else {
            let mut k: usize = 0;
            while k < 4
                invariant
                    k <= 4,
                    s@ == hex_of_bytes(self.0@.subrange(0, k as int)),
                decreases 4 - k,
            {
                let ghost pre = self.0@.subrange(0, k as int);
                push_hex_byte(&mut s, self.0[k]);
                k = k + 1;
                proof {
                    let cur = self.0@.subrange(0, k as int);
                    assert(cur.drop_last() =~= pre);
                }
            }
            proof {
                assert(self.0@.subrange(0, 4) =~= self.0@);
                assert(!(forall|i: int| 0 <= i < 4 ==> printable(#[trigger] self.0@[i])));
            }
        }
        s
    }
}

/// The dispatch key of a box: its four-character code, or the 16-byte
/// extended type of a `uuid` box.
#[derive(Clone, Copy, Debug)]
pub enum BoxKey {
    FourCC(FourCC),
    Uuid([u8; 16]),
}

/// One box header, as read from the file.
///
/// `size` is the declared total size of the box, header included; the value
/// `0` is the on-disk sentinel for "extends to the end of the enclosing
/// region".  `start` is the file offset of the first header byte, and
/// `header_size` the number of header bytes (8, 16, 24 or 32, depending on
/// the 64-bit size and `uuid` extensions).
#[derive(Clone, Copy, Debug)]
pub struct BoxHeader {
    pub typ: FourCC,
    pub uuid: Option<[u8; 16]>,
    pub start: u64,
    pub size: u64,
    pub header_size: u64,
}

/// What was found inside one box.
///
/// `data_offset` / `data_len` give the absolute file extent of the payload:
/// for a full box, of the bytes after the `version + flags` prefix; for a
/// leaf or unknown box, of everything after the header.
pub enum NodeKind {
    Container(Vec<BoxRef>),
    FullBox { version: u8, flags: u32, data_offset: u64, data_len: u64 },
    Leaf { data_offset: u64, data_len: u64 },
    Unknown { data_offset: u64, data_len: u64 },
}

/// One parsed box: its header and its classified contents.
pub struct BoxRef {
    pub hdr: BoxHeader,
    pub kind: NodeKind,
}

impl BoxHeader {
    /// The first file offset past this box, given the end of the enclosing
    /// region (which a `size == 0` box extends to).
    pub open spec fn spec_end(self, region_end: int) -> int {
        if self.size == 0 {
            region_end
        } else {
            self.start + self.size
        }
    }
}

} // verus!
