//! The catalog of known box types: a pure classification of a four-character
//! code into container, full box or leaf, plus a human-readable name.
//!
//! Unknown codes fall through to [`Category::Leaf`].  The `meta` box is a
//! hybrid: it is classified as a container, but its child region begins after
//! a 4-byte `version + flags` prefix (see [`is_hybrid_container`]).

use vstd::prelude::*;
use crate::boxes::FourCC;

verus! {

/// The 32-bit code of `"moov"`.
pub const MOOV: u32 = 0x6D6F6F76;

/// The 32-bit code of `"trak"`.
pub const TRAK: u32 = 0x7472616B;

/// The 32-bit code of `"mdia"`.
pub const MDIA: u32 = 0x6D646961;

/// The 32-bit code of `"minf"`.
pub const MINF: u32 = 0x6D696E66;

/// The 32-bit code of `"stbl"`.
pub const STBL: u32 = 0x7374626C;

/// The 32-bit code of `"edts"`.
pub const EDTS: u32 = 0x65647473;

/// The 32-bit code of `"mvex"`.
pub const MVEX: u32 = 0x6D766578;

/// The 32-bit code of `"moof"`.
pub const MOOF: u32 = 0x6D6F6F66;

/// The 32-bit code of `"traf"`.
pub const TRAF: u32 = 0x74726166;

/// The 32-bit code of `"udta"`.
pub const UDTA: u32 = 0x75647461;

/// The 32-bit code of `"meta"`.
pub const META: u32 = 0x6D657461;

/// The 32-bit code of `"dinf"`.
pub const DINF: u32 = 0x64696E66;

/// The 32-bit code of `"mvhd"`.
pub const MVHD: u32 = 0x6D766864;

/// The 32-bit code of `"tkhd"`.
pub const TKHD: u32 = 0x746B6864;

/// The 32-bit code of `"mdhd"`.
pub const MDHD: u32 = 0x6D646864;

/// The 32-bit code of `"hdlr"`.
pub const HDLR: u32 = 0x68646C72;

/// The 32-bit code of `"stts"`.
pub const STTS: u32 = 0x73747473;

/// The 32-bit code of `"ctts"`.
pub const CTTS: u32 = 0x63747473;

/// The 32-bit code of `"stsc"`.
pub const STSC: u32 = 0x73747363;

/// The 32-bit code of `"stsz"`.
pub const STSZ: u32 = 0x7374737A;

/// The 32-bit code of `"stz2"`.
pub const STZ2: u32 = 0x73747A32;

/// The 32-bit code of `"stss"`.
pub const STSS: u32 = 0x73747373;

/// The 32-bit code of `"stco"`.
pub const STCO: u32 = 0x7374636F;

/// The 32-bit code of `"co64"`.
pub const CO64: u32 = 0x636F3634;

/// The 32-bit code of `"stsd"`.
pub const STSD: u32 = 0x73747364;

/// The 32-bit code of `"elst"`.
pub const ELST: u32 = 0x656C7374;

/// The 32-bit code of `"dref"`.
pub const DREF: u32 = 0x64726566;

/// The 32-bit code of `"url "`.
pub const URL: u32 = 0x75726C20;

/// The 32-bit code of `"urn "`.
pub const URN: u32 = 0x75726E20;

/// The 32-bit code of `"mehd"`.
pub const MEHD: u32 = 0x6D656864;

/// The 32-bit code of `"trex"`.
pub const TREX: u32 = 0x74726578;

/// The 32-bit code of `"tfhd"`.
pub const TFHD: u32 = 0x74666864;

/// The 32-bit code of `"trun"`.
pub const TRUN: u32 = 0x7472756E;

/// The 32-bit code of `"sbgp"`.
pub const SBGP: u32 = 0x73626770;

/// The 32-bit code of `"sgpd"`.
pub const SGPD: u32 = 0x73677064;

/// The 32-bit code of `"ftyp"`.
pub const FTYP: u32 = 0x66747970;

/// The 32-bit code of `"free"`.
pub const FREE: u32 = 0x66726565;

/// The 32-bit code of `"skip"`.
pub const SKIP: u32 = 0x736B6970;

/// The 32-bit code of `"mdat"`.
pub const MDAT: u32 = 0x6D646174;

/// The 32-bit code of `"uuid"`.
pub const UUID: u32 = 0x75756964;

/// The structural class of a box type.
#[derive(Clone, Copy, Debug, PartialEq, Eq, Structural)]
pub enum Category {
    /// Holds child boxes and nothing else.
    Container,
    /// Starts with a 1-byte version and 3-byte flags, then a flat payload.
    FullBox,
    /// An opaque payload.
    Leaf,
}

/// The class of the box type with the given 32-bit code.
pub open spec fn spec_category(code: int) -> Category {
    if code == MOOV || code == TRAK || code == MDIA || code == MINF || code == STBL || code == EDTS
        || code == MVEX || code == MOOF || code == TRAF || code == UDTA || code == META || code
        == DINF {
        Category::Container
    } else if code == MVHD || code == TKHD || code == MDHD || code == HDLR || code == STTS || code
        == CTTS || code == STSC || code == STSZ || code == STZ2 || code == STSS || code == STCO
        || code == CO64 || code == STSD || code == ELST || code == DREF || code == URL || code
        == URN || code == MEHD || code == TREX || code == TFHD || code == TRUN || code == SBGP
        || code == SGPD {
        Category::FullBox
    } else {
        Category::Leaf
    }
}

/// Whether the box type is a container whose child region begins after a
/// 4-byte `version + flags` prefix (only `meta`).
pub open spec fn spec_is_hybrid(code: int) -> bool {
    code == META
}

/// Classifies a four-character code.
pub fn category(typ: &FourCC) -> (c: Category)
    ensures
        c == spec_category(typ.spec_code()),
{
    let code = typ.code();
    if code == MOOV || code == TRAK || code == MDIA || code == MINF || code == STBL || code == EDTS
        || code == MVEX || code == MOOF || code == TRAF || code == UDTA || code == META || code
        == DINF {
        Category::Container
    } else if code == MVHD || code == TKHD || code == MDHD || code == HDLR || code == STTS || code
        == CTTS || code == STSC || code == STSZ || code == STZ2 || code == STSS || code == STCO
        || code == CO64 || code == STSD || code == ELST || code == DREF || code == URL || code
        == URN || code == MEHD || code == TREX || code == TFHD || code == TRUN || code == SBGP
        || code == SGPD {
        Category::FullBox
    } else {
        Category::Leaf
    }
}

/// Whether this container's children start after a `version + flags` prefix.
pub fn is_hybrid_container(typ: &FourCC) -> (r: bool)
    ensures
        r == spec_is_hybrid(typ.spec_code()),
{
    typ.code() == META
}

/// The human-readable name of the box type with the given code.
pub open spec fn spec_full_name(code: int) -> Seq<char> {
    if code == MOOV {
        "Movie Box"@
    } else if code == TRAK {
        "Track Box"@
    } else if code == MDIA {
        "Media Box"@
    } else if code == MINF {
        "Media Information Box"@
    } else if code == STBL {
        "Sample Table Box"@
    } else if code == EDTS {
        "Edit Box"@
    } else if code == MVEX {
        "Movie Extends Box"@
    } else if code == MOOF {
        "Movie Fragment Box"@
    } else if code == TRAF {
        "Track Fragment Box"@
    } else if code == UDTA {
        "User Data Box"@
    } else if code == META {
        "Metadata Box"@
    } else if code == DINF {
        "Data Information Box"@
    } else if code == MVHD {
        "Movie Header Box"@
    } else if code == TKHD {
        "Track Header Box"@
    } else if code == MDHD {
        "Media Header Box"@
    } else if code == HDLR {
        "Handler Reference Box"@
    } else if code == STTS {
        "Decoding Time to Sample Box"@
    } else if code == CTTS {
        "Composition Time to Sample Box"@
    } else if code == STSC {
        "Sample To Chunk Box"@
    } else if code == STSZ {
        "Sample Size Box"@
    } else if code == STZ2 {
        "Compact Sample Size Box"@
    } else if code == STSS {
        "Sync Sample Box"@
    } else if code == STCO {
        "Chunk Offset Box"@
    } else if code == CO64 {
        "64-bit Chunk Offset Box"@
    } else if code == STSD {
        "Sample Description Box"@
    } else if code == ELST {
        "Edit List Box"@
    } else if code == DREF {
        "Data Reference Box"@
    } else if code == URL {
        "Data Entry URL Box"@
    } else if code == URN {
        "Data Entry URN Box"@
    } else if code == MEHD {
        "Movie Extends Header Box"@
    } else if code == TREX {
        "Track Extends Box"@
    } else if code == TFHD {
        "Track Fragment Header Box"@
    } else if code == TRUN {
        "Track Fragment Run Box"@
    } else if code == SBGP {
        "Sample To Group Box"@
    } else if code == SGPD {
        "Sample Group Description Box"@
    } else if code == FTYP {
        "File Type Box"@
    } else if code == FREE || code == SKIP {
        "Free Space Box"@
    } else if code == MDAT {
        "Media Data Box"@
    } else if code == UUID {
        "User Extension Box"@
    } else {
        "Unknown Box"@
    }
}

/// The human-readable name of a four-character code.
pub fn full_name(typ: &FourCC) -> (r: &'static str)
    ensures
        r@ == spec_full_name(typ.spec_code()),
{
    let code = typ.code();
    if code == MOOV {
        "Movie Box"
    } else if code == TRAK {
        "Track Box"
    } else if code == MDIA {
        "Media Box"
    } else if code == MINF {
        "Media Information Box"
    } else if code == STBL {
        "Sample Table Box"
    } else if code == EDTS {
        "Edit Box"
    } else if code == MVEX {
        "Movie Extends Box"
    } else if code == MOOF {
        "Movie Fragment Box"
    } else if code == TRAF {
        "Track Fragment Box"
    } else if code == UDTA {
        "User Data Box"
    } else if code == META {
        "Metadata Box"
    } else if code == DINF {
        "Data Information Box"
    } else if code == MVHD {
        "Movie Header Box"
    } else if code == TKHD {
        "Track Header Box"
    } else if code == MDHD {
        "Media Header Box"
    } else if code == HDLR {
        "Handler Reference Box"
    } else if code == STTS {
        "Decoding Time to Sample Box"
    } else if code == CTTS {
        "Composition Time to Sample Box"
    } else if code == STSC {
        "Sample To Chunk Box"
    } else if code == STSZ {
        "Sample Size Box"
    } else if code == STZ2 {
        "Compact Sample Size Box"
    } else if code == STSS {
        "Sync Sample Box"
    } else if code == STCO {
        "Chunk Offset Box"
    } else if code == CO64 {
        "64-bit Chunk Offset Box"
    } else if code == STSD {
        "Sample Description Box"
    } else if code == ELST {
        "Edit List Box"
    } else if code == DREF {
        "Data Reference Box"
    } else if code == URL {
        "Data Entry URL Box"
    } else if code == URN {
        "Data Entry URN Box"
    } else if code == MEHD {
        "Movie Extends Header Box"
    } else if code == TREX {
        "Track Extends Box"
    } else if code == TFHD {
        "Track Fragment Header Box"
    } else if code == TRUN {
        "Track Fragment Run Box"
    } else if code == SBGP {
        "Sample To Group Box"
    } else if code == SGPD {
        "Sample Group Description Box"
    } else if code == FTYP {
        "File Type Box"
    } else if code == FREE || code == SKIP {
        "Free Space Box"
    } else if code == MDAT {
        "Media Data Box"
    } else if code == UUID {
        "User Extension Box"
    } else {
        "Unknown Box"
    }
}

} // verus!
