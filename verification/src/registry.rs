//! Structured decoders for the sample-table family and media metadata, and
//! the registry that dispatches a box key to its decoder.
//!
//! Every decoder takes the full box payload (the `version + flags` prefix
//! included) as a byte vector and returns either a typed record, display
//! text, or a [`DecodeError`].  Each decoder's contract pins the produced
//! record field by field to the payload bytes, and says exactly on which
//! payloads it succeeds.

use vstd::prelude::*;
use vstd::string::StringExecFns;
use crate::boxes::{BoxHeader, BoxKey, FourCC};
use crate::bytes::{as_signed32, be_uint, be_u16, be_u32, be_u64, be_u24, lemma_be_uint_bounds, pow256};
use crate::errors::{DecodeError, DecodeErrorKind};

verus! {

/// One run of equal-duration samples from `stts`.
#[derive(Debug, Clone, Copy)]
pub struct SttsEntry {
    pub sample_count: u32,
    pub sample_delta: u32,
}

/// The decoding-time-to-sample table.
#[derive(Debug, Clone)]
pub struct SttsData {
    pub version: u8,
    pub flags: u32,
    pub entry_count: u32,
    pub entries: Vec<SttsEntry>,
}

/// One run of equal-composition-offset samples from `ctts`.
#[derive(Debug, Clone, Copy)]
pub struct CttsEntry {
    pub sample_count: u32,
    pub sample_offset: i32,
}

/// The composition-time-to-sample table, with the wire version recorded.
#[derive(Debug, Clone)]
pub struct CttsData {
    pub version: u8,
    pub flags: u32,
    pub entry_count: u32,
    pub entries: Vec<CttsEntry>,
}

/// One run of chunks sharing a samples-per-chunk count from `stsc`.
#[derive(Debug, Clone, Copy)]
pub struct StscEntry {
    pub first_chunk: u32,
    pub samples_per_chunk: u32,
    pub sample_description_index: u32,
}

/// The sample-to-chunk table.
#[derive(Debug, Clone)]
pub struct StscData {
    pub version: u8,
    pub flags: u32,
    pub entry_count: u32,
    pub entries: Vec<StscEntry>,
}

/// The sample-size table.  A non-zero `sample_size` applies to every sample
/// and `sample_sizes` is empty; otherwise `sample_sizes` has one entry per
/// sample.
#[derive(Debug, Clone)]
pub struct StszData {
    pub version: u8,
    pub flags: u32,
    pub sample_size: u32,
    pub sample_count: u32,
    pub sample_sizes: Vec<u32>,
}

/// The sync-sample table: strictly increasing 1-based sample numbers.
#[derive(Debug, Clone)]
pub struct StssData {
    pub version: u8,
    pub flags: u32,
    pub entry_count: u32,
    pub sample_numbers: Vec<u32>,
}

/// The 32-bit chunk-offset table.
#[derive(Debug, Clone)]
pub struct StcoData {
    pub version: u8,
    pub flags: u32,
    pub entry_count: u32,
    pub chunk_offsets: Vec<u32>,
}

/// The 64-bit chunk-offset table.
#[derive(Debug, Clone)]
pub struct Co64Data {
    pub version: u8,
    pub flags: u32,
    pub entry_count: u32,
    pub chunk_offsets: Vec<u64>,
}

/// The media header: the track's timescale and duration.
#[derive(Debug, Clone, Copy)]
pub struct MdhdData {
    pub version: u8,
    pub flags: u32,
    pub timescale: u32,
    pub duration: u64,
}

/// The handler reference: the track's handler type, displayed as ASCII.
#[derive(Debug, Clone)]
pub struct HdlrData {
    pub handler_type: String,
}

/// One sample entry of `stsd`: the extent of its raw sub-payload within the
/// `stsd` payload, and its format code.
#[derive(Debug, Clone, Copy)]
pub struct StsdEntry {
    pub offset: u64,
    pub size: u64,
    pub format: FourCC,
}

/// The sample-description table: sub-payload extents for codec-aware
/// consumers, not decoded further here.
#[derive(Debug, Clone)]
pub struct StsdData {
    pub version: u8,
    pub flags: u32,
    pub entry_count: u32,
    pub entries: Vec<StsdEntry>,
}

/// A typed decoding of one box's payload.
#[derive(Debug, Clone)]
pub enum StructuredData {
    SampleDescription(StsdData),
    DecodingTimeToSample(SttsData),
    CompositionTimeToSample(CttsData),
    SampleToChunk(StscData),
    SampleSize(StszData),
    SyncSample(StssData),
    ChunkOffset(StcoData),
    ChunkOffset64(Co64Data),
    MediaHeader(MdhdData),
    HandlerReference(HdlrData),
}

/// What a decoder produced: display text, raw bytes, or a typed record.
#[derive(Debug, Clone)]
pub enum BoxValue {
    Text(String),
    Bytes(Vec<u8>),
    Structured(StructuredData),
}

/// The version byte of a full-box payload.
pub open spec fn spec_version(s: Seq<u8>) -> int {
    s[0] as int
}

/// The 24-bit flags field of a full-box payload.
pub open spec fn spec_flags(s: Seq<u8>) -> int {
    be_uint(s, 1, 3)
}

/// The entry count following the `version + flags` prefix.
pub open spec fn spec_entry_count(s: Seq<u8>) -> int {
    be_uint(s, 4, 4)
}

/// Whether the payload holds the prefix, the count, and `esize` bytes per
/// declared entry.
pub open spec fn table_fits(s: Seq<u8>, esize: int) -> bool {
    s.len() >= 8 && s.len() >= 8 + spec_entry_count(s) * esize
}

/// The full contract of the `stts` decoder on payload `s`.
pub open spec fn stts_post(s: Seq<u8>, typ: FourCC, r: Result<BoxValue, DecodeError>) -> bool {
    &&& (r is Ok <==> table_fits(s, 8))
    &&& (r matches Ok(v) ==> (v matches BoxValue::Structured(StructuredData::DecodingTimeToSample(d))
        && {
        &&& d.version == spec_version(s)
        &&& d.flags == spec_flags(s)
        &&& d.entry_count == spec_entry_count(s)
        &&& d.entries@.len() == d.entry_count
        &&& forall|k: int|
            0 <= k < d.entries@.len() ==> {
                &&& (#[trigger] d.entries@[k]).sample_count == be_uint(s, 8 + 8 * k, 4)
                &&& d.entries@[k].sample_delta == be_uint(s, 12 + 8 * k, 4)
            }
    }))
    &&& (r matches Err(e) ==> e == (DecodeError { box_type: typ, kind: DecodeErrorKind::Short }))
}

/// Decoder for `stts` (decoding time to sample).
pub struct SttsDecoder;

impl SttsDecoder {
    /// Decodes an `stts` payload: `version + flags`, an entry count, then
    /// `(sample_count, sample_delta)` pairs.
    pub fn decode(&self, data: &Vec<u8>, header: &BoxHeader) -> (r: Result<BoxValue, DecodeError>)
        ensures
            stts_post(data@, header.typ, r),
    {
        let short = DecodeError { box_type: header.typ, kind: DecodeErrorKind::Short };
        if data.len() < 8 {
            return Err(short);
        }
        let version = data[0];
        let flags = be_u24(data, 1);
        let entry_count = be_u32(data, 4);
        proof {
            lemma_be_uint_bounds(data@, 4, 4);
        }
        let needed: u64 = 8 + (entry_count as u64) * 8;
        if (data.len() as u64) < needed {
            return Err(short);
        }
        let mut entries: Vec<SttsEntry> = Vec::new();
        let mut i: usize = 0;
        while i < entry_count as usize
            invariant
                entries@.len() == i,
                i <= entry_count,
                8 + (entry_count as int) * 8 <= data.len(),
                forall|k: int|
                    0 <= k < i ==> {
                        &&& (#[trigger] entries@[k]).sample_count == be_uint(data@, 8 + 8 * k, 4)
                        &&& entries@[k].sample_delta == be_uint(data@, 12 + 8 * k, 4)
                    },
            decreases entry_count - i,
        {
            let base = 8 + i * 8;
            let sample_count = be_u32(data, base);
            let sample_delta = be_u32(data, base + 4);
            entries.push(SttsEntry { sample_count, sample_delta });
            i = i + 1;
        }
        Ok(
            BoxValue::Structured(
                StructuredData::DecodingTimeToSample(
                    SttsData { version, flags, entry_count, entries },
                ),
            ),
        )
    }
}

/// The strictly-increasing, 1-based `first_chunk` invariant of `stsc`.
pub open spec fn stsc_chunks_valid(s: Seq<u8>) -> bool {
    forall|k: int|
        0 <= k < spec_entry_count(s) ==> {
            &&& #[trigger] be_uint(s, 8 + 12 * k, 4) >= 1
            &&& (k > 0 ==> be_uint(s, 8 + 12 * k, 4) > be_uint(s, 8 + 12 * (k - 1), 4))
        }
}

/// The full contract of the `stsc` decoder on payload `s`.
pub open spec fn stsc_post(s: Seq<u8>, typ: FourCC, r: Result<BoxValue, DecodeError>) -> bool {
    &&& (r is Ok <==> table_fits(s, 12) && stsc_chunks_valid(s))
    &&& (r matches Ok(v) ==> (v matches BoxValue::Structured(StructuredData::SampleToChunk(d)) && {
        &&& d.version == spec_version(s)
        &&& d.flags == spec_flags(s)
        &&& d.entry_count == spec_entry_count(s)
        &&& d.entries@.len() == d.entry_count
        &&& forall|k: int|
            0 <= k < d.entries@.len() ==> {
                &&& (#[trigger] d.entries@[k]).first_chunk == be_uint(s, 8 + 12 * k, 4)
                &&& d.entries@[k].samples_per_chunk == be_uint(s, 12 + 12 * k, 4)
                &&& d.entries@[k].sample_description_index == be_uint(s, 16 + 12 * k, 4)
            }
    }))
    &&& (r matches Err(e) ==> e == (DecodeError {
        box_type: typ,
        kind: if !table_fits(s, 12) {
            DecodeErrorKind::Short
        } else {
            DecodeErrorKind::InvalidField
        },
    }))
}

/// Decoder for `stsc` (sample to chunk).
pub struct StscDecoder;

impl StscDecoder {
    /// Decodes an `stsc` payload: an entry count, then `(first_chunk,
    /// samples_per_chunk, sample_description_index)` triples with strictly
    /// increasing 1-based `first_chunk`.
    pub fn decode(&self, data: &Vec<u8>, header: &BoxHeader) -> (r: Result<BoxValue, DecodeError>)
        ensures
            stsc_post(data@, header.typ, r),
    {
        let short = DecodeError { box_type: header.typ, kind: DecodeErrorKind::Short };
        let invalid = DecodeError { box_type: header.typ, kind: DecodeErrorKind::InvalidField };
        if data.len() < 8 {
            return Err(short);
        }
        let version = data[0];
        let flags = be_u24(data, 1);
        let entry_count = be_u32(data, 4);
        proof {
            lemma_be_uint_bounds(data@, 4, 4);
        }
        let needed: u64 = 8 + (entry_count as u64) * 12;
        if (data.len() as u64) < needed {
            return Err(short);
        }
        let mut entries: Vec<StscEntry> = Vec::new();
        let mut i: usize = 0;
        while i < entry_count as usize
            invariant
                entries@.len() == i,
                i <= entry_count,
                entry_count == be_uint(data@, 4, 4),
                8 + (entry_count as int) * 12 <= data.len(),
                invalid == (DecodeError {
                    box_type: header.typ,
                    kind: DecodeErrorKind::InvalidField,
                }),
                forall|k: int|
                    0 <= k < i ==> {
                        &&& (#[trigger] entries@[k]).first_chunk == be_uint(data@, 8 + 12 * k, 4)
                        &&& entries@[k].samples_per_chunk == be_uint(data@, 12 + 12 * k, 4)
                        &&& entries@[k].sample_description_index == be_uint(data@, 16 + 12 * k, 4)
                    },
                forall|k: int|
                    0 <= k < i ==> {
                        &&& #[trigger] be_uint(data@, 8 + 12 * k, 4) >= 1
                        &&& (k > 0 ==> be_uint(data@, 8 + 12 * k, 4) > be_uint(
                            data@,
                            8 + 12 * (k - 1),
                            4,
                        ))
                    },
            decreases entry_count - i,
        {
            let base = 8 + i * 12;
            let first_chunk = be_u32(data, base);
            let samples_per_chunk = be_u32(data, base + 4);
            let sample_description_index = be_u32(data, base + 8);
            if first_chunk < 1 {
                proof {
                    assert(be_uint(data@, 8 + 12 * (i as int), 4) == first_chunk);
                    assert(!stsc_chunks_valid(data@));
                }
                return Err(invalid);
            }
            if i > 0 && first_chunk <= entries[i - 1].first_chunk {
                proof {
                    assert(be_uint(data@, 8 + 12 * (i as int), 4) == first_chunk);
                    assert(be_uint(data@, 8 + 12 * (i as int - 1), 4) == entries@[i as int
                        - 1].first_chunk);
                    assert(!stsc_chunks_valid(data@));
                }
                return Err(invalid);
            }
            entries.push(StscEntry { first_chunk, samples_per_chunk, sample_description_index });
            i = i + 1;
        }
        Ok(
            BoxValue::Structured(
                StructuredData::SampleToChunk(StscData { version, flags, entry_count, entries }),
            ),
        )
    }
}

/// The full contract of the `stsz` decoder on payload `s`.
pub open spec fn stsz_post(s: Seq<u8>, typ: FourCC, r: Result<BoxValue, DecodeError>) -> bool {
    let fixed = be_uint(s, 4, 4);
    let count = be_uint(s, 8, 4);
    let fits = s.len() >= 12 && (fixed != 0 || s.len() >= 12 + count * 4);
    &&& (r is Ok <==> fits)
    &&& (r matches Ok(v) ==> (v matches BoxValue::Structured(StructuredData::SampleSize(d)) && {
        &&& d.version == spec_version(s)
        &&& d.flags == spec_flags(s)
        &&& d.sample_size == fixed
        &&& d.sample_count == count
        &&& d.sample_sizes@.len() == (if fixed == 0 {
            count
        } else {
            0int
        })
        &&& forall|k: int|
            0 <= k < d.sample_sizes@.len() ==> #[trigger] d.sample_sizes@[k] == be_uint(
                s,
                12 + 4 * k,
                4,
            )
    }))
    &&& (r matches Err(e) ==> e == (DecodeError { box_type: typ, kind: DecodeErrorKind::Short }))
}

/// Decoder for `stsz` (sample sizes).
pub struct StszDecoder;

impl StszDecoder {
    /// Decodes an `stsz` payload: a fixed sample size (zero meaning
    /// "per-sample sizes follow"), the sample count, then one 32-bit size
    /// per sample when the fixed size is zero.
    pub fn decode(&self, data: &Vec<u8>, header: &BoxHeader) -> (r: Result<BoxValue, DecodeError>)
        ensures
            stsz_post(data@, header.typ, r),
    {
        let short = DecodeError { box_type: header.typ, kind: DecodeErrorKind::Short };
        if data.len() < 12 {
            return Err(short);
        }
        let version = data[0];
        let flags = be_u24(data, 1);
        let sample_size = be_u32(data, 4);
        let sample_count = be_u32(data, 8);
        proof {
            lemma_be_uint_bounds(data@, 8, 4);
        }
        let mut sample_sizes: Vec<u32> = Vec::new();
        if sample_size == 0 {
            let needed: u64 = 12 + (sample_count as u64) * 4;
            if (data.len() as u64) < needed {
                return Err(short);
            }
            let mut i: usize = 0;
            while i < sample_count as usize
                invariant
                    sample_sizes@.len() == i,
                    i <= sample_count,
                    12 + (sample_count as int) * 4 <= data.len(),
                    forall|k: int|
                        0 <= k < i ==> #[trigger] sample_sizes@[k] == be_uint(
                            data@,
                            12 + 4 * k,
                            4,
                        ),
                decreases sample_count - i,
            {
                sample_sizes.push(be_u32(data, 12 + i * 4));
                i = i + 1;
            }
        }
        Ok(
            BoxValue::Structured(
                StructuredData::SampleSize(
                    StszData { version, flags, sample_size, sample_count, sample_sizes },
                ),
            ),
        )
    }
}

/// The composition offset a decoder records for a raw 32-bit word: the
/// two's-complement reading when the wire version is 1; for version 0 the
/// word is unsigned and is kept if it fits in a signed 32-bit value, else
/// saturated to the largest one.
pub open spec fn ctts_offset_of(version: int, raw: int) -> int {
    if version == 1 {
        as_signed32(raw)
    } else if raw <= 0x7FFF_FFFF {
        raw
    } else {
        0x7FFF_FFFF
    }
}

/// The full contract of the `ctts` decoder on payload `s`.
pub open spec fn ctts_post(s: Seq<u8>, typ: FourCC, r: Result<BoxValue, DecodeError>) -> bool {
    &&& (r is Ok <==> table_fits(s, 8))
    &&& (r matches Ok(v) ==> (v matches BoxValue::Structured(
        StructuredData::CompositionTimeToSample(d),
    ) && {
        &&& d.version == spec_version(s)
        &&& d.flags == spec_flags(s)
        &&& d.entry_count == spec_entry_count(s)
        &&& d.entries@.len() == d.entry_count
        &&& forall|k: int|
            0 <= k < d.entries@.len() ==> {
                &&& (#[trigger] d.entries@[k]).sample_count == be_uint(s, 8 + 8 * k, 4)
                &&& d.entries@[k].sample_offset == ctts_offset_of(
                    spec_version(s),
                    be_uint(s, 12 + 8 * k, 4),
                )
            }
    }))
    &&& (r matches Err(e) ==> e == (DecodeError { box_type: typ, kind: DecodeErrorKind::Short }))
}

/// Decoder for `ctts` (composition time to sample).
pub struct CttsDecoder;

impl CttsDecoder {
    /// Decodes a `ctts` payload: an entry count, then `(sample_count,
    /// sample_offset)` pairs.  The offset word is signed when the wire
    /// version is 1; a version-0 word that does not fit a signed 32-bit
    /// value is saturated.
    pub fn decode(&self, data: &Vec<u8>, header: &BoxHeader) -> (r: Result<BoxValue, DecodeError>)
        ensures
            ctts_post(data@, header.typ, r),
    {
        let short = DecodeError { box_type: header.typ, kind: DecodeErrorKind::Short };
        if data.len() < 8 {
            return Err(short);
        }
        let version = data[0];
        let flags = be_u24(data, 1);
        let entry_count = be_u32(data, 4);
        proof {
            lemma_be_uint_bounds(data@, 4, 4);
        }
        let needed: u64 = 8 + (entry_count as u64) * 8;
        if (data.len() as u64) < needed {
            return Err(short);
        }
        let mut entries: Vec<CttsEntry> = Vec::new();
        let mut i: usize = 0;
        while i < entry_count as usize
            invariant
                entries@.len() == i,
                i <= entry_count,
                version == spec_version(data@),
                8 + (entry_count as int) * 8 <= data.len(),
                forall|k: int|
                    0 <= k < i ==> {
                        &&& (#[trigger] entries@[k]).sample_count == be_uint(data@, 8 + 8 * k, 4)
                        &&& entries@[k].sample_offset == ctts_offset_of(
                            spec_version(data@),
                            be_uint(data@, 12 + 8 * k, 4),
                        )
                    },
            decreases entry_count - i,
        {
            let base = 8 + i * 8;
            let sample_count = be_u32(data, base);
            let raw = be_u32(data, base + 4);
            let sample_offset: i32 = if version == 1 {
                crate::bytes::to_signed32(raw)
            } else if raw <= 0x7FFF_FFFF {
                raw as i32
            } else {
                i32::MAX
            };
            entries.push(CttsEntry { sample_count, sample_offset });
            i = i + 1;
        }
        Ok(
            BoxValue::Structured(
                StructuredData::CompositionTimeToSample(
                    CttsData { version, flags, entry_count, entries },
                ),
            ),
        )
    }
}

/// The strictly-increasing, 1-based invariant of `stss` sample numbers.
pub open spec fn stss_numbers_valid(s: Seq<u8>) -> bool {
    forall|k: int|
        0 <= k < spec_entry_count(s) ==> {
            &&& #[trigger] be_uint(s, 8 + 4 * k, 4) >= 1
            &&& (k > 0 ==> be_uint(s, 8 + 4 * k, 4) > be_uint(s, 8 + 4 * (k - 1), 4))
        }
}

/// The full contract of the `stss` decoder on payload `s`.
pub open spec fn stss_post(s: Seq<u8>, typ: FourCC, r: Result<BoxValue, DecodeError>) -> bool {
    &&& (r is Ok <==> table_fits(s, 4) && stss_numbers_valid(s))
    &&& (r matches Ok(v) ==> (v matches BoxValue::Structured(StructuredData::SyncSample(d)) && {
        &&& d.version == spec_version(s)
        &&& d.flags == spec_flags(s)
        &&& d.entry_count == spec_entry_count(s)
        &&& d.sample_numbers@.len() == d.entry_count
        &&& forall|k: int|
            0 <= k < d.sample_numbers@.len() ==> #[trigger] d.sample_numbers@[k] == be_uint(
                s,
                8 + 4 * k,
                4,
            )
    }))
    &&& (r matches Err(e) ==> e == (DecodeError {
        box_type: typ,
        kind: if !table_fits(s, 4) {
            DecodeErrorKind::Short
        } else {
            DecodeErrorKind::InvalidField
        },
    }))
}

/// Decoder for `stss` (sync samples).
pub struct StssDecoder;

impl StssDecoder {
    /// Decodes an `stss` payload: an entry count, then strictly increasing
    /// 1-based sync-sample numbers.
    pub fn decode(&self, data: &Vec<u8>, header: &BoxHeader) -> (r: Result<BoxValue, DecodeError>)
        ensures
            stss_post(data@, header.typ, r),
    {
        let short = DecodeError { box_type: header.typ, kind: DecodeErrorKind::Short };
        let invalid = DecodeError { box_type: header.typ, kind: DecodeErrorKind::InvalidField };
        if data.len() < 8 {
            return Err(short);
        }
        let version = data[0];
        let flags = be_u24(data, 1);
        let entry_count = be_u32(data, 4);
        proof {
            lemma_be_uint_bounds(data@, 4, 4);
        }
        let needed: u64 = 8 + (entry_count as u64) * 4;
        if (data.len() as u64) < needed {
            return Err(short);
        }
        let mut sample_numbers: Vec<u32> = Vec::new();
        let mut i: usize = 0;
        while i < entry_count as usize
            invariant
                sample_numbers@.len() == i,
                i <= entry_count,
                entry_count == be_uint(data@, 4, 4),
                8 + (entry_count as int) * 4 <= data.len(),
                invalid == (DecodeError {
                    box_type: header.typ,
                    kind: DecodeErrorKind::InvalidField,
                }),
                forall|k: int|
                    0 <= k < i ==> #[trigger] sample_numbers@[k] == be_uint(data@, 8 + 4 * k, 4),
                forall|k: int|
                    0 <= k < i ==> {
                        &&& #[trigger] be_uint(data@, 8 + 4 * k, 4) >= 1
                        &&& (k > 0 ==> be_uint(data@, 8 + 4 * k, 4) > be_uint(
                            data@,
                            8 + 4 * (k - 1),
                            4,
                        ))
                    },
            decreases entry_count - i,
        {
            let n = be_u32(data, 8 + i * 4);
            if n < 1 {
                proof {
                    assert(be_uint(data@, 8 + 4 * (i as int), 4) == n);
                    assert(!stss_numbers_valid(data@));
                }
                return Err(invalid);
            }
            if i > 0 && n <= sample_numbers[i - 1] {
                proof {
                    assert(be_uint(data@, 8 + 4 * (i as int), 4) == n);
                    assert(be_uint(data@, 8 + 4 * (i as int - 1), 4) == sample_numbers@[i as int
                        - 1]);
                    assert(!stss_numbers_valid(data@));
                }
                return Err(invalid);
            }
            sample_numbers.push(n);
            i = i + 1;
        }
        Ok(
            BoxValue::Structured(
                StructuredData::SyncSample(StssData { version, flags, entry_count, sample_numbers }),
            ),
        )
    }
}

/// The full contract of the `stco` decoder on payload `s`.
pub open spec fn stco_post(s: Seq<u8>, typ: FourCC, r: Result<BoxValue, DecodeError>) -> bool {
    &&& (r is Ok <==> table_fits(s, 4))
    &&& (r matches Ok(v) ==> (v matches BoxValue::Structured(StructuredData::ChunkOffset(d)) && {
        &&& d.version == spec_version(s)
        &&& d.flags == spec_flags(s)
        &&& d.entry_count == spec_entry_count(s)
        &&& d.chunk_offsets@.len() == d.entry_count
        &&& forall|k: int|
            0 <= k < d.chunk_offsets@.len() ==> #[trigger] d.chunk_offsets@[k] == be_uint(
                s,
                8 + 4 * k,
                4,
            )
    }))
    &&& (r matches Err(e) ==> e == (DecodeError { box_type: typ, kind: DecodeErrorKind::Short }))
}

/// Decoder for `stco` (32-bit chunk offsets).
pub struct StcoDecoder;

impl StcoDecoder {
    /// Decodes an `stco` payload: an entry count, then 32-bit file offsets.
    pub fn decode(&self, data: &Vec<u8>, header: &BoxHeader) -> (r: Result<BoxValue, DecodeError>)
        ensures
            stco_post(data@, header.typ, r),
    {
        let short = DecodeError { box_type: header.typ, kind: DecodeErrorKind::Short };
        if data.len() < 8 {
            return Err(short);
        }
        let version = data[0];
        let flags = be_u24(data, 1);
        let entry_count = be_u32(data, 4);
        proof {
            lemma_be_uint_bounds(data@, 4, 4);
        }
        let needed: u64 = 8 + (entry_count as u64) * 4;
        if (data.len() as u64) < needed {
            return Err(short);
        }
        let mut chunk_offsets: Vec<u32> = Vec::new();
        let mut i: usize = 0;
        while i < entry_count as usize
            invariant
                chunk_offsets@.len() == i,
                i <= entry_count,
                8 + (entry_count as int) * 4 <= data.len(),
                forall|k: int|
                    0 <= k < i ==> #[trigger] chunk_offsets@[k] == be_uint(data@, 8 + 4 * k, 4),
            decreases entry_count - i,
        {
            chunk_offsets.push(be_u32(data, 8 + i * 4));
            i = i + 1;
        }
        Ok(
            BoxValue::Structured(
                StructuredData::ChunkOffset(StcoData { version, flags, entry_count, chunk_offsets }),
            ),
        )
    }
}

/// The full contract of the `co64` decoder on payload `s`.
pub open spec fn co64_post(s: Seq<u8>, typ: FourCC, r: Result<BoxValue, DecodeError>) -> bool {
    &&& (r is Ok <==> table_fits(s, 8))
    &&& (r matches Ok(v) ==> (v matches BoxValue::Structured(StructuredData::ChunkOffset64(d)) && {
        &&& d.version == spec_version(s)
        &&& d.flags == spec_flags(s)
        &&& d.entry_count == spec_entry_count(s)
        &&& d.chunk_offsets@.len() == d.entry_count
        &&& forall|k: int|
            0 <= k < d.chunk_offsets@.len() ==> #[trigger] d.chunk_offsets@[k] == be_uint(
                s,
                8 + 8 * k,
                8,
            )
    }))
    &&& (r matches Err(e) ==> e == (DecodeError { box_type: typ, kind: DecodeErrorKind::Short }))
}

/// Decoder for `co64` (64-bit chunk offsets).
pub struct Co64Decoder;

impl Co64Decoder {
    /// Decodes a `co64` payload: an entry count, then 64-bit file offsets.
    pub fn decode(&self, data: &Vec<u8>, header: &BoxHeader) -> (r: Result<BoxValue, DecodeError>)
        ensures
            co64_post(data@, header.typ, r),
    {
        let short = DecodeError { box_type: header.typ, kind: DecodeErrorKind::Short };
        if data.len() < 8 {
            return Err(short);
        }
        let version = data[0];
        let flags = be_u24(data, 1);
        let entry_count = be_u32(data, 4);
        proof {
            lemma_be_uint_bounds(data@, 4, 4);
        }
        let needed: u64 = 8 + (entry_count as u64) * 8;
        if (data.len() as u64) < needed {
            return Err(short);
        }
        let mut chunk_offsets: Vec<u64> = Vec::new();
        let mut i: usize = 0;
        while i < entry_count as usize
            invariant
                chunk_offsets@.len() == i,
                i <= entry_count,
                8 + (entry_count as int) * 8 <= data.len(),
                forall|k: int|
                    0 <= k < i ==> #[trigger] chunk_offsets@[k] == be_uint(data@, 8 + 8 * k, 8),
            decreases entry_count - i,
        {
            chunk_offsets.push(be_u64(data, 8 + i * 8));
            i = i + 1;
        }
        Ok(
            BoxValue::Structured(
                StructuredData::ChunkOffset64(
                    Co64Data { version, flags, entry_count, chunk_offsets },
                ),
            ),
        )
    }
}

/// Whether an `mdhd` payload is long enough for its version.
pub open spec fn mdhd_fits(s: Seq<u8>) -> bool {
    let v = spec_version(s);
    s.len() >= 4 && ((v == 0 && s.len() >= 20) || (v == 1 && s.len() >= 32))
}

/// The timescale field of an `mdhd` payload.
pub open spec fn mdhd_timescale(s: Seq<u8>) -> int {
    be_uint(
        s,
        if spec_version(s) == 1 {
            20int
        } else {
            12int
        },
        4,
    )
}

/// The duration field of an `mdhd` payload (32 bits widened for version 0).
pub open spec fn mdhd_duration(s: Seq<u8>) -> int {
    be_uint(
        s,
        if spec_version(s) == 1 {
            24int
        } else {
            16int
        },
        if spec_version(s) == 1 {
            8int
        } else {
            4int
        },
    )
}

/// The full contract of the `mdhd` decoder on payload `s`.
pub open spec fn mdhd_post(s: Seq<u8>, typ: FourCC, r: Result<BoxValue, DecodeError>) -> bool {
    let v = spec_version(s);
    &&& (r is Ok <==> mdhd_fits(s))
    &&& (r matches Ok(bv) ==> (bv matches BoxValue::Structured(StructuredData::MediaHeader(d)) && {
        &&& d.version == v
        &&& d.flags == spec_flags(s)
        &&& d.timescale == mdhd_timescale(s)
        &&& d.duration == mdhd_duration(s)
    }))
    &&& (r matches Err(e) ==> e == (DecodeError {
        box_type: typ,
        kind: if s.len() >= 4 && v >= 2 {
            DecodeErrorKind::Unsupported
        } else {
            DecodeErrorKind::Short
        },
    }))
}

/// Decoder for `mdhd` (media header).
pub struct MdhdDecoder;

impl MdhdDecoder {
    /// Decodes an `mdhd` payload.  Version 1 holds 64-bit times, version 0
    /// 32-bit ones (widened); any other version is unsupported.  The
    /// trailing language and pre-defined fields are ignored.
    pub fn decode(&self, data: &Vec<u8>, header: &BoxHeader) -> (r: Result<BoxValue, DecodeError>)
        ensures
            mdhd_post(data@, header.typ, r),
    {
        let short = DecodeError { box_type: header.typ, kind: DecodeErrorKind::Short };
        if data.len() < 4 {
            return Err(short);
        }
        let version = data[0];
        let flags = be_u24(data, 1);
        if version >= 2 {
            return Err(
                DecodeError { box_type: header.typ, kind: DecodeErrorKind::Unsupported },
            );
        }
        if version == 1 {
            if data.len() < 32 {
                return Err(short);
            }
            let timescale = be_u32(data, 20);
            let duration = be_u64(data, 24);
            Ok(
                BoxValue::Structured(
                    StructuredData::MediaHeader(MdhdData { version, flags, timescale, duration }),
                ),
            )
        } else {
            if data.len() < 20 {
                return Err(short);
            }
            let timescale = be_u32(data, 12);
            let duration = be_u32(data, 16) as u64;
            Ok(
                BoxValue::Structured(
                    StructuredData::MediaHeader(MdhdData { version, flags, timescale, duration }),
                ),
            )
        }
    }
}

/// The full contract of the `hdlr` decoder on payload `s`.
pub open spec fn hdlr_post(s: Seq<u8>, typ: FourCC, r: Result<BoxValue, DecodeError>) -> bool {
    &&& (r is Ok <==> s.len() >= 12)
    &&& (r matches Ok(bv) ==> (bv matches BoxValue::Structured(
        StructuredData::HandlerReference(d),
    ) && d.handler_type@ == crate::boxes::fourcc_display(s.subrange(8, 12))))
    &&& (r matches Err(e) ==> e == (DecodeError { box_type: typ, kind: DecodeErrorKind::Short }))
}

/// Decoder for `hdlr` (handler reference).
pub struct HdlrDecoder;

impl HdlrDecoder {
    /// Decodes an `hdlr` payload: skips the pre-defined word and records the
    /// four-byte handler type; the remainder is ignored.
    pub fn decode(&self, data: &Vec<u8>, header: &BoxHeader) -> (r: Result<BoxValue, DecodeError>)
        ensures
            hdlr_post(data@, header.typ, r),
    {
        if data.len() < 12 {
            return Err(DecodeError { box_type: header.typ, kind: DecodeErrorKind::Short });
        }
        let f = FourCC([data[8], data[9], data[10], data[11]]);
        proof {
            assert(f.0@ =~= data@.subrange(8, 12));
        }
        let handler_type = f.display();
        Ok(BoxValue::Structured(StructuredData::HandlerReference(HdlrData { handler_type })))
    }
}

/// The width in bytes of the packed size array of an `stz2` payload with
/// field size `fs` and `count` entries.
pub open spec fn stz2_bytes_needed(fs: int, count: int) -> int {
    if fs == 4 {
        (count + 1) / 2
    } else if fs == 8 {
        count
    } else {
        2 * count
    }
}

/// The `k`-th sample size of an `stz2` payload with field size `fs`.
pub open spec fn stz2_size_at(s: Seq<u8>, fs: int, k: int) -> int {
    if fs == 4 {
        if k % 2 == 0 {
            s[12 + k / 2] as int / 16
        } else {
            s[12 + k / 2] as int % 16
        }
    } else if fs == 8 {
        s[12 + k] as int
    } else {
        be_uint(s, 12 + 2 * k, 2)
    }
}

/// The full contract of the `stz2` decoder on payload `s`.  It produces the
/// same record as `stsz`, always in per-sample form.
pub open spec fn stz2_post(s: Seq<u8>, typ: FourCC, r: Result<BoxValue, DecodeError>) -> bool {
    let fs = if s.len() >= 8 {
        s[7] as int
    } else {
        0
    };
    let count = be_uint(s, 8, 4);
    let fs_ok = fs == 4 || fs == 8 || fs == 16;
    &&& (r is Ok <==> (s.len() >= 12 && fs_ok && s.len() >= 12 + stz2_bytes_needed(fs, count)))
    &&& (r matches Ok(v) ==> (v matches BoxValue::Structured(StructuredData::SampleSize(d)) && {
        &&& d.version == spec_version(s)
        &&& d.flags == spec_flags(s)
        &&& d.sample_size == 0
        &&& d.sample_count == count
        &&& d.sample_sizes@.len() == count
        &&& forall|k: int|
            0 <= k < d.sample_sizes@.len() ==> #[trigger] d.sample_sizes@[k] == stz2_size_at(
                s,
                fs,
                k,
            )
    }))
    &&& (r matches Err(e) ==> e == (DecodeError {
        box_type: typ,
        kind: if s.len() >= 12 && !fs_ok {
            DecodeErrorKind::InvalidField
        } else {
            DecodeErrorKind::Short
        },
    }))
}

/// Decoder for `stz2` (compact sample sizes): an alternate `stsz` encoding
/// with 4-, 8- or 16-bit size fields and identical semantics.
pub struct Stz2Decoder;

impl Stz2Decoder {
    /// Decodes an `stz2` payload: three reserved bytes, a field size of 4, 8
    /// or 16 bits, a sample count, then packed sizes (two 4-bit sizes per
    /// byte, high nibble first).
    pub fn decode(&self, data: &Vec<u8>, header: &BoxHeader) -> (r: Result<BoxValue, DecodeError>)
        ensures
            stz2_post(data@, header.typ, r),
    {
        let short = DecodeError { box_type: header.typ, kind: DecodeErrorKind::Short };
        if data.len() < 12 {
            return Err(short);
        }
        let version = data[0];
        let flags = be_u24(data, 1);
        let field_size = data[7];
        if !(field_size == 4 || field_size == 8 || field_size == 16) {
            return Err(DecodeError { box_type: header.typ, kind: DecodeErrorKind::InvalidField });
        }
        let sample_count = be_u32(data, 8);
        proof {
            lemma_be_uint_bounds(data@, 8, 4);
        }
        let needed: u64 = 12 + (if field_size == 4 {
            (sample_count as u64 + 1) / 2
        } else if field_size == 8 {
            sample_count as u64
        } else {
            2 * (sample_count as u64)
        });
        if (data.len() as u64) < needed {
            return Err(short);
        }
        let mut sample_sizes: Vec<u32> = Vec::new();
        let mut i: usize = 0;
        while i < sample_count as usize
            invariant
                sample_sizes@.len() == i,
                i <= sample_count,
                data.len() >= 12,
                field_size == data@[7],
                field_size == 4 || field_size == 8 || field_size == 16,
                12 + stz2_bytes_needed(field_size as int, sample_count as int) <= data.len(),
                forall|k: int|
                    0 <= k < i ==> #[trigger] sample_sizes@[k] == stz2_size_at(
                        data@,
                        field_size as int,
                        k,
                    ),
            decreases sample_count - i,
        {
            let v: u32 = if field_size == 4 {
                let b = data[12 + i / 2];
                if i % 2 == 0 {
                    (b / 16) as u32
                } else {
                    (b % 16) as u32
                }
            } else if field_size == 8 {
                data[12 + i] as u32
            } else {
                be_u16(data, 12 + i * 2) as u32
            };
            proof {
                assert(v == stz2_size_at(data@, field_size as int, i as int));
            }
            sample_sizes.push(v);
            i = i + 1;
        }
        Ok(
            BoxValue::Structured(
                StructuredData::SampleSize(
                    StszData { version, flags, sample_size: 0, sample_count, sample_sizes },
                ),
            ),
        )
    }
}

/// The offset within an `stsd` payload of its `k`-th sub-box.
pub open spec fn stsd_off(s: Seq<u8>, k: int) -> int
    decreases k,
{
    if k <= 0 {
        8
    } else {
        stsd_off(s, k - 1) + be_uint(s, stsd_off(s, k - 1), 4)
    }
}

/// Whether the `k`-th sub-box of an `stsd` payload is readable: its header
/// lies within the payload, its size is at least its own header, and its
/// extent stays within the payload.
pub open spec fn stsd_entry_ok(s: Seq<u8>, k: int) -> bool {
    let off = stsd_off(s, k);
    &&& off + 8 <= s.len()
    &&& be_uint(s, off, 4) >= 8
    &&& off + be_uint(s, off, 4) <= s.len()
}

/// Whether the first `k` sub-boxes of an `stsd` payload are readable.
pub open spec fn stsd_prefix_ok(s: Seq<u8>, k: int) -> bool {
    forall|j: int| 0 <= j < k ==> stsd_entry_ok(s, j)
}

/// The error kind at the first unreadable sub-box, scanning entries `k` to
/// `count`.
pub open spec fn stsd_scan_kind(s: Seq<u8>, count: int, k: int) -> DecodeErrorKind
    decreases count - k,
{
    let off = stsd_off(s, k);
    if k >= count {
        DecodeErrorKind::Short
    } else if off + 8 > s.len() {
        DecodeErrorKind::Short
    } else if be_uint(s, off, 4) < 8 {
        DecodeErrorKind::InvalidField
    } else if off + be_uint(s, off, 4) > s.len() {
        DecodeErrorKind::Short
    } else {
        stsd_scan_kind(s, count, k + 1)
    }
}

/// The full contract of the `stsd` decoder on payload `s`.
pub open spec fn stsd_post(s: Seq<u8>, typ: FourCC, r: Result<BoxValue, DecodeError>) -> bool {
    let count = spec_entry_count(s);
    &&& (r is Ok <==> (s.len() >= 8 && stsd_prefix_ok(s, count)))
    &&& (r matches Ok(v) ==> (v matches BoxValue::Structured(StructuredData::SampleDescription(d))
        && {
        &&& d.version == spec_version(s)
        &&& d.flags == spec_flags(s)
        &&& d.entry_count == count
        &&& d.entries@.len() == count
        &&& forall|k: int|
            0 <= k < d.entries@.len() ==> {
                &&& (#[trigger] d.entries@[k]).offset == stsd_off(s, k) + 8
                &&& d.entries@[k].size == be_uint(s, stsd_off(s, k), 4) - 8
                &&& d.entries@[k].format.0@ == s.subrange(stsd_off(s, k) + 4, stsd_off(s, k) + 8)
            }
    }))
    &&& (r matches Err(e) ==> e == (DecodeError {
        box_type: typ,
        kind: if s.len() < 8 {
            DecodeErrorKind::Short
        } else {
            stsd_scan_kind(s, count, 0)
        },
    }))
}

/// Decoder for `stsd` (sample descriptions).
pub struct StsdDecoder;

impl StsdDecoder {
    /// Decodes an `stsd` payload: an entry count, then one sample-entry
    /// sub-box per entry.  Sub-boxes are not decoded further; each entry
    /// records the extent of its raw sub-payload and its format code.
    pub fn decode(&self, data: &Vec<u8>, header: &BoxHeader) -> (r: Result<BoxValue, DecodeError>)
        ensures
            stsd_post(data@, header.typ, r),
    {
        let short = DecodeError { box_type: header.typ, kind: DecodeErrorKind::Short };
        let invalid = DecodeError { box_type: header.typ, kind: DecodeErrorKind::InvalidField };
        if data.len() < 8 {
            return Err(short);
        }
        let version = data[0];
        let flags = be_u24(data, 1);
        let entry_count = be_u32(data, 4);
        let len = data.len();
        let mut entries: Vec<StsdEntry> = Vec::new();
        let mut off: usize = 8;
        let mut i: usize = 0;
        while i < entry_count as usize
            invariant
                entries@.len() == i,
                i <= entry_count,
                entry_count == be_uint(data@, 4, 4),
                len == data.len(),
                8 <= off <= len,
                off == stsd_off(data@, i as int),
                stsd_prefix_ok(data@, i as int),
                short == (DecodeError { box_type: header.typ, kind: DecodeErrorKind::Short }),
                invalid == (DecodeError {
                    box_type: header.typ,
                    kind: DecodeErrorKind::InvalidField,
                }),
                forall|k: int|
                    0 <= k < i ==> {
                        &&& (#[trigger] entries@[k]).offset == stsd_off(data@, k) + 8
                        &&& entries@[k].size == be_uint(data@, stsd_off(data@, k), 4) - 8
                        &&& entries@[k].format.0@ == data@.subrange(
                            stsd_off(data@, k) + 4,
                            stsd_off(data@, k) + 8,
                        )
                    },
            decreases entry_count - i,
        {
            let ghost count = entry_count as int;
            proof {
                lemma_stsd_scan_prefix(data@, count, i as int);
            }
            if len - off < 8 {
                proof {
                    assert(stsd_scan_kind(data@, count, i as int) == DecodeErrorKind::Short);
                    assert(!stsd_entry_ok(data@, i as int));
                    assert(!stsd_prefix_ok(data@, count));
                }
                return Err(short);
            }
            let size32 = be_u32(data, off);
            if size32 < 8 {
                proof {
                    assert(stsd_scan_kind(data@, count, i as int) == DecodeErrorKind::InvalidField);
                    assert(!stsd_entry_ok(data@, i as int));
                    assert(!stsd_prefix_ok(data@, count));
                }
                return Err(invalid);
            }
            let room = (len - off) as u64;
            if room < size32 as u64 {
                proof {
                    assert(stsd_scan_kind(data@, count, i as int) == DecodeErrorKind::Short);
                    assert(!stsd_entry_ok(data@, i as int));
                    assert(!stsd_prefix_ok(data@, count));
                }
                return Err(short);
            }
            let format = FourCC([data[off + 4], data[off + 5], data[off + 6], data[off + 7]]);
            proof {
                assert(format.0@ =~= data@.subrange(off as int + 4, off as int + 8));
            }
            entries.push(
                StsdEntry {
                    offset: (off + 8) as u64,
                    size: (size32 - 8) as u64,
                    format,
                },
            );
            off = off + size32 as usize;
            i = i + 1;
        }
        Ok(
            BoxValue::Structured(
                StructuredData::SampleDescription(
                    StsdData { version, flags, entry_count, entries },
                ),
            ),
        )
    }
}

/// A scan over readable entries just moves forward: when the first `k`
/// entries are readable, the scan from the start reports whatever the scan
/// from `k` reports.
proof fn lemma_stsd_scan_prefix(s: Seq<u8>, count: int, k: int)
    requires
        0 <= k < count,
        stsd_prefix_ok(s, k),
    ensures
        stsd_scan_kind(s, count, 0) == stsd_scan_kind(s, count, k),
    decreases k,
{
    if k > 0 {
        lemma_stsd_scan_prefix(s, count, k - 1);
        assert(stsd_entry_ok(s, k - 1));
    }
}

/// The display text of the compatible-brand list of an `ftyp` payload,
/// one space-prefixed four-character code per brand, from offset `off`.
pub open spec fn ftyp_brands(s: Seq<u8>, off: int) -> Seq<char>
    decreases s.len() - off,
{
    if off < 0 || off + 4 > s.len() {
        Seq::empty()
    } else {
        seq![' '] + crate::boxes::fourcc_display(s.subrange(off, off + 4)) + ftyp_brands(
            s,
            off + 4,
        )
    }
}

/// The display text of an `ftyp` payload: major brand, minor version, and
/// the compatible brands.
pub open spec fn ftyp_text(s: Seq<u8>) -> Seq<char> {
    crate::boxes::fourcc_display(s.subrange(0, 4)) + " / "@ + crate::strings::dec_of(
        be_uint(s, 4, 4),
    ) + " /"@ + ftyp_brands(s, 8)
}

/// The full contract of the `ftyp` text decoder on payload `s`.
pub open spec fn ftyp_post(s: Seq<u8>, typ: FourCC, r: Result<BoxValue, DecodeError>) -> bool {
    &&& (r is Ok <==> s.len() >= 8)
    &&& (r matches Ok(v) ==> (v matches BoxValue::Text(t) && t@ == ftyp_text(s)))
    &&& (r matches Err(e) ==> e == (DecodeError { box_type: typ, kind: DecodeErrorKind::Short }))
}

/// Decoder for `ftyp` (file type): renders the brands as display text.
pub struct FtypDecoder;

impl FtypDecoder {
    /// Decodes an `ftyp` payload into text: the major brand, the decimal
    /// minor version, and the compatible brands, separated by slashes.
    pub fn decode(&self, data: &Vec<u8>, header: &BoxHeader) -> (r: Result<BoxValue, DecodeError>)
        ensures
            ftyp_post(data@, header.typ, r),
    {
        if data.len() < 8 {
            return Err(DecodeError { box_type: header.typ, kind: DecodeErrorKind::Short });
        }
        let major = FourCC([data[0], data[1], data[2], data[3]]);
        proof {
            assert(major.0@ =~= data@.subrange(0, 4));
        }
        let minor = be_u32(data, 4);
        let mut t = major.display();
        t.append(" / ");
        crate::strings::push_dec(&mut t, minor as u64);
        t.append(" /");
        proof {
            assert(t@ + ftyp_brands(data@, 8) == ftyp_text(data@));
        }
        let mut off: usize = 8;
        let len = data.len();
        while off <= len && len - off >= 4
            invariant
                8 <= off <= len + 4,
                len == data.len(),
                t@ + ftyp_brands(data@, off as int) == ftyp_text(data@),
            decreases len - off,
        {
            let ghost t0 = t@;
            crate::strings::push_char(&mut t, ' ');
            let brand = FourCC([data[off], data[off + 1], data[off + 2], data[off + 3]]);
            proof {
                assert(brand.0@ =~= data@.subrange(off as int, off as int + 4));
            }
            let bs = brand.display();
            t.append(bs.as_str());
            proof {
                assert(t@ =~= t0 + (seq![' '] + crate::boxes::fourcc_display(
                    data@.subrange(off as int, off as int + 4),
                )));
            }
            off = off + 4;
            proof {
                assert(ftyp_brands(data@, off as int - 4) == seq![' ']
                    + crate::boxes::fourcc_display(data@.subrange(off as int - 4, off as int))
                    + ftyp_brands(data@, off as int));
                assert(t@ + ftyp_brands(data@, off as int) =~= ftyp_text(data@));
            }
        }
        proof {
            assert(ftyp_brands(data@, off as int) =~= Seq::<char>::empty());
            assert(t@ =~= t@ + ftyp_brands(data@, off as int));
        }
        Ok(BoxValue::Text(t))
    }
}

/// Whether the registry holds a decoder for the given box key.
pub open spec fn spec_registered(key: BoxKey) -> bool {
    match key {
        BoxKey::FourCC(t) => {
            let c = t.spec_code();
            ||| c == crate::known_boxes::STTS
            ||| c == crate::known_boxes::CTTS
            ||| c == crate::known_boxes::STSC
            ||| c == crate::known_boxes::STSZ
            ||| c == crate::known_boxes::STZ2
            ||| c == crate::known_boxes::STSS
            ||| c == crate::known_boxes::STCO
            ||| c == crate::known_boxes::CO64
            ||| c == crate::known_boxes::MDHD
            ||| c == crate::known_boxes::HDLR
            ||| c == crate::known_boxes::STSD
            ||| c == crate::known_boxes::FTYP
        },
        BoxKey::Uuid(_) => false,
    }
}

/// The registry of decoders, dispatching a box key to the decoder for that
/// box type.  It is stateless: the full population is built by
/// [`default_registry`] and immutable thereafter.
pub struct Registry;

/// The registry populated with all structured decoders and the `ftyp` text
/// decoder.
pub fn default_registry() -> Registry {
    Registry
}

impl Registry {
    /// Whether a decoder exists for `key` (so callers can skip extracting
    /// payloads nobody will decode).
    pub fn is_registered(&self, key: &BoxKey) -> (r: bool)
        ensures
            r == spec_registered(*key),
    {
        match key {
            BoxKey::FourCC(t) => {
                let c = t.code();
                c == crate::known_boxes::STTS || c == crate::known_boxes::CTTS || c
                    == crate::known_boxes::STSC || c == crate::known_boxes::STSZ || c
                    == crate::known_boxes::STZ2 || c == crate::known_boxes::STSS || c
                    == crate::known_boxes::STCO || c == crate::known_boxes::CO64 || c
                    == crate::known_boxes::MDHD || c == crate::known_boxes::HDLR || c
                    == crate::known_boxes::STSD || c == crate::known_boxes::FTYP
            },
            BoxKey::Uuid(_) => false,
        }
    }

    /// Decodes `payload` with the decoder registered for `key`, or returns
    /// `None` when no decoder is registered (which is not a failure).
    ///
    /// On a hit, the result satisfies the registered decoder's contract on
    /// exactly this payload.
    pub fn decode(&self, key: &BoxKey, payload: &Vec<u8>, header: &BoxHeader) -> (r: Option<
        Result<BoxValue, DecodeError>,
    >)
        ensures
            r is Some <==> spec_registered(*key),
            (r matches Some(res) ==> (key matches BoxKey::FourCC(t) && {
                let c = t.spec_code();
                &&& (c == crate::known_boxes::STTS ==> stts_post(payload@, header.typ, res))
                &&& (c == crate::known_boxes::CTTS ==> ctts_post(payload@, header.typ, res))
                &&& (c == crate::known_boxes::STSC ==> stsc_post(payload@, header.typ, res))
                &&& (c == crate::known_boxes::STSZ ==> stsz_post(payload@, header.typ, res))
                &&& (c == crate::known_boxes::STZ2 ==> stz2_post(payload@, header.typ, res))
                &&& (c == crate::known_boxes::STSS ==> stss_post(payload@, header.typ, res))
                &&& (c == crate::known_boxes::STCO ==> stco_post(payload@, header.typ, res))
                &&& (c == crate::known_boxes::CO64 ==> co64_post(payload@, header.typ, res))
                &&& (c == crate::known_boxes::MDHD ==> mdhd_post(payload@, header.typ, res))
                &&& (c == crate::known_boxes::HDLR ==> hdlr_post(payload@, header.typ, res))
                &&& (c == crate::known_boxes::STSD ==> stsd_post(payload@, header.typ, res))
                &&& (c == crate::known_boxes::FTYP ==> ftyp_post(payload@, header.typ, res))
            })),
    {
        match key {
            BoxKey::FourCC(t) => {
                let c = t.code();
                if c == crate::known_boxes::STTS {
                    Some(SttsDecoder.decode(payload, header))
                } else if c == crate::known_boxes::CTTS {
                    Some(CttsDecoder.decode(payload, header))
                } else if c == crate::known_boxes::STSC {
                    Some(StscDecoder.decode(payload, header))
                } else if c == crate::known_boxes::STSZ {
                    Some(StszDecoder.decode(payload, header))
                } else if c == crate::known_boxes::STZ2 {
                    Some(Stz2Decoder.decode(payload, header))
                } else if c == crate::known_boxes::STSS {
                    Some(StssDecoder.decode(payload, header))
                } else if c == crate::known_boxes::STCO {
                    Some(StcoDecoder.decode(payload, header))
                } else if c == crate::known_boxes::CO64 {
                    Some(Co64Decoder.decode(payload, header))
                } else if c == crate::known_boxes::MDHD {
                    Some(MdhdDecoder.decode(payload, header))
                } else if c == crate::known_boxes::HDLR {
                    Some(HdlrDecoder.decode(payload, header))
                } else if c == crate::known_boxes::STSD {
                    Some(StsdDecoder.decode(payload, header))
                } else if c == crate::known_boxes::FTYP {
                    Some(FtypDecoder.decode(payload, header))
                } else {
                    None
                }
            },
            BoxKey::Uuid(_) => None,
        }
    }
}

} // verus!




