//! The sample-table resolver: reconstructs, for every sample of a track,
//! its decode time, presentation time, file offset, size and sync flag from
//! the run-length-encoded tables of its `stbl` box.

use vstd::prelude::*;
use vstd::string::StringExecFns;
use crate::boxes::{BoxRef, NodeKind};
use crate::bytes::{be_uint, be_u32, copy_range};
use crate::errors::AnalysisError;
use crate::known_boxes::{CO64, CTTS, HDLR, MDHD, MDIA, MINF, MOOV, STBL, STCO, STSC, STSD, STSS,
    STSZ, STTS, STZ2, TKHD, TRAK};
use crate::parser::{box_wf, children_linked, children_span, lemma_span_box_wf, parse_children};
use crate::registry::{
    BoxValue, Co64Data, CttsData, CttsEntry, Co64Decoder, CttsDecoder, HdlrDecoder, MdhdDecoder,
    StcoData, StcoDecoder, StscData, StscDecoder, StscEntry, StsdData, StsdDecoder, StssData,
    StssDecoder, SttsData, SttsDecoder, SttsEntry, StszData, StszDecoder, Stz2Decoder,
    StructuredData, mdhd_fits, mdhd_timescale, mdhd_duration,
};

verus! {

/// Everything known about one media sample.
///
/// Times are in track timescale units; callers wanting seconds divide
/// `pts` by the track's timescale.
#[derive(Debug, Clone, Copy)]
pub struct SampleInfo {
    /// 0-based sample index.
    pub index: u32,
    /// Decode time, the running sum of `stts` durations.
    pub dts: u64,
    /// Presentation time: `dts` plus the composition offset, clamped to zero.
    pub pts: u64,
    /// Duration from `stts`.
    pub duration: u32,
    /// Composition (rendered) offset from `ctts`; negative values preserved.
    pub rendered_offset: i64,
    /// Absolute byte offset in the file, from `stsc` + `stco`/`co64` + `stsz`.
    pub file_offset: u64,
    /// Sample size in bytes, from `stsz`.
    pub size: u32,
    /// Whether this is a sync sample (keyframe), from `stss`.
    pub is_sync: bool,
}

/// The samples of one track, with its identity and timing context.
#[derive(Debug, Clone)]
pub struct TrackSamples {
    pub track_id: u32,
    pub handler_type: String,
    pub timescale: u32,
    pub duration: u64,
    pub sample_count: u32,
    pub samples: Vec<SampleInfo>,
}

/// The sample tables collected from one `stbl` box.
#[derive(Debug, Clone)]
pub struct SampleTables {
    pub stsd: Option<StsdData>,
    pub stts: Option<SttsData>,
    pub ctts: Option<CttsData>,
    pub stsc: Option<StscData>,
    pub stsz: Option<StszData>,
    pub stss: Option<StssData>,
    pub stco: Option<StcoData>,
    pub co64: Option<Co64Data>,
}

/// `x` clamped to the largest 64-bit value.
pub open spec fn sat64(x: int) -> int {
    if x > u64::MAX {
        u64::MAX as int
    } else {
        x
    }
}

/// The `stts` duration of the sample `i` samples past the start of entry
/// `k`: run expansion, falling back to the last entry's duration past the
/// end of the table, and to nothing on an empty table.
pub open spec fn stts_lookup_from(entries: Seq<SttsEntry>, i: int, k: int) -> Option<u32>
    decreases entries.len() - k,
{
    if k < 0 || k >= entries.len() {
        if entries.len() == 0 {
            None
        } else {
            Some(entries.last().sample_delta)
        }
    } else if i < entries[k].sample_count {
        Some(entries[k].sample_delta)
    } else {
        stts_lookup_from(entries, i - entries[k].sample_count, k + 1)
    }
}

/// The `ctts` composition offset of the sample `i` samples past the start
/// of entry `k`: run expansion, falling back to zero past the end.
pub open spec fn ctts_lookup_from(entries: Seq<CttsEntry>, i: int, k: int) -> i32
    decreases entries.len() - k,
{
    if k < 0 || k >= entries.len() {
        0
    } else if i < entries[k].sample_count {
        entries[k].sample_offset
    } else {
        ctts_lookup_from(entries, i - entries[k].sample_count, k + 1)
    }
}

/// The duration used for sample `i`: its `stts` duration, or the default
/// (one 24th of a second, or 1000 units without a timescale) when the table
/// is absent or empty.
pub open spec fn effective_duration(stts: Option<SttsData>, timescale: u32, i: int) -> int {
    let dflt: int = if timescale > 0 {
        timescale as int / 24
    } else {
        1000
    };
    match stts {
        Option::None => dflt,
        Option::Some(t) => match stts_lookup_from(t.entries@, i, 0) {
            Option::Some(d) => d as int,
            Option::None => dflt,
        },
    }
}

/// The unclamped decode time of sample `i`: the sum of the durations of all
/// earlier samples.
pub open spec fn dts_at(stts: Option<SttsData>, timescale: u32, i: int) -> int
    decreases i,
{
    if i <= 0 {
        0
    } else {
        dts_at(stts, timescale, i - 1) + effective_duration(stts, timescale, i - 1)
    }
}

/// The composition offset recorded for sample `i` (zero without a `ctts`).
pub open spec fn rendered_offset_at(ctts: Option<CttsData>, i: int) -> int {
    match ctts {
        Option::None => 0,
        Option::Some(t) => ctts_lookup_from(t.entries@, i, 0) as int,
    }
}

/// The presentation time of sample `i`: its stored decode time plus its
/// composition offset, clamped to the representable range.
pub open spec fn pts_at(stts: Option<SttsData>, ctts: Option<CttsData>, timescale: u32, i: int) -> int {
    let p = sat64(dts_at(stts, timescale, i)) + rendered_offset_at(ctts, i);
    if p < 0 {
        0
    } else {
        sat64(p)
    }
}

/// The size of sample `i`: the fixed size when non-zero, else the
/// per-sample entry, else zero.
pub open spec fn spec_sample_size(stsz: Option<StszData>, i: int) -> int {
    match stsz {
        Option::None => 0,
        Option::Some(z) => if z.sample_size > 0 {
            z.sample_size as int
        } else if 0 <= i < z.sample_sizes@.len() {
            z.sample_sizes@[i] as int
        } else {
            0
        },
    }
}

/// Whether the 1-based sample number `n` is a sync sample: every sample is
/// without an `stss` table, else exactly the listed ones.
pub open spec fn spec_is_sync(stss: Option<StssData>, n: u32) -> bool {
    match stss {
        Option::None => true,
        Option::Some(t) => t.sample_numbers@.contains(n),
    }
}

/// The duration of sample `sample_index` from `stts` run expansion; past the
/// end of the table the last entry's duration applies, and an empty table
/// gives nothing.
pub fn get_sample_duration_from_stts(stts: &SttsData, sample_index: u32) -> (r: Option<u32>)
    ensures
        r == stts_lookup_from(stts.entries@, sample_index as int, 0),
{
    let n = stts.entries.len();
    let mut k: usize = 0;
    let mut rem: u32 = sample_index;
    while k < n
        invariant
            k <= n,
            n == stts.entries@.len(),
            stts_lookup_from(stts.entries@, sample_index as int, 0) == stts_lookup_from(
                stts.entries@,
                rem as int,
                k as int,
            ),
        decreases n - k,
    {
        let e = stts.entries[k];
        if rem < e.sample_count {
            return Some(e.sample_delta);
        }
        rem = rem - e.sample_count;
        k = k + 1;
    }
    if n == 0 {
        None
    } else {
        Some(stts.entries[n - 1].sample_delta)
    }
}

/// The composition offset of sample `sample_index` from `ctts` run
/// expansion; past the end of the table the offset is zero.
pub fn get_composition_offset_from_ctts(ctts: &CttsData, sample_index: u32) -> (r: Option<i32>)
    ensures
        r == Some(ctts_lookup_from(ctts.entries@, sample_index as int, 0)),
{
    let n = ctts.entries.len();
    let mut k: usize = 0;
    let mut rem: u32 = sample_index;
    while k < n
        invariant
            k <= n,
            n == ctts.entries@.len(),
            ctts_lookup_from(ctts.entries@, sample_index as int, 0) == ctts_lookup_from(
                ctts.entries@,
                rem as int,
                k as int,
            ),
        decreases n - k,
    {
        let e = ctts.entries[k];
        if rem < e.sample_count {
            return Some(e.sample_offset);
        }
        rem = rem - e.sample_count;
        k = k + 1;
    }
    Some(0)
}

/// The size of sample `index`: the fixed `sample_size` when non-zero (even
/// when `sample_sizes` is empty), else the per-sample entry, else zero.
pub fn get_sample_size(stsz: &Option<StszData>, index: u32) -> (r: u32)
    ensures
        r == spec_sample_size(*stsz, index as int),
{
    match stsz {
        Option::Some(z) => {
            if z.sample_size > 0 {
                z.sample_size
            } else if (index as usize) < z.sample_sizes.len() {
                z.sample_sizes[index as usize]
            } else {
                0
            }
        },
        Option::None => 0,
    }
}

/// Whether the 1-based `sample_number` is a sync sample: true for every
/// sample when `stss` is absent, else exactly when listed there.
pub fn is_sync_sample(stss: &Option<StssData>, sample_number: u32) -> (r: bool)
    ensures
        r == spec_is_sync(*stss, sample_number),
{
    match stss {
        Option::Some(t) => {
            let n = t.sample_numbers.len();
            let mut k: usize = 0;
            while k < n
                invariant
                    k <= n,
                    n == t.sample_numbers@.len(),
                    *stss == Some(*t),
                    forall|j: int| 0 <= j < k ==> t.sample_numbers@[j] != sample_number,
                decreases n - k,
            {
                if t.sample_numbers[k] == sample_number {
                    proof {
                        let ki = k as int;
                        assert(t.sample_numbers@[ki] == sample_number);
                        assert(t.sample_numbers@.contains(sample_number));
                    }
                    return true;
                }
                k = k + 1;
            }
            false
        },
        Option::None => true,
    }
}

/// The `first_chunk` fields of an `stsc` table are strictly increasing (the
/// form the decoder guarantees, stated pairwise).
pub open spec fn stsc_sorted(entries: Seq<StscEntry>) -> bool {
    forall|k1: int, k2: int|
        0 <= k1 < k2 < entries.len() ==> (#[trigger] entries[k1].first_chunk) < (
        #[trigger] entries[k2].first_chunk)
}

/// Whether the tables are the kind the decoders produce: `stsc` entries
/// strictly increasing.
pub open spec fn tables_wf(t: SampleTables) -> bool {
    t.stsc matches Some(d) ==> stsc_sorted(d.entries@)
}

/// The samples-per-chunk count that applies to 1-based chunk `c`: the one of
/// the last `stsc` entry whose `first_chunk` is at most `c`, or zero when
/// no entry covers `c`.
pub open spec fn spc_of_chunk(entries: Seq<StscEntry>, c: int) -> int
    decreases entries.len(),
{
    if entries.len() == 0 {
        0
    } else if entries.last().first_chunk <= c {
        entries.last().samples_per_chunk as int
    } else {
        spc_of_chunk(entries.drop_last(), c)
    }
}

/// The 0-based index of the first sample of 1-based chunk `c`.
pub open spec fn first_sample_of_chunk(entries: Seq<StscEntry>, c: int) -> int
    decreases c,
{
    if c <= 1 {
        0
    } else {
        first_sample_of_chunk(entries, c - 1) + spc_of_chunk(entries, c - 1)
    }
}

/// The 1-based chunk holding 0-based sample `i`, scanning chunks `c` up to
/// `nchunks`; `None` when the schedule runs out before reaching `i`.
pub open spec fn chunk_containing(entries: Seq<StscEntry>, nchunks: int, i: int, c: int) -> Option<
    int,
>
    decreases nchunks + 1 - c,
{
    if c < 1 || c > nchunks {
        None
    } else if i < first_sample_of_chunk(entries, c) + spc_of_chunk(entries, c) {
        Some(c)
    } else {
        chunk_containing(entries, nchunks, i, c + 1)
    }
}

/// The sum of the sizes of samples `lo` (inclusive) to `hi` (exclusive).
pub open spec fn sum_sizes(stsz: Option<StszData>, lo: int, hi: int) -> int
    decreases hi - lo,
{
    if lo >= hi {
        0
    } else {
        sum_sizes(stsz, lo, hi - 1) + spec_sample_size(stsz, hi - 1)
    }
}

/// The chunk offsets of the tables, 64-bit ones preferred, as integers.
pub open spec fn spec_chunk_offsets(t: SampleTables) -> Option<Seq<int>> {
    match t.co64 {
        Option::Some(d) => Some(d.chunk_offsets@.map_values(|v: u64| v as int)),
        Option::None => match t.stco {
            Option::Some(d) => Some(d.chunk_offsets@.map_values(|v: u32| v as int)),
            Option::None => None,
        },
    }
}

/// The absolute file offset of 0-based sample `i`: the offset of its chunk
/// plus the sizes of the samples before it in that chunk; zero when the
/// chunk mapping, the sizes or the chunk offsets are absent or do not reach
/// sample `i`.
pub open spec fn spec_file_offset(t: SampleTables, i: int) -> int {
    if t.stsc is None || t.stsz is None {
        0
    } else {
        let entries = t.stsc->Some_0.entries@;
        match spec_chunk_offsets(t) {
            Option::None => 0,
            Option::Some(os) => match chunk_containing(entries, os.len() as int, i, 1) {
                Option::None => 0,
                Option::Some(c) => sat64(
                    os[c - 1] + sum_sizes(t.stsz, first_sample_of_chunk(entries, c), i),
                ),
            },
        }
    }
}

/// With a cursor `j` positioned so that entries before it start at or before
/// chunk `c` and entries from it start after, the samples-per-chunk of `c`
/// is the cursor's entry (or zero before the first entry).
proof fn lemma_spc_cursor(entries: Seq<StscEntry>, c: int, j: int)
    requires
        stsc_sorted(entries),
        0 <= j <= entries.len(),
        j > 0 ==> entries[j - 1].first_chunk <= c,
        j < entries.len() ==> entries[j].first_chunk > c,
    ensures
        spc_of_chunk(entries, c) == if j == 0 {
            0int
        } else {
            entries[j - 1].samples_per_chunk as int
        },
    decreases entries.len(),
{
    let n = entries.len() as int;
    if n == 0 {
    } else if entries.last().first_chunk <= c {
        if j < n {
            if j < n - 1 {
                assert(entries[j].first_chunk < entries[n - 1].first_chunk);
            }
            assert(false);
        }
    } else {
        assert(j < n);
        let sub = entries.drop_last();
        assert(forall|k1: int, k2: int|
            0 <= k1 < k2 < sub.len() ==> (#[trigger] sub[k1].first_chunk) < (
            #[trigger] sub[k2].first_chunk));
        lemma_spc_cursor(sub, c, if j <= n - 1 {
            j
        } else {
            n - 1
        });
    }
}

/// The absolute file offset of sample `sample_index`, from the chunk
/// schedule (`stsc`), the chunk offsets (`stco`/`co64`, 64-bit preferred)
/// and the sample sizes (`stsz`): the offset of the sample's chunk plus the
/// sizes of the preceding samples in that chunk, saturated at the largest
/// 64-bit value.  Zero when `stsc`, `stsz` or the chunk offsets are absent,
/// or when the schedule ends before the sample.
pub fn get_sample_file_offset(tables: &SampleTables, sample_index: u32) -> (r: u64)
    requires
        tables_wf(*tables),
    ensures
        r == spec_file_offset(*tables, sample_index as int),
{
    let stsc = match &tables.stsc {
        Option::Some(d) => d,
        Option::None => {
            return 0;
        },
    };
    if tables.stsz.is_none() {
        return 0;
    }
    let n_chunks: usize = match (&tables.co64, &tables.stco) {
        (Option::Some(d), _) => d.chunk_offsets.len(),
        (Option::None, Option::Some(d)) => d.chunk_offsets.len(),
        (Option::None, Option::None) => {
            return 0;
        },
    };
    proof {
        assert(spec_chunk_offsets(*tables) matches Some(os) && os.len() == n_chunks);
    }
    let entries = &stsc.entries;
    let elen = entries.len();
    let i = sample_index as u64;
    let ghost es = entries@;
    let ghost nc = n_chunks as int;
    let mut cm1: usize = 0;
    let mut first: u64 = 0;
    let mut j: usize = 0;
    let mut found: Option<(usize, u64)> = None;
    while cm1 < n_chunks
        invariant_except_break
            found is None,
            tables.stsc == Some(*stsc),
            es == entries@,
            elen == es.len(),
            stsc_sorted(es),
            nc == n_chunks as int,
            i == sample_index as u64,
            0 <= cm1 <= nc,
            first == first_sample_of_chunk(es, cm1 as int + 1),
            first <= i,
            0 <= j <= elen,
            j > 0 ==> es[j as int - 1].first_chunk <= cm1 as int + 1,
            chunk_containing(es, nc, i as int, 1) == chunk_containing(
                es,
                nc,
                i as int,
                cm1 as int + 1,
            ),
        ensures
            match found {
                Some((fcm1, ff)) => {
                    &&& chunk_containing(es, nc, i as int, 1) == Some((fcm1 as int) + 1)
                    &&& ff == first_sample_of_chunk(es, fcm1 as int + 1)
                    &&& ff <= i < ff + spc_of_chunk(es, fcm1 as int + 1)
                    &&& (fcm1 as int) < nc
                },
                None => chunk_containing(es, nc, i as int, 1) is None,
            },
        decreases nc - cm1,
    {
        let c64: u64 = cm1 as u64 + 1;
        while j < elen && entries[j].first_chunk as u64 <= c64
            invariant
                es == entries@,
                elen == es.len(),
                c64 == cm1 as u64 + 1,
                0 <= j <= elen,
                j > 0 ==> es[j as int - 1].first_chunk <= cm1 as int + 1,
            decreases elen - j,
        {
            j = j + 1;
        }
        let spc: u64 = if j == 0 {
            0
        } else {
            entries[j - 1].samples_per_chunk as u64
        };
        proof {
            lemma_spc_cursor(es, cm1 as int + 1, j as int);
        }
        if i < first + spc {
            found = Some((cm1, first));
            break;
        }
        first = first + spc;
        cm1 = cm1 + 1;
    }
    let (cm1, first) = match found {
        Option::Some(p) => p,
        Option::None => {
            return 0;
        },
    };
    let base: u64 = match (&tables.co64, &tables.stco) {
        (Option::Some(d), _) => d.chunk_offsets[cm1],
        (Option::None, Option::Some(d)) => d.chunk_offsets[cm1] as u64,
        (Option::None, Option::None) => {
            return 0;
        },
    };
    proof {
        assert(base as int == spec_chunk_offsets(*tables)->Some_0[cm1 as int]);
    }
    // Sum the sizes of the earlier samples in this chunk.
    let count = i - first;
    let mut sum: u64 = 0;
    let mut k: u64 = 0;
    while k < count
        invariant
            k <= count,
            count == i - first,
            first + count <= u32::MAX,
            sum == sum_sizes(tables.stsz, first as int, first as int + k as int),
            sum <= k * (u32::MAX as int),
        decreases count - k,
    {
        let s = get_sample_size(&tables.stsz, (first + k) as u32);
        proof {
            assert(k as int * (u32::MAX as int) <= 0xFFFF_FFFFu64 * 0xFFFF_FFFFu64);
        }
        sum = sum + s as u64;
        k = k + 1;
    }
    proof {
        assert(first as int + count as int == i as int);
    }
    base.saturating_add(sum)
}

/// Everything [`build_sample_info`] promises of the sample at index `i`.
pub open spec fn sample_ok(t: SampleTables, timescale: u32, s: SampleInfo, i: int) -> bool {
    &&& s.index == i
    &&& s.duration == effective_duration(t.stts, timescale, i)
    &&& s.dts == sat64(dts_at(t.stts, timescale, i))
    &&& s.rendered_offset == rendered_offset_at(t.ctts, i)
    &&& s.pts == pts_at(t.stts, t.ctts, timescale, i)
    &&& s.size == spec_sample_size(t.stsz, i)
    &&& s.is_sync == spec_is_sync(t.stss, (i + 1) as u32)
    &&& s.file_offset == spec_file_offset(t, i)
}

/// The number of samples the tables describe: the `stsz` sample count, or
/// zero without an `stsz`.
pub open spec fn spec_sample_count(t: SampleTables) -> int {
    match t.stsz {
        Option::Some(z) => z.sample_count as int,
        Option::None => 0,
    }
}

/// Builds the per-sample records of one track from its tables: for every
/// sample its 0-based index, decode time (the running sum of durations),
/// presentation time (decode time plus composition offset, clamped at
/// zero), duration, composition offset (sign preserved), file offset, size
/// and sync flag.  Without an `stsz` table the result is empty.
pub fn build_sample_info(tables: &SampleTables, timescale: u32) -> (samples: Vec<SampleInfo>)
    requires
        tables_wf(*tables),
    ensures
        samples@.len() == spec_sample_count(*tables),
        forall|i: int|
            0 <= i < samples@.len() ==> sample_ok(*tables, timescale, #[trigger] samples@[i], i),
{
    let count: u32 = match &tables.stsz {
        Option::Some(z) => z.sample_count,
        Option::None => {
            return Vec::new();
        },
    };
    let dflt: u32 = if timescale > 0 {
        timescale / 24
    } else {
        1000
    };
    let mut samples: Vec<SampleInfo> = Vec::new();
    let mut dts: u64 = 0;
    let mut i: u32 = 0;
    while i < count
        invariant
            i <= count,
            tables_wf(*tables),
            spec_sample_count(*tables) == count,
            dflt == (if timescale > 0 {
                timescale / 24
            } else {
                1000u32
            }),
            dts == sat64(dts_at(tables.stts, timescale, i as int)),
            samples@.len() == i,
            forall|k: int|
                0 <= k < i ==> sample_ok(*tables, timescale, #[trigger] samples@[k], k),
        decreases count - i,
    {
        let duration: u32 = match &tables.stts {
            Option::Some(t) => match get_sample_duration_from_stts(t, i) {
                Option::Some(d) => d,
                Option::None => dflt,
            },
            Option::None => dflt,
        };
        let offset: i32 = match &tables.ctts {
            Option::Some(t) => match get_composition_offset_from_ctts(t, i) {
                Option::Some(o) => o,
                Option::None => 0,
            },
            Option::None => 0,
        };
        let rendered: i64 = offset as i64;
        let pts: u64 = if rendered >= 0 {
            dts.saturating_add(rendered as u64)
        } else {
            let neg = (-rendered) as u64;
            if dts < neg {
                0
            } else {
                dts - neg
            }
        };
        let s = SampleInfo {
            index: i,
            dts,
            pts,
            duration,
            rendered_offset: rendered,
            file_offset: get_sample_file_offset(tables, i),
            size: get_sample_size(&tables.stsz, i),
            is_sync: is_sync_sample(&tables.stss, i + 1),
        };
        proof {
            assert(sample_ok(*tables, timescale, s, i as int));
        }
        samples.push(s);
        dts = dts.saturating_add(duration as u64);
        i = i + 1;
    }
    samples
}

proof fn lemma_dts_nonneg(stts: Option<SttsData>, timescale: u32, i: int)
    ensures
        dts_at(stts, timescale, i) >= 0,
    decreases i,
{
    if i > 0 {
        lemma_dts_nonneg(stts, timescale, i - 1);
    }
}

/// Law: decode times accumulate the durations.  Each sample's decode time
/// is the previous one's plus the previous duration (exactly so whenever
/// the running sum still fits 64 bits), and decode times never decrease.
pub proof fn lemma_dts_chain(t: SampleTables, timescale: u32, samples: Seq<SampleInfo>, i: int)
    requires
        forall|k: int| 0 <= k < samples.len() ==> sample_ok(t, timescale, #[trigger] samples[k], k),
        0 <= i,
        i + 1 < samples.len(),
    ensures
        samples[i + 1].dts >= samples[i].dts,
        dts_at(t.stts, timescale, i + 1) <= u64::MAX ==> samples[i + 1].dts == samples[i].dts
            + samples[i].duration,
{
    lemma_dts_nonneg(t.stts, timescale, i);
    assert(dts_at(t.stts, timescale, i + 1) == dts_at(t.stts, timescale, i) + effective_duration(
        t.stts,
        timescale,
        i,
    ));
}

/// Law: presentation times are never negative, whatever the composition
/// offsets were; a negative offset larger than the decode time clamps the
/// presentation time to zero.
pub proof fn lemma_pts_nonneg(
    stts: Option<SttsData>,
    ctts: Option<CttsData>,
    timescale: u32,
    i: int,
)
    ensures
        pts_at(stts, ctts, timescale, i) >= 0,
{
    lemma_dts_nonneg(stts, timescale, i);
}

proof fn lemma_spc_nonneg(entries: Seq<StscEntry>, c: int)
    ensures
        spc_of_chunk(entries, c) >= 0,
    decreases entries.len(),
{
    if entries.len() > 0 {
        lemma_spc_nonneg(entries.drop_last(), c);
    }
}

proof fn lemma_first_sample_mono(entries: Seq<StscEntry>, c1: int, c2: int)
    requires
        c1 <= c2,
    ensures
        first_sample_of_chunk(entries, c1) <= first_sample_of_chunk(entries, c2),
    decreases c2 - c1,
{
    if c1 < c2 {
        lemma_first_sample_mono(entries, c1, c2 - 1);
        lemma_spc_nonneg(entries, c2 - 1);
    }
}

/// Scanning from chunk `cstart` finds chunk `c` for any sample that chunk
/// `c` holds.
proof fn lemma_chunk_of_sample(entries: Seq<StscEntry>, nc: int, k: int, c: int, cstart: int)
    requires
        1 <= cstart <= c <= nc,
        first_sample_of_chunk(entries, c) <= k < first_sample_of_chunk(entries, c) + spc_of_chunk(
            entries,
            c,
        ),
        k >= first_sample_of_chunk(entries, cstart),
    ensures
        chunk_containing(entries, nc, k, cstart) == Some(c),
    decreases c - cstart,
{
    if cstart < c {
        lemma_first_sample_mono(entries, cstart + 1, c);
        lemma_chunk_of_sample(entries, nc, k, c, cstart + 1);
    }
}

proof fn lemma_sum_sizes_nonneg(stsz: Option<StszData>, lo: int, hi: int)
    ensures
        sum_sizes(stsz, lo, hi) >= 0,
    decreases hi - lo,
{
    if lo < hi {
        lemma_sum_sizes_nonneg(stsz, lo, hi - 1);
    }
}

/// Law: within one chunk the file offsets are the running sums of the
/// sample sizes.  For any sample `k` that 1-based chunk `c` holds, the end
/// of sample `k` is the chunk's start plus the sizes of samples up to and
/// including `k`; with `k` the last sample of the chunk this says the sum
/// of the sizes across the chunk equals the chunk's on-disk footprint.  The
/// next sample of the same chunk starts exactly where sample `k` ends.
pub proof fn lemma_chunk_footprint(t: SampleTables, c: int, k: int)
    requires
        tables_wf(t),
        t.stsc is Some,
        t.stsz is Some,
        spec_chunk_offsets(t) is Some,
        1 <= c <= spec_chunk_offsets(t)->Some_0.len(),
        first_sample_of_chunk(t.stsc->Some_0.entries@, c) <= k,
        k < first_sample_of_chunk(t.stsc->Some_0.entries@, c) + spc_of_chunk(
            t.stsc->Some_0.entries@,
            c,
        ),
        spec_chunk_offsets(t)->Some_0[c - 1] + sum_sizes(
            t.stsz,
            first_sample_of_chunk(t.stsc->Some_0.entries@, c),
            k + 1,
        ) <= u64::MAX,
    ensures
        spec_file_offset(t, k) + spec_sample_size(t.stsz, k) == spec_chunk_offsets(t)->Some_0[c
            - 1] + sum_sizes(t.stsz, first_sample_of_chunk(t.stsc->Some_0.entries@, c), k + 1),
        k + 1 < first_sample_of_chunk(t.stsc->Some_0.entries@, c) + spc_of_chunk(
            t.stsc->Some_0.entries@,
            c,
        ) ==> spec_file_offset(t, k + 1) == spec_file_offset(t, k) + spec_sample_size(t.stsz, k),
{
    let entries = t.stsc->Some_0.entries@;
    let os = spec_chunk_offsets(t)->Some_0;
    let first = first_sample_of_chunk(entries, c);
    lemma_first_sample_mono(entries, 1, c);
    lemma_chunk_of_sample(entries, os.len() as int, k, c, 1);
    lemma_sum_sizes_nonneg(t.stsz, first, k);
    assert(sum_sizes(t.stsz, first, k + 1) == sum_sizes(t.stsz, first, k) + spec_sample_size(
        t.stsz,
        k,
    ));
    if k + 1 < first + spc_of_chunk(entries, c) {
        lemma_chunk_of_sample(entries, os.len() as int, k + 1, c, 1);
        assert(sum_sizes(t.stsz, first, k + 2) == sum_sizes(t.stsz, first, k + 1)
            + spec_sample_size(t.stsz, k + 1));
    }
}

/// A box whose parse is well-formed within some region of the data.
pub open spec fn subtree_ok(s: Seq<u8>, b: BoxRef) -> bool {
    exists|e: int| box_wf(s, b, e)
}

/// The bytes a decoder is given for box `b`: its whole payload after the
/// header, the full-box `version + flags` prefix included (a container has
/// no decodable payload).
pub open spec fn spec_child_payload(s: Seq<u8>, b: BoxRef) -> Seq<u8> {
    match b.kind {
        NodeKind::FullBox { data_offset, data_len, .. } => s.subrange(
            data_offset as int - 4,
            data_offset as int + data_len as int,
        ),
        NodeKind::Leaf { data_offset, data_len } => s.subrange(
            data_offset as int,
            data_offset as int + data_len as int,
        ),
        NodeKind::Unknown { data_offset, data_len } => s.subrange(
            data_offset as int,
            data_offset as int + data_len as int,
        ),
        NodeKind::Container(_) => Seq::empty(),
    }
}

/// The children of a container box (a non-container has none).
pub open spec fn spec_children(b: BoxRef) -> Seq<BoxRef> {
    match b.kind {
        NodeKind::Container(cs) => cs@,
        _ => Seq::empty(),
    }
}

/// The first box of `cs`, from index `i` on, whose type has code `code`.
pub open spec fn spec_find_child_from(cs: Seq<BoxRef>, code: int, i: int) -> Option<BoxRef>
    decreases cs.len() - i,
{
    if i < 0 || i >= cs.len() {
        None
    } else if cs[i].hdr.typ.spec_code() == code {
        Some(cs[i])
    } else {
        spec_find_child_from(cs, code, i + 1)
    }
}

/// The first box of `cs` whose type has code `code`.
pub open spec fn spec_find_child(cs: Seq<BoxRef>, code: int) -> Option<BoxRef> {
    spec_find_child_from(cs, code, 0)
}

/// Finds the first child with the given type code, returning it with its
/// index.
fn find_child<'a>(children: &'a Vec<BoxRef>, code: u32) -> (r: Option<(usize, &'a BoxRef)>)
    ensures
        match r {
            Some((j, b)) => {
                &&& 0 <= j < children@.len()
                &&& children@[j as int] == *b
                &&& spec_find_child(children@, code as int) == Some(*b)
            },
            None => spec_find_child(children@, code as int) is None,
        },
{
    let n = children.len();
    let mut i: usize = 0;
    while i < n
        invariant
            i <= n,
            n == children@.len(),
            spec_find_child(children@, code as int) == spec_find_child_from(
                children@,
                code as int,
                i as int,
            ),
        decreases n - i,
    {
        if children[i].hdr.typ.code() == code {
            return Some((i, &children[i]));
        }
        i = i + 1;
    }
    None
}

/// The last box of `cs`, below index `i`, whose type has code `code`.
pub open spec fn spec_rfind_child_from(cs: Seq<BoxRef>, code: int, i: int) -> Option<BoxRef>
    decreases i,
{
    if i <= 0 || i > cs.len() {
        None
    } else if cs[i - 1].hdr.typ.spec_code() == code {
        Some(cs[i - 1])
    } else {
        spec_rfind_child_from(cs, code, i - 1)
    }
}

/// The last box of `cs` whose type has code `code` (when the same table box
/// occurs twice, the later one wins).
pub open spec fn spec_find_last_child(cs: Seq<BoxRef>, code: int) -> Option<BoxRef> {
    spec_rfind_child_from(cs, code, cs.len() as int)
}

/// Finds the last child with the given type code, returning it with its
/// index.
fn find_last_child<'a>(children: &'a Vec<BoxRef>, code: u32) -> (r: Option<(usize, &'a BoxRef)>)
    ensures
        match r {
            Some((j, b)) => {
                &&& 0 <= j < children@.len()
                &&& children@[j as int] == *b
                &&& spec_find_last_child(children@, code as int) == Some(*b)
            },
            None => spec_find_last_child(children@, code as int) is None,
        },
{
    let mut i: usize = children.len();
    while i > 0
        invariant
            i <= children@.len(),
            spec_find_last_child(children@, code as int) == spec_rfind_child_from(
                children@,
                code as int,
                i as int,
            ),
        decreases i,
    {
        i = i - 1;
        if children[i].hdr.typ.code() == code {
            return Some((i, &children[i]));
        }
    }
    None
}

/// A well-formed container's children are themselves well-formed parses.
pub proof fn lemma_child_subtree_ok(s: Seq<u8>, b: BoxRef, j: int)
    requires
        subtree_ok(s, b),
        0 <= j < spec_children(b).len(),
    ensures
        subtree_ok(s, spec_children(b)[j]),
{
    let e = choose|e: int| box_wf(s, b, e);
    let cs = spec_children(b);
    let pos = b.hdr.start as int;
    let hs = crate::parser::spec_hdr_size(s, pos);
    let code = be_uint(s, pos + 4, 4);
    let eb = if b.hdr.size == 0 {
        e
    } else {
        pos + b.hdr.size
    };
    let content = pos + hs + (if crate::known_boxes::spec_is_hybrid(code) {
        4int
    } else {
        0int
    });
    assert(children_span(s, cs, content, eb, eb));
    lemma_span_box_wf(s, cs, content, eb, eb, j);
}

/// Copies the decodable payload of box `b` out of the data.
pub fn child_payload(data: &Vec<u8>, b: &BoxRef) -> (p: Vec<u8>)
    requires
        subtree_ok(data@, *b),
    ensures
        p@ == spec_child_payload(data@, *b),
{
    let n = data.len();
    proof {
        let e = choose|e: int| box_wf(data@, *b, e);
        assert(box_wf(data@, *b, e));
        assert(data@.len() == n);
    }
    match &b.kind {
        NodeKind::FullBox { data_offset, data_len, .. } => {
            proof {
                assert(*data_offset >= 12 && *data_offset + *data_len <= n);
            }
            copy_range(data, (*data_offset - 4) as usize, (*data_len + 4) as usize)
        },
        NodeKind::Leaf { data_offset, data_len } => {
            copy_range(data, *data_offset as usize, *data_len as usize)
        },
        NodeKind::Unknown { data_offset, data_len } => {
            copy_range(data, *data_offset as usize, *data_len as usize)
        },
        NodeKind::Container(_) => {
            let r: Vec<u8> = Vec::new();
            proof {
                assert(r@ =~= spec_child_payload(data@, *b));
            }
            r
        },
    }
}

/// The track id read from the `tkhd` child of a `trak` box: a 32-bit field
/// after the version-dependent creation and modification times, defaulting
/// to 1 when `tkhd` is absent or too short.
pub open spec fn spec_track_id(s: Seq<u8>, trak: BoxRef) -> int {
    match spec_find_child(spec_children(trak), TKHD as int) {
        Option::Some(b) => match b.kind {
            NodeKind::FullBox { version, data_offset, data_len, .. } => {
                let off = data_offset as int + (if version == 1 {
                    16int
                } else {
                    8int
                });
                if off + 4 <= data_offset as int + data_len as int {
                    be_uint(s, off, 4)
                } else {
                    1
                }
            },
            _ => 1,
        },
        Option::None => 1,
    }
}

/// Reads the track id from the `trak` box's `tkhd` child (see
/// [`spec_track_id`]); 1 when it cannot be read.
pub fn find_track_id(trak: &BoxRef, data: &Vec<u8>) -> (r: u32)
    requires
        subtree_ok(data@, *trak),
    ensures
        r == spec_track_id(data@, *trak),
{
    let children = match &trak.kind {
        NodeKind::Container(cs) => cs,
        _ => {
            return 1;
        },
    };
    let (j, tkhd) = match find_child(children, TKHD) {
        Option::Some(p) => p,
        Option::None => {
            return 1;
        },
    };
    let n = data.len();
    proof {
        lemma_child_subtree_ok(data@, *trak, j as int);
        let e = choose|e: int| box_wf(data@, *tkhd, e);
        assert(box_wf(data@, *tkhd, e));
        assert(data@.len() == n);
    }
    match &tkhd.kind {
        NodeKind::FullBox { version, data_offset, data_len, .. } => {
            let skip: u64 = if *version == 1 {
                16
            } else {
                8
            };
            if skip + 4 <= *data_len {
                be_u32(data, (*data_offset + skip) as usize)
            } else {
                1
            }
        },
        _ => 1,
    }
}

/// The `mdia` child of a `trak` box.
pub open spec fn spec_mdia(trak: BoxRef) -> Option<BoxRef> {
    spec_find_child(spec_children(trak), MDIA as int)
}

/// The last `code`-typed grandchild of `trak` through its first `mdia` (of
/// duplicate metadata boxes, the later one wins).
pub open spec fn spec_media_child(trak: BoxRef, code: int) -> Option<BoxRef> {
    match spec_mdia(trak) {
        Option::Some(m) => spec_find_last_child(spec_children(m), code),
        Option::None => None,
    }
}

/// The track timescale from `mdia/mdhd`, defaulting to 1000.
pub open spec fn spec_timescale(s: Seq<u8>, trak: BoxRef) -> int {
    match spec_media_child(trak, MDHD as int) {
        Option::Some(b) => if mdhd_fits(spec_child_payload(s, b)) {
            mdhd_timescale(spec_child_payload(s, b))
        } else {
            1000
        },
        Option::None => 1000,
    }
}

/// The track duration from `mdia/mdhd`, defaulting to 0.
pub open spec fn spec_duration_of(s: Seq<u8>, trak: BoxRef) -> int {
    match spec_media_child(trak, MDHD as int) {
        Option::Some(b) => if mdhd_fits(spec_child_payload(s, b)) {
            mdhd_duration(spec_child_payload(s, b))
        } else {
            0
        },
        Option::None => 0,
    }
}

/// The handler type from `mdia/hdlr` as display text, defaulting to "vide".
pub open spec fn spec_handler(s: Seq<u8>, trak: BoxRef) -> Seq<char> {
    match spec_media_child(trak, HDLR as int) {
        Option::Some(b) => if spec_child_payload(s, b).len() >= 12 {
            crate::boxes::fourcc_display(spec_child_payload(s, b).subrange(8, 12))
        } else {
            "vide"@
        },
        Option::None => "vide"@,
    }
}

/// Reads the handler type, timescale and duration of the track from its
/// `mdia/hdlr` and `mdia/mdhd` boxes, with the defaults `"vide"`, 1000 and
/// 0 where they are absent or unreadable.
pub fn find_media_info(trak: &BoxRef, data: &Vec<u8>) -> (r: (String, u32, u64))
    requires
        subtree_ok(data@, *trak),
    ensures
        r.0@ == spec_handler(data@, *trak),
        r.1 == spec_timescale(data@, *trak),
        r.2 == spec_duration_of(data@, *trak),
{
    let mut handler = String::from_str("vide");
    let mut timescale: u32 = 1000;
    let mut duration: u64 = 0;
    let children = match &trak.kind {
        NodeKind::Container(cs) => cs,
        _ => {
            return (handler, timescale, duration);
        },
    };
    let (jm, mdia) = match find_child(children, MDIA) {
        Option::Some(p) => p,
        Option::None => {
            return (handler, timescale, duration);
        },
    };
    proof {
        lemma_child_subtree_ok(data@, *trak, jm as int);
    }
    let mchildren = match &mdia.kind {
        NodeKind::Container(cs) => cs,
        _ => {
            return (handler, timescale, duration);
        },
    };
    if let Option::Some((jh, mdhd)) = find_last_child(mchildren, MDHD) {
        proof {
            lemma_child_subtree_ok(data@, *mdia, jh as int);
        }
        let p = child_payload(data, mdhd);
        match MdhdDecoder.decode(&p, &mdhd.hdr) {
            Ok(BoxValue::Structured(StructuredData::MediaHeader(d))) => {
                timescale = d.timescale;
                duration = d.duration;
            },
            Ok(_) => {
                proof {
                    assert(false);
                }
            },
            Err(_) => {},
        }
    }
    if let Option::Some((jh, hdlr)) = find_last_child(mchildren, HDLR) {
        proof {
            lemma_child_subtree_ok(data@, *mdia, jh as int);
        }
        let p = child_payload(data, hdlr);
        match HdlrDecoder.decode(&p, &hdlr.hdr) {
            Ok(BoxValue::Structured(StructuredData::HandlerReference(d))) => {
                handler = d.handler_type;
            },
            Ok(_) => {
                proof {
                    assert(false);
                }
            },
            Err(_) => {},
        }
    }
    (handler, timescale, duration)
}

/// The `mdia/minf/stbl` box of a `trak` box.
pub open spec fn spec_find_stbl(trak: BoxRef) -> Option<BoxRef> {
    match spec_mdia(trak) {
        Option::Some(m) => match spec_find_child(spec_children(m), MINF as int) {
            Option::Some(f) => spec_find_child(spec_children(f), STBL as int),
            Option::None => None,
        },
        Option::None => None,
    }
}

/// Navigates to the sample-table container `mdia/minf/stbl` of a `trak`
/// box; `None` when the path is missing.
pub fn find_stbl_box<'a>(trak: &'a BoxRef, Ghost(s): Ghost<Seq<u8>>) -> (r: Option<&'a BoxRef>)
    requires
        subtree_ok(s, *trak),
    ensures
        match r {
            Some(b) => spec_find_stbl(*trak) == Some(*b) && subtree_ok(s, *b),
            None => spec_find_stbl(*trak) is None,
        },
{
    let children = match &trak.kind {
        NodeKind::Container(cs) => cs,
        _ => {
            return None;
        },
    };
    let (jm, mdia) = match find_child(children, MDIA) {
        Option::Some(p) => p,
        Option::None => {
            return None;
        },
    };
    proof {
        lemma_child_subtree_ok(s, *trak, jm as int);
    }
    let mchildren = match &mdia.kind {
        NodeKind::Container(cs) => cs,
        _ => {
            return None;
        },
    };
    let (jf, minf) = match find_child(mchildren, MINF) {
        Option::Some(p) => p,
        Option::None => {
            return None;
        },
    };
    proof {
        lemma_child_subtree_ok(s, *mdia, jf as int);
    }
    let fchildren = match &minf.kind {
        NodeKind::Container(cs) => cs,
        _ => {
            return None;
        },
    };
    let (js, stbl) = match find_child(fchildren, STBL) {
        Option::Some(p) => p,
        Option::None => {
            return None;
        },
    };
    proof {
        lemma_child_subtree_ok(s, *minf, js as int);
    }
    Some(stbl)
}

/// What [`extract_sample_tables`] promises of its result: for each table
/// type, the field holds exactly a valid decode of the first child of that
/// type (`stz2` standing in for a missing `stsz`), and is empty when no such
/// child exists.
pub open spec fn tables_from(s: Seq<u8>, stbl: BoxRef, t: SampleTables) -> bool {
    let cs = spec_children(stbl);
    &&& match spec_find_last_child(cs, STSD as int) {
        Option::None => t.stsd is None,
        Option::Some(b) => t.stsd matches Some(d) && crate::registry::stsd_post(
            spec_child_payload(s, b),
            b.hdr.typ,
            Ok(BoxValue::Structured(StructuredData::SampleDescription(d))),
        ),
    }
    &&& match spec_find_last_child(cs, STTS as int) {
        Option::None => t.stts is None,
        Option::Some(b) => t.stts matches Some(d) && crate::registry::stts_post(
            spec_child_payload(s, b),
            b.hdr.typ,
            Ok(BoxValue::Structured(StructuredData::DecodingTimeToSample(d))),
        ),
    }
    &&& match spec_find_last_child(cs, CTTS as int) {
        Option::None => t.ctts is None,
        Option::Some(b) => t.ctts matches Some(d) && crate::registry::ctts_post(
            spec_child_payload(s, b),
            b.hdr.typ,
            Ok(BoxValue::Structured(StructuredData::CompositionTimeToSample(d))),
        ),
    }
    &&& match spec_find_last_child(cs, STSC as int) {
        Option::None => t.stsc is None,
        Option::Some(b) => t.stsc matches Some(d) && crate::registry::stsc_post(
            spec_child_payload(s, b),
            b.hdr.typ,
            Ok(BoxValue::Structured(StructuredData::SampleToChunk(d))),
        ),
    }
    &&& match spec_find_last_child(cs, STSZ as int) {
        Option::Some(b) => t.stsz matches Some(d) && crate::registry::stsz_post(
            spec_child_payload(s, b),
            b.hdr.typ,
            Ok(BoxValue::Structured(StructuredData::SampleSize(d))),
        ),
        Option::None => match spec_find_last_child(cs, STZ2 as int) {
            Option::Some(b) => t.stsz matches Some(d) && crate::registry::stz2_post(
                spec_child_payload(s, b),
                b.hdr.typ,
                Ok(BoxValue::Structured(StructuredData::SampleSize(d))),
            ),
            Option::None => t.stsz is None,
        },
    }
    &&& match spec_find_last_child(cs, STSS as int) {
        Option::None => t.stss is None,
        Option::Some(b) => t.stss matches Some(d) && crate::registry::stss_post(
            spec_child_payload(s, b),
            b.hdr.typ,
            Ok(BoxValue::Structured(StructuredData::SyncSample(d))),
        ),
    }
    &&& match spec_find_last_child(cs, STCO as int) {
        Option::None => t.stco is None,
        Option::Some(b) => t.stco matches Some(d) && crate::registry::stco_post(
            spec_child_payload(s, b),
            b.hdr.typ,
            Ok(BoxValue::Structured(StructuredData::ChunkOffset(d))),
        ),
    }
    &&& match spec_find_last_child(cs, CO64 as int) {
        Option::None => t.co64 is None,
        Option::Some(b) => t.co64 matches Some(d) && crate::registry::co64_post(
            spec_child_payload(s, b),
            b.hdr.typ,
            Ok(BoxValue::Structured(StructuredData::ChunkOffset64(d))),
        ),
    }
}

/// Strictly increasing adjacent `first_chunk` words give strictly
/// increasing values anywhere in the table.
proof fn lemma_stsc_fc_mono(p: Seq<u8>, k1: int, k2: int)
    requires
        crate::registry::stsc_chunks_valid(p),
        0 <= k1 < k2 < crate::registry::spec_entry_count(p),
    ensures
        be_uint(p, 8 + 12 * k1, 4) < be_uint(p, 8 + 12 * k2, 4),
    decreases k2 - k1,
{
    if k1 + 1 < k2 {
        lemma_stsc_fc_mono(p, k1, k2 - 1);
    }
}

/// A decoded `stsc` table has strictly increasing `first_chunk` fields.
proof fn lemma_stsc_sorted(p: Seq<u8>, d: StscData)
    requires
        d.entries@.len() == crate::registry::spec_entry_count(p),
        forall|k: int|
            0 <= k < d.entries@.len() ==> (#[trigger] d.entries@[k]).first_chunk == be_uint(
                p,
                8 + 12 * k,
                4,
            ),
        crate::registry::stsc_chunks_valid(p),
    ensures
        stsc_sorted(d.entries@),
{
    assert forall|k1: int, k2: int| 0 <= k1 < k2 < d.entries@.len() implies (
    #[trigger] d.entries@[k1].first_chunk) < (#[trigger] d.entries@[k2].first_chunk) by {
        lemma_stsc_fc_mono(p, k1, k2);
    }
}

/// Finds the last child of the given type and copies out its payload and
/// header; `None` when no such child exists.
fn find_payload(children: &Vec<BoxRef>, data: &Vec<u8>, stbl: &BoxRef, code: u32) -> (r: Option<
    (Vec<u8>, crate::boxes::BoxHeader),
>)
    requires
        subtree_ok(data@, *stbl),
        spec_children(*stbl) == children@,
    ensures
        match r {
            Some(p) => spec_find_last_child(children@, code as int) matches Some(b) && p.0@
                == spec_child_payload(data@, b) && p.1 == b.hdr,
            None => spec_find_last_child(children@, code as int) is None,
        },
{
    match find_last_child(children, code) {
        Option::Some((j, b)) => {
            proof {
                lemma_child_subtree_ok(data@, *stbl, j as int);
            }
            let p = child_payload(data, b);
            Some((p, b.hdr))
        },
        Option::None => None,
    }
}

/// Whether every sample-table child of the `stbl` box decodes: for each
/// table type either no child of that type exists, or its payload satisfies
/// that decoder's success condition.  This is exactly the success condition
/// of [`extract_sample_tables`].
pub open spec fn tables_decodable(s: Seq<u8>, stbl: BoxRef) -> bool {
    let cs = spec_children(stbl);
    &&& match spec_find_last_child(cs, STSD as int) {
        Option::None => true,
        Option::Some(b) => {
            let p = spec_child_payload(s, b);
            p.len() >= 8 && crate::registry::stsd_prefix_ok(p, crate::registry::spec_entry_count(p))
        },
    }
    &&& match spec_find_last_child(cs, STTS as int) {
        Option::None => true,
        Option::Some(b) => crate::registry::table_fits(spec_child_payload(s, b), 8),
    }
    &&& match spec_find_last_child(cs, CTTS as int) {
        Option::None => true,
        Option::Some(b) => crate::registry::table_fits(spec_child_payload(s, b), 8),
    }
    &&& match spec_find_last_child(cs, STSC as int) {
        Option::None => true,
        Option::Some(b) => {
            let p = spec_child_payload(s, b);
            crate::registry::table_fits(p, 12) && crate::registry::stsc_chunks_valid(p)
        },
    }
    &&& match spec_find_last_child(cs, STSZ as int) {
        Option::Some(b) => {
            let p = spec_child_payload(s, b);
            p.len() >= 12 && (be_uint(p, 4, 4) != 0 || p.len() >= 12 + be_uint(p, 8, 4) * 4)
        },
        Option::None => match spec_find_last_child(cs, STZ2 as int) {
            Option::Some(b) => {
                let p = spec_child_payload(s, b);
                let fs = if p.len() >= 8 {
                    p[7] as int
                } else {
                    0
                };
                &&& p.len() >= 12
                &&& (fs == 4 || fs == 8 || fs == 16)
                &&& p.len() >= 12 + crate::registry::stz2_bytes_needed(fs, be_uint(p, 8, 4))
            },
            Option::None => true,
        },
    }
    &&& match spec_find_last_child(cs, STSS as int) {
        Option::None => true,
        Option::Some(b) => {
            let p = spec_child_payload(s, b);
            crate::registry::table_fits(p, 4) && crate::registry::stss_numbers_valid(p)
        },
    }
    &&& match spec_find_last_child(cs, STCO as int) {
        Option::None => true,
        Option::Some(b) => crate::registry::table_fits(spec_child_payload(s, b), 4),
    }
    &&& match spec_find_last_child(cs, CO64 as int) {
        Option::None => true,
        Option::Some(b) => crate::registry::table_fits(spec_child_payload(s, b), 8),
    }
}

/// Collects the sample tables from the structured children of an `stbl`
/// box: for each table type the last child of that type, decoded (`stz2`
/// serving as an alternate `stsz` when no `stsz` child exists).  A present but malformed table aborts
/// this track with `InvalidSampleTable`.
#[verifier::rlimit(100)]
#[verifier::spinoff_prover]
pub fn extract_sample_tables(stbl: &BoxRef, data: &Vec<u8>, track_id: u32) -> (r: Result<
    SampleTables,
    AnalysisError,
>)
    requires
        subtree_ok(data@, *stbl),
    ensures
        r is Ok <==> tables_decodable(data@, *stbl),
        r matches Ok(t) ==> tables_from(data@, *stbl, t) && tables_wf(t),
        r matches Err(e) ==> e == (AnalysisError::InvalidSampleTable { track_id }),
{
    let mut tables = SampleTables {
        stsd: None,
        stts: None,
        ctts: None,
        stsc: None,
        stsz: None,
        stss: None,
        stco: None,
        co64: None,
    };
    let err = AnalysisError::InvalidSampleTable { track_id };
    let children = match &stbl.kind {
        NodeKind::Container(cs) => cs,
        _ => {
            return Ok(tables);
        },
    };
    if let Option::Some((p, h)) = find_payload(children, data, stbl, STSD) {
        match StsdDecoder.decode(&p, &h) {
            Ok(BoxValue::Structured(StructuredData::SampleDescription(d))) => {
                tables.stsd = Some(d);
            },
            Ok(_) => {
                proof {
                    assert(false);
                }
            },
            Err(_) => {
                return Err(err);
            },
        }
    }
    if let Option::Some((p, h)) = find_payload(children, data, stbl, STTS) {
        match SttsDecoder.decode(&p, &h) {
            Ok(BoxValue::Structured(StructuredData::DecodingTimeToSample(d))) => {
                tables.stts = Some(d);
            },
            Ok(_) => {
                proof {
                    assert(false);
                }
            },
            Err(_) => {
                return Err(err);
            },
        }
    }
    if let Option::Some((p, h)) = find_payload(children, data, stbl, CTTS) {
        match CttsDecoder.decode(&p, &h) {
            Ok(BoxValue::Structured(StructuredData::CompositionTimeToSample(d))) => {
                tables.ctts = Some(d);
            },
            Ok(_) => {
                proof {
                    assert(false);
                }
            },
            Err(_) => {
                return Err(err);
            },
        }
    }
    if let Option::Some((p, h)) = find_payload(children, data, stbl, STSC) {
        match StscDecoder.decode(&p, &h) {
            Ok(BoxValue::Structured(StructuredData::SampleToChunk(d))) => {
                proof {
                    lemma_stsc_sorted(p@, d);
                }
                tables.stsc = Some(d);
            },
            Ok(_) => {
                proof {
                    assert(false);
                }
            },
            Err(_) => {
                return Err(err);
            },
        }
    }
    match find_payload(children, data, stbl, STSZ) {
        Option::Some((p, h)) => {
            match StszDecoder.decode(&p, &h) {
                Ok(BoxValue::Structured(StructuredData::SampleSize(d))) => {
                    tables.stsz = Some(d);
                },
                Ok(_) => {
                    proof {
                        assert(false);
                    }
                },
                Err(_) => {
                    return Err(err);
                },
            }
        },
        Option::None => {
            if let Option::Some((p, h)) = find_payload(children, data, stbl, STZ2) {
                match Stz2Decoder.decode(&p, &h) {
                    Ok(BoxValue::Structured(StructuredData::SampleSize(d))) => {
                        tables.stsz = Some(d);
                    },
                    Ok(_) => {
                        proof {
                            assert(false);
                        }
                    },
                    Err(_) => {
                        return Err(err);
                    },
                }
            }
        },
    }
    if let Option::Some((p, h)) = find_payload(children, data, stbl, STSS) {
        match StssDecoder.decode(&p, &h) {
            Ok(BoxValue::Structured(StructuredData::SyncSample(d))) => {
                tables.stss = Some(d);
            },
            Ok(_) => {
                proof {
                    assert(false);
                }
            },
            Err(_) => {
                return Err(err);
            },
        }
    }
    if let Option::Some((p, h)) = find_payload(children, data, stbl, STCO) {
        match StcoDecoder.decode(&p, &h) {
            Ok(BoxValue::Structured(StructuredData::ChunkOffset(d))) => {
                tables.stco = Some(d);
            },
            Ok(_) => {
                proof {
                    assert(false);
                }
            },
            Err(_) => {
                return Err(err);
            },
        }
    }
    if let Option::Some((p, h)) = find_payload(children, data, stbl, CO64) {
        match Co64Decoder.decode(&p, &h) {
            Ok(BoxValue::Structured(StructuredData::ChunkOffset64(d))) => {
                tables.co64 = Some(d);
            },
            Ok(_) => {
                proof {
                    assert(false);
                }
            },
            Err(_) => {
                return Err(err);
            },
        }
    }
    Ok(tables)
}

/// Why a track yields no samples: it has no `mdia/minf/stbl`, or its tables
/// lack the chunk mapping (`stsc`) or the sizes (`stsz`).
pub open spec fn trak_skips(s: Seq<u8>, trak: BoxRef) -> bool {
    match spec_find_stbl(trak) {
        Option::None => true,
        Option::Some(stbl) => exists|t: SampleTables|
            #[trigger] tables_from(s, stbl, t) && (t.stsc is None || t.stsz is None),
    }
}

/// Why a track's extraction fails: it has an `stbl` and one of its table
/// boxes is malformed.  The failure is captured per track; the other tracks
/// of the container still resolve.
pub open spec fn trak_fails(s: Seq<u8>, trak: BoxRef) -> bool {
    spec_find_stbl(trak) matches Some(stbl) && !tables_decodable(s, stbl)
}

/// Everything a produced `TrackSamples` promises: identity and timing from
/// `tkhd`, `mdhd` and `hdlr`, and one record per sample satisfying
/// [`sample_ok`] for the tables decoded from the track's `stbl`.
pub open spec fn trak_emits(s: Seq<u8>, trak: BoxRef, ts: TrackSamples) -> bool {
    &&& ts.track_id == spec_track_id(s, trak)
    &&& ts.handler_type@ == spec_handler(s, trak)
    &&& ts.timescale == spec_timescale(s, trak)
    &&& ts.duration == spec_duration_of(s, trak)
    &&& spec_find_stbl(trak) matches Some(stbl) && (exists|t: SampleTables|
        {
            &&& #[trigger] tables_from(s, stbl, t)
            &&& t.stsc is Some
            &&& t.stsz is Some
            &&& ts.sample_count == ts.samples@.len()
            &&& ts.samples@.len() == spec_sample_count(t)
            &&& forall|i: int|
                0 <= i < ts.samples@.len() ==> sample_ok(t, ts.timescale, #[trigger] ts.samples@[i], i)
        })
}

/// Law: the three per-track outcomes exclude one another.  A track that
/// emits samples has decodable tables holding both `stsc` and `stsz`, so it
/// neither skips nor fails; with the tracks of a parse pinned, `tracks_ok`
/// therefore admits exactly one output sequence.
pub proof fn lemma_track_outcomes_exclusive(s: Seq<u8>, trak: BoxRef, ts: TrackSamples)
    requires
        trak_emits(s, trak, ts),
    ensures
        !trak_skips(s, trak),
        !trak_fails(s, trak),
{
    let stbl = spec_find_stbl(trak)->Some_0;
    let t = choose|t: SampleTables|
        #[trigger] tables_from(s, stbl, t) && t.stsc is Some && t.stsz is Some;
    assert(tables_from(s, stbl, t) && t.stsc is Some && t.stsz is Some);
    // The tables pin the presence of each field to the same child lookup,
    // so any other tables drawn from this stbl agree on presence.
    assert forall|t2: SampleTables| #[trigger] tables_from(s, stbl, t2) implies t2.stsc is Some
        && t2.stsz is Some by {
        assert(spec_find_last_child(spec_children(stbl), STSC as int) is Some);
        assert(spec_find_last_child(spec_children(stbl), STSZ as int) is Some
            || spec_find_last_child(spec_children(stbl), STZ2 as int) is Some);
    }
    // Every table field of `t` is a successful decode, whose contract says
    // success happens exactly when the payload fits: the stbl is decodable.
    assert(tables_decodable(s, stbl));
}

/// Resolves one `trak` box to its samples.
///
/// Yields `None` when the track has no `mdia/minf/stbl`, or its tables lack
/// `stsc` or `stsz`; a present but malformed table is an
/// `InvalidSampleTable` error for this track alone.  On success the result
/// satisfies [`trak_emits`]: exact identity, timing, offsets, sizes and
/// sync flags for every sample.
pub fn extract_track_samples(trak: &BoxRef, data: &Vec<u8>) -> (r: Result<
    Option<TrackSamples>,
    AnalysisError,
>)
    requires
        subtree_ok(data@, *trak),
    ensures
        r is Err <==> trak_fails(data@, *trak),
        r matches Ok(o) ==> (o is Some <==> (spec_find_stbl(*trak) matches Some(stbl) && {
            let cs = spec_children(stbl);
            spec_find_last_child(cs, STSC as int) is Some && (spec_find_last_child(
                cs,
                STSZ as int,
            ) is Some || spec_find_last_child(cs, STZ2 as int) is Some)
        })),
        r matches Ok(Some(ts)) ==> trak_emits(data@, *trak, ts),
        r matches Ok(None) ==> trak_skips(data@, *trak),
        r matches Err(e) ==> e == (AnalysisError::InvalidSampleTable {
            track_id: spec_track_id(data@, *trak) as u32,
        }),
{
    let track_id = find_track_id(trak, data);
    let (handler_type, timescale, duration) = find_media_info(trak, data);
    let stbl = match find_stbl_box(trak, Ghost(data@)) {
        Option::Some(b) => b,
        Option::None => {
            return Ok(None);
        },
    };
    let tables = match extract_sample_tables(stbl, data, track_id) {
        Ok(t) => t,
        Err(e) => {
            return Err(e);
        },
    };
    if tables.stsc.is_none() || tables.stsz.is_none() {
        return Ok(None);
    }
    let samples = build_sample_info(&tables, timescale);
    let sample_count = samples.len() as u32;
    let ts = TrackSamples { track_id, handler_type, timescale, duration, sample_count, samples };
    proof {
        assert(tables_from(data@, *stbl, tables));
        assert(trak_emits(data@, *trak, ts));
    }
    Ok(Some(ts))
}

/// The outputs `out` are exactly what the tracks `traks` yield, in order:
/// each track either skips (no sample table: nothing), fails (a malformed
/// table, captured for that track alone: nothing), or emits the next output.
pub open spec fn tracks_ok(s: Seq<u8>, traks: Seq<BoxRef>, out: Seq<TrackSamples>) -> bool
    decreases traks.len(),
{
    if traks.len() == 0 {
        out.len() == 0
    } else {
        ||| (trak_skips(s, traks[0]) && tracks_ok(s, traks.drop_first(), out))
        ||| (trak_fails(s, traks[0]) && tracks_ok(s, traks.drop_first(), out))
        ||| (out.len() > 0 && trak_emits(s, traks[0], out[0]) && tracks_ok(
            s,
            traks.drop_first(),
            out.drop_first(),
        ))
    }
}

proof fn lemma_tracks_ok_skip(s: Seq<u8>, traks: Seq<BoxRef>, out: Seq<TrackSamples>, nt: BoxRef)
    requires
        tracks_ok(s, traks, out),
        trak_skips(s, nt) || trak_fails(s, nt),
    ensures
        tracks_ok(s, traks.push(nt), out),
    decreases traks.len(),
{
    reveal_with_fuel(tracks_ok, 3);
    if traks.len() == 0 {
        assert(traks.push(nt).drop_first() =~= Seq::<BoxRef>::empty());
    } else {
        assert(traks.push(nt).drop_first() =~= traks.drop_first().push(nt));
        assert(traks.push(nt)[0] == traks[0]);
        if (trak_skips(s, traks[0]) || trak_fails(s, traks[0])) && tracks_ok(
            s,
            traks.drop_first(),
            out,
        ) {
            lemma_tracks_ok_skip(s, traks.drop_first(), out, nt);
        } else {
            lemma_tracks_ok_skip(s, traks.drop_first(), out.drop_first(), nt);
        }
    }
}

proof fn lemma_tracks_ok_emit(
    s: Seq<u8>,
    traks: Seq<BoxRef>,
    out: Seq<TrackSamples>,
    nt: BoxRef,
    ts: TrackSamples,
)
    requires
        tracks_ok(s, traks, out),
        trak_emits(s, nt, ts),
    ensures
        tracks_ok(s, traks.push(nt), out.push(ts)),
    decreases traks.len(),
{
    reveal_with_fuel(tracks_ok, 3);
    if traks.len() == 0 {
        assert(traks.push(nt).drop_first() =~= Seq::<BoxRef>::empty());
        assert(out.push(ts).drop_first() =~= Seq::<TrackSamples>::empty());
        assert(out.push(ts)[0] == ts);
    } else {
        assert(traks.push(nt).drop_first() =~= traks.drop_first().push(nt));
        assert(traks.push(nt)[0] == traks[0]);
        if (trak_skips(s, traks[0]) || trak_fails(s, traks[0])) && tracks_ok(
            s,
            traks.drop_first(),
            out,
        ) {
            lemma_tracks_ok_emit(s, traks.drop_first(), out, nt, ts);
        } else {
            assert(out.push(ts).drop_first() =~= out.drop_first().push(ts));
            assert(out.push(ts)[0] == out[0]);
            lemma_tracks_ok_emit(s, traks.drop_first(), out.drop_first(), nt, ts);
        }
    }
}

/// The `trak`-typed boxes of a child list, in order.
pub open spec fn trak_children(cs: Seq<BoxRef>) -> Seq<BoxRef>
    decreases cs.len(),
{
    if cs.len() == 0 {
        Seq::empty()
    } else {
        (if cs[0].hdr.typ.spec_code() == TRAK {
            seq![cs[0]]
        } else {
            Seq::empty()
        }) + trak_children(cs.drop_first())
    }
}

/// The `trak` children a top-level box contributes: those of a `moov`-typed
/// container, nothing otherwise.
pub open spec fn moov_traks(b: BoxRef) -> Seq<BoxRef> {
    if b.hdr.typ.spec_code() == MOOV {
        trak_children(spec_children(b))
    } else {
        Seq::empty()
    }
}

/// All tracks of a parse: the `trak` children of the `moov`-typed top-level
/// boxes, depth first and in file order.
pub open spec fn traks_of(bs: Seq<BoxRef>) -> Seq<BoxRef>
    decreases bs.len(),
{
    if bs.len() == 0 {
        Seq::empty()
    } else {
        moov_traks(bs[0]) + traks_of(bs.drop_first())
    }
}

proof fn lemma_trak_children_push(cs: Seq<BoxRef>, b: BoxRef)
    ensures
        trak_children(cs.push(b)) == trak_children(cs) + (if b.hdr.typ.spec_code() == TRAK {
            seq![b]
        } else {
            Seq::<BoxRef>::empty()
        }),
    decreases cs.len(),
{
    reveal_with_fuel(trak_children, 3);
    let tail = if b.hdr.typ.spec_code() == TRAK {
        seq![b]
    } else {
        Seq::<BoxRef>::empty()
    };
    if cs.len() == 0 {
        assert(cs.push(b).drop_first() =~= Seq::<BoxRef>::empty());
        assert(cs.push(b)[0] == b);
        assert(trak_children(cs.push(b)) =~= trak_children(cs) + tail);
    } else {
        assert(cs.push(b).drop_first() =~= cs.drop_first().push(b));
        assert(cs.push(b)[0] == cs[0]);
        lemma_trak_children_push(cs.drop_first(), b);
        assert(trak_children(cs.push(b)) =~= trak_children(cs) + tail);
    }
}

proof fn lemma_traks_of_push(bs: Seq<BoxRef>, b: BoxRef)
    ensures
        traks_of(bs.push(b)) == traks_of(bs) + moov_traks(b),
    decreases bs.len(),
{
    reveal_with_fuel(traks_of, 3);
    if bs.len() == 0 {
        assert(bs.push(b).drop_first() =~= Seq::<BoxRef>::empty());
        assert(bs.push(b)[0] == b);
        assert(traks_of(bs.push(b)) =~= traks_of(bs) + moov_traks(b));
    } else {
        assert(bs.push(b).drop_first() =~= bs.drop_first().push(b));
        assert(bs.push(b)[0] == bs[0]);
        lemma_traks_of_push(bs.drop_first(), b);
        assert(traks_of(bs.push(b)) =~= traks_of(bs) + moov_traks(b));
    }
}

/// The outputs `out` are what the tracks of a parse of `s` yield: there is
/// a tiling of the whole data into top-level boxes whose `moov`/`trak`
/// children, in file order, produce exactly `out` ([`tracks_ok`]).
pub open spec fn tracks_of_parse_ok(s: Seq<u8>, out: Seq<TrackSamples>) -> bool {
    exists|bs: Seq<BoxRef>|
        #[trigger] children_linked(s, bs, 0, s.len() as int) && tracks_ok(s, traks_of(bs), out)
}

/// Resolves every track of the container held in `data`: one entry per
/// `trak` child of each top-level `moov` box, in file order.  A track
/// without a usable sample table contributes nothing: it is skipped when
/// `stbl`, `stsc` or `stsz` is missing, and a malformed table is captured
/// for that track alone, the remaining tracks still resolving.  The only
/// error is a malformed box header, which aborts the analysis.
pub fn track_samples(data: &Vec<u8>) -> (r: Result<Vec<TrackSamples>, AnalysisError>)
    ensures
        r is Ok <==> crate::parser::region_parses(data@, 0, data.len() as int),
        r matches Ok(v) ==> tracks_of_parse_ok(data@, v@),
        r matches Err(e) ==> e is MalformedHeader,
{
    let len = data.len() as u64;
    let mut warnings: Vec<u64> = Vec::new();
    let boxes = match parse_children(data, 0, len, &mut warnings) {
        Ok(bs) => bs,
        Err(e) => {
            return Err(e);
        },
    };
    let mut result: Vec<TrackSamples> = Vec::new();
    let ghost mut gtraks: Seq<BoxRef> = Seq::empty();
    let nb = boxes.len();
    let mut bi: usize = 0;
    proof {
        assert(boxes@.subrange(0, 0) =~= Seq::<BoxRef>::empty());
        assert(gtraks =~= traks_of(boxes@.subrange(0, 0)));
    }
    while bi < nb
        invariant
            bi <= nb,
            nb == boxes@.len(),
            len == data.len() as u64,
            children_linked(data@, boxes@, 0, len as int),
            gtraks == traks_of(boxes@.subrange(0, bi as int)),
            tracks_ok(data@, gtraks, result@),
        decreases nb - bi,
    {
        let b = &boxes[bi];
        proof {
            lemma_span_box_wf(data@, boxes@, 0, len as int, len as int, bi as int);
        }
        if b.hdr.typ.code() == MOOV {
            if let NodeKind::Container(children) = &b.kind {
                let ncs = children.len();
                let mut ci: usize = 0;
                proof {
                    assert(children@.subrange(0, 0) =~= Seq::<BoxRef>::empty());
                    assert(trak_children(children@.subrange(0, 0)) =~= Seq::<BoxRef>::empty());
                    assert(gtraks =~= traks_of(boxes@.subrange(0, bi as int)) + trak_children(
                        children@.subrange(0, 0),
                    ));
                }
                while ci < ncs
                    invariant
                        ci <= ncs,
                        ncs == children@.len(),
                        bi < nb == boxes@.len(),
                        *b == boxes@[bi as int],
                        b.hdr.typ.spec_code() == MOOV,
                        b.kind matches NodeKind::Container(cs) && cs@ == children@,
                        subtree_ok(data@, *b),
                        len == data.len() as u64,
                        gtraks == traks_of(boxes@.subrange(0, bi as int)) + trak_children(
                            children@.subrange(0, ci as int),
                        ),
                        tracks_ok(data@, gtraks, result@),
                    decreases ncs - ci,
                {
                    let child = &children[ci];
                    if child.hdr.typ.code() == TRAK {
                        proof {
                            lemma_child_subtree_ok(data@, *b, ci as int);
                        }
                        match extract_track_samples(child, data) {
                            Ok(Some(ts)) => {
                                proof {
                                    lemma_tracks_ok_emit(data@, gtraks, result@, *child, ts);
                                    gtraks = gtraks.push(*child);
                                }
                                result.push(ts);
                            },
                            Ok(None) => {
                                proof {
                                    lemma_tracks_ok_skip(data@, gtraks, result@, *child);
                                    gtraks = gtraks.push(*child);
                                }
                            },
                            Err(_) => {
                                // A malformed sample table is captured for
                                // this track alone; the walk goes on.
                                proof {
                                    lemma_tracks_ok_skip(data@, gtraks, result@, *child);
                                    gtraks = gtraks.push(*child);
                                }
                            },
                        }
                        proof {
                            lemma_trak_children_push(children@.subrange(0, ci as int), *child);
                            assert(children@.subrange(0, ci as int + 1) =~= children@.subrange(
                                0,
                                ci as int,
                            ).push(children@[ci as int]));
                            assert(gtraks =~= traks_of(boxes@.subrange(0, bi as int))
                                + trak_children(children@.subrange(0, ci as int + 1)));
                        }
                    } else {
                        proof {
                            lemma_trak_children_push(children@.subrange(0, ci as int), *child);
                            assert(children@.subrange(0, ci as int + 1) =~= children@.subrange(
                                0,
                                ci as int,
                            ).push(children@[ci as int]));
                            assert(gtraks =~= traks_of(boxes@.subrange(0, bi as int))
                                + trak_children(children@.subrange(0, ci as int + 1)));
                        }
                    }
                    ci = ci + 1;
                }
                proof {
                    assert(children@.subrange(0, ncs as int) =~= children@);
                    lemma_traks_of_push(boxes@.subrange(0, bi as int), *b);
                    assert(boxes@.subrange(0, bi as int + 1) =~= boxes@.subrange(0, bi as int).push(
                        boxes@[bi as int],
                    ));
                    assert(moov_traks(*b) == trak_children(children@));
                    assert(gtraks =~= traks_of(boxes@.subrange(0, bi as int + 1)));
                }
            } else {
                proof {
                    lemma_traks_of_push(boxes@.subrange(0, bi as int), *b);
                    assert(boxes@.subrange(0, bi as int + 1) =~= boxes@.subrange(0, bi as int).push(
                        boxes@[bi as int],
                    ));
                    assert(moov_traks(boxes@[bi as int]) =~= Seq::<BoxRef>::empty());
                    assert(gtraks =~= traks_of(boxes@.subrange(0, bi as int + 1)));
                }
            }
        } else {
            proof {
                lemma_traks_of_push(boxes@.subrange(0, bi as int), *b);
                assert(boxes@.subrange(0, bi as int + 1) =~= boxes@.subrange(0, bi as int).push(
                    boxes@[bi as int],
                ));
                assert(moov_traks(boxes@[bi as int]) =~= Seq::<BoxRef>::empty());
                assert(gtraks =~= traks_of(boxes@.subrange(0, bi as int + 1)));
            }
        }
        bi = bi + 1;
    }
    proof {
        assert(boxes@.subrange(0, nb as int) =~= boxes@);
        assert(tracks_of_parse_ok(data@, result@)) by {
            assert(children_linked(data@, boxes@, 0, data@.len() as int) && tracks_ok(
                data@,
                traks_of(boxes@),
                result@,
            ));
        }
    }
    Ok(result)
}

} // verus!




