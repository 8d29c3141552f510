use mp4box::registry::{
    Co64Data, CttsData, CttsEntry, StcoData, StscData, StscEntry, StssData, SttsData, SttsEntry,
    StszData,
};
use mp4box::samples::{
    build_sample_info, get_composition_offset_from_ctts, get_sample_duration_from_stts,
    get_sample_file_offset, get_sample_size, is_sync_sample, SampleTables,
};

fn empty_tables() -> SampleTables {
    SampleTables {
        stsd: None,
        stts: None,
        ctts: None,
        stsc: None,
        stsz: None,
        stss: None,
        stco: None,
        co64: None,
    }
}

fn stts(entries: Vec<(u32, u32)>) -> SttsData {
    let entries: Vec<SttsEntry> = entries
        .into_iter()
        .map(|(sample_count, sample_delta)| SttsEntry { sample_count, sample_delta })
        .collect();
    SttsData { version: 0, flags: 0, entry_count: entries.len() as u32, entries }
}

fn stsc(entries: Vec<(u32, u32, u32)>) -> StscData {
    let entries: Vec<StscEntry> = entries
        .into_iter()
        .map(|(first_chunk, samples_per_chunk, sample_description_index)| StscEntry {
            first_chunk,
            samples_per_chunk,
            sample_description_index,
        })
        .collect();
    StscData { version: 0, flags: 0, entry_count: entries.len() as u32, entries }
}

fn stsz_fixed(sample_size: u32, sample_count: u32) -> StszData {
    StszData { version: 0, flags: 0, sample_size, sample_count, sample_sizes: Vec::new() }
}

fn stco(chunk_offsets: Vec<u32>) -> StcoData {
    StcoData { version: 0, flags: 0, entry_count: chunk_offsets.len() as u32, chunk_offsets }
}

#[test]
fn stts_run_expansion() {
    // Two runs: 100 samples of 1024 units, one of 512, at timescale 1000.
    let mut tables = empty_tables();
    tables.stts = Some(stts(vec![(100, 1024), (1, 512)]));
    tables.stsz = Some(stsz_fixed(1, 101));
    tables.stsc = Some(stsc(vec![(1, 101, 1)]));
    tables.stco = Some(stco(vec![0]));

    let samples = build_sample_info(&tables, 1000);
    assert_eq!(samples.len(), 101);

    assert_eq!(samples[0].dts, 0);
    assert_eq!(samples[0].pts, 0);
    assert_eq!(samples[0].duration, 1024);
    assert!(samples[0].is_sync);

    assert_eq!(samples[99].dts, 99 * 1024);
    assert_eq!(samples[99].duration, 1024);

    assert_eq!(samples[100].dts, 100 * 1024);
    assert_eq!(samples[100].duration, 512);
}

#[test]
fn dts_accumulates_durations() {
    let mut tables = empty_tables();
    tables.stts = Some(stts(vec![(3, 10), (2, 7)]));
    tables.stsz = Some(stsz_fixed(1, 5));
    tables.stsc = Some(stsc(vec![(1, 5, 1)]));
    tables.stco = Some(stco(vec![0]));
    let samples = build_sample_info(&tables, 1000);
    for i in 0..samples.len() - 1 {
        assert_eq!(samples[i + 1].dts, samples[i].dts + samples[i].duration as u64);
        assert!(samples[i + 1].dts >= samples[i].dts);
    }
}

#[test]
fn chunk_offsets_from_stsc_and_stco() {
    // 5 samples per chunk from chunk 1, chunks at 1000 and 5000, all
    // samples 200 bytes.
    let mut tables = empty_tables();
    tables.stsc = Some(stsc(vec![(1, 5, 1)]));
    tables.stco = Some(stco(vec![1000, 5000]));
    tables.stsz = Some(stsz_fixed(200, 10));

    assert_eq!(get_sample_file_offset(&tables, 0), 1000);
    assert_eq!(get_sample_file_offset(&tables, 4), 1800);
    assert_eq!(get_sample_file_offset(&tables, 5), 5000);
    assert_eq!(get_sample_file_offset(&tables, 9), 5800);
}

#[test]
fn chunk_footprint_is_sum_of_sizes() {
    // Variable sizes; one chunk of 3 samples starting at 100.
    let mut tables = empty_tables();
    tables.stsc = Some(stsc(vec![(1, 3, 1)]));
    tables.stco = Some(stco(vec![100]));
    tables.stsz = Some(StszData {
        version: 0,
        flags: 0,
        sample_size: 0,
        sample_count: 3,
        sample_sizes: vec![10, 20, 30],
    });
    assert_eq!(get_sample_file_offset(&tables, 0), 100);
    assert_eq!(get_sample_file_offset(&tables, 1), 110);
    assert_eq!(get_sample_file_offset(&tables, 2), 130);
    // The whole chunk occupies exactly the sum of its sample sizes.
    let end = get_sample_file_offset(&tables, 2) + 30;
    assert_eq!(end - 100, 10 + 20 + 30);
}

#[test]
fn negative_composition_offsets_reach_outputs() {
    // ctts v1 with offset -50 on three samples of duration 100.
    let mut tables = empty_tables();
    tables.stts = Some(stts(vec![(3, 100)]));
    tables.ctts = Some(CttsData {
        version: 1,
        flags: 0,
        entry_count: 1,
        entries: vec![CttsEntry { sample_count: 3, sample_offset: -50 }],
    });
    tables.stsz = Some(stsz_fixed(1, 3));
    tables.stsc = Some(stsc(vec![(1, 3, 1)]));
    tables.stco = Some(stco(vec![0]));

    let samples = build_sample_info(&tables, 1000);
    assert_eq!(samples.len(), 3);
    let pts: Vec<u64> = samples.iter().map(|s| s.pts).collect();
    assert_eq!(pts, vec![0, 50, 150]);
    for s in &samples {
        assert_eq!(s.rendered_offset, -50);
    }
}

#[test]
fn sync_flags_follow_stss() {
    let mut tables = empty_tables();
    tables.stsz = Some(stsz_fixed(1, 5));
    tables.stsc = Some(stsc(vec![(1, 5, 1)]));
    tables.stco = Some(stco(vec![0]));
    tables.stss = Some(StssData {
        version: 0,
        flags: 0,
        entry_count: 2,
        sample_numbers: vec![1, 4],
    });
    let samples = build_sample_info(&tables, 1000);
    let flags: Vec<bool> = samples.iter().map(|s| s.is_sync).collect();
    assert_eq!(flags, vec![true, false, false, true, false]);
}

#[test]
fn all_sync_without_stss() {
    assert!(is_sync_sample(&None, 1));
    assert!(is_sync_sample(&None, 7));
    let some = Some(StssData { version: 0, flags: 0, entry_count: 1, sample_numbers: vec![2] });
    assert!(!is_sync_sample(&some, 1));
    assert!(is_sync_sample(&some, 2));
}

#[test]
fn fixed_sample_size_without_entries() {
    // A non-zero fixed size applies even with an empty size table.
    let z = Some(stsz_fixed(200, 4));
    assert_eq!(get_sample_size(&z, 0), 200);
    assert_eq!(get_sample_size(&z, 3), 200);
    assert_eq!(get_sample_size(&None, 0), 0);
}

#[test]
fn duration_lookup_past_table_end_uses_last_entry() {
    let t = stts(vec![(2, 10), (1, 20)]);
    assert_eq!(get_sample_duration_from_stts(&t, 0), Some(10));
    assert_eq!(get_sample_duration_from_stts(&t, 1), Some(10));
    assert_eq!(get_sample_duration_from_stts(&t, 2), Some(20));
    assert_eq!(get_sample_duration_from_stts(&t, 7), Some(20));
    let empty = stts(vec![]);
    assert_eq!(get_sample_duration_from_stts(&empty, 0), None);
}

#[test]
fn composition_lookup_past_table_end_is_zero() {
    let t = CttsData {
        version: 0,
        flags: 0,
        entry_count: 1,
        entries: vec![CttsEntry { sample_count: 2, sample_offset: 9 }],
    };
    assert_eq!(get_composition_offset_from_ctts(&t, 0), Some(9));
    assert_eq!(get_composition_offset_from_ctts(&t, 5), Some(0));
}

#[test]
fn co64_offsets_preferred() {
    let mut tables = empty_tables();
    tables.stsc = Some(stsc(vec![(1, 1, 1)]));
    tables.stco = Some(stco(vec![7]));
    tables.co64 = Some(Co64Data {
        version: 0,
        flags: 0,
        entry_count: 1,
        chunk_offsets: vec![4294967296],
    });
    tables.stsz = Some(stsz_fixed(1, 1));
    assert_eq!(get_sample_file_offset(&tables, 0), 4294967296);
}
