use mp4box::boxes::{BoxHeader, FourCC};
use mp4box::errors::DecodeErrorKind;
use mp4box::registry::{
    BoxValue, Co64Decoder, CttsDecoder, FtypDecoder, HdlrDecoder, MdhdDecoder, StscDecoder,
    StssDecoder, StsdDecoder, SttsDecoder, StszDecoder, StructuredData, Stz2Decoder,
};

fn header(typ: &[u8; 4], size: u64) -> BoxHeader {
    BoxHeader { typ: FourCC(*typ), uuid: None, size, header_size: 8, start: 0 }
}

#[test]
fn test_stts_structured_decoding() {
    // Create mock STTS box data
    let mock_data = vec![
        0, 0, 0, 0, // version + flags
        0, 0, 0, 2, // entry_count = 2
        0, 0, 0, 100, // sample_count = 100
        0, 0, 4, 0, // sample_delta = 1024
        0, 0, 0, 1, // sample_count = 1
        0, 0, 2, 0, // sample_delta = 512
    ];

    let header = BoxHeader {
        typ: FourCC(*b"stts"),
        uuid: None,
        size: 32,
        header_size: 8,
        start: 0,
    };

    let decoder = SttsDecoder;
    let result = decoder.decode(&mock_data, &header).unwrap();

    match result {
        BoxValue::Structured(StructuredData::DecodingTimeToSample(stts_data)) => {
            assert_eq!(stts_data.version, 0);
            assert_eq!(stts_data.flags, 0);
            assert_eq!(stts_data.entry_count, 2);
            assert_eq!(stts_data.entries.len(), 2);

            assert_eq!(stts_data.entries[0].sample_count, 100);
            assert_eq!(stts_data.entries[0].sample_delta, 1024);

            assert_eq!(stts_data.entries[1].sample_count, 1);
            assert_eq!(stts_data.entries[1].sample_delta, 512);
        }
        _ => panic!("Expected structured STTS data"),
    }
}

#[test]
fn test_stsz_structured_decoding() {
    // Create mock STSZ box data with individual sample sizes
    let mock_data = vec![
        0, 0, 0, 0, // version + flags
        0, 0, 0, 0, // sample_size = 0 (individual sizes)
        0, 0, 0, 3, // sample_count = 3
        0, 0, 3, 232, // size = 1000
        0, 0, 7, 208, // size = 2000
        0, 0, 11, 184, // size = 3000
    ];

    let header = BoxHeader {
        typ: FourCC(*b"stsz"),
        uuid: None,
        size: 28,
        header_size: 8,
        start: 0,
    };

    let decoder = StszDecoder;
    let result = decoder.decode(&mock_data, &header).unwrap();

    match result {
        BoxValue::Structured(StructuredData::SampleSize(stsz_data)) => {
            assert_eq!(stsz_data.version, 0);
            assert_eq!(stsz_data.flags, 0);
            assert_eq!(stsz_data.sample_size, 0);
            assert_eq!(stsz_data.sample_count, 3);
            assert_eq!(stsz_data.sample_sizes.len(), 3);

            assert_eq!(stsz_data.sample_sizes[0], 1000);
            assert_eq!(stsz_data.sample_sizes[1], 2000);
            assert_eq!(stsz_data.sample_sizes[2], 3000);
        }
        _ => panic!("Expected structured STSZ data"),
    }
}

#[test]
fn test_stsc_structured_decoding() {
    // Create mock STSC box data
    let mock_data = vec![
        0, 0, 0, 0, // version + flags
        0, 0, 0, 2, // entry_count = 2
        0, 0, 0, 1, // first_chunk = 1
        0, 0, 0, 5, // samples_per_chunk = 5
        0, 0, 0, 1, // sample_description_index = 1
        0, 0, 0, 10, // first_chunk = 10
        0, 0, 0, 3, // samples_per_chunk = 3
        0, 0, 0, 1, // sample_description_index = 1
    ];

    let header = BoxHeader {
        typ: FourCC(*b"stsc"),
        uuid: None,
        size: 36,
        header_size: 8,
        start: 0,
    };

    let decoder = StscDecoder;
    let result = decoder.decode(&mock_data, &header).unwrap();

    match result {
        BoxValue::Structured(StructuredData::SampleToChunk(stsc_data)) => {
            assert_eq!(stsc_data.version, 0);
            assert_eq!(stsc_data.flags, 0);
            assert_eq!(stsc_data.entry_count, 2);
            assert_eq!(stsc_data.entries.len(), 2);

            assert_eq!(stsc_data.entries[0].first_chunk, 1);
            assert_eq!(stsc_data.entries[0].samples_per_chunk, 5);
            assert_eq!(stsc_data.entries[0].sample_description_index, 1);

            assert_eq!(stsc_data.entries[1].first_chunk, 10);
            assert_eq!(stsc_data.entries[1].samples_per_chunk, 3);
            assert_eq!(stsc_data.entries[1].sample_description_index, 1);
        }
        _ => panic!("Expected structured STSC data"),
    }
}

#[test]
fn stts_short_payload_is_short_error() {
    let mock_data = vec![0, 0, 0, 0, 0, 0, 0, 2, 0, 0, 0, 100]; // one entry missing
    let e = SttsDecoder.decode(&mock_data, &header(b"stts", 20)).unwrap_err();
    assert_eq!(e.kind, DecodeErrorKind::Short);
}

#[test]
fn stsc_non_increasing_first_chunk_is_invalid() {
    let mock_data = vec![
        0, 0, 0, 0, 0, 0, 0, 2, //
        0, 0, 0, 5, 0, 0, 0, 5, 0, 0, 0, 1, // first_chunk = 5
        0, 0, 0, 5, 0, 0, 0, 3, 0, 0, 0, 1, // first_chunk = 5 again
    ];
    let e = StscDecoder.decode(&mock_data, &header(b"stsc", 36)).unwrap_err();
    assert_eq!(e.kind, DecodeErrorKind::InvalidField);
}

#[test]
fn ctts_version1_preserves_negative_offsets() {
    let mock_data = vec![
        1, 0, 0, 0, // version = 1
        0, 0, 0, 1, // entry_count = 1
        0, 0, 0, 3, // sample_count = 3
        0xFF, 0xFF, 0xFF, 0xCE, // sample_offset = -50
    ];
    let result = CttsDecoder.decode(&mock_data, &header(b"ctts", 24)).unwrap();
    match result {
        BoxValue::Structured(StructuredData::CompositionTimeToSample(d)) => {
            assert_eq!(d.version, 1);
            assert_eq!(d.entries.len(), 1);
            assert_eq!(d.entries[0].sample_count, 3);
            assert_eq!(d.entries[0].sample_offset, -50);
        }
        _ => panic!("Expected structured CTTS data"),
    }
}

#[test]
fn ctts_version0_saturates_large_offsets() {
    let mock_data = vec![
        0, 0, 0, 0, // version = 0
        0, 0, 0, 1, //
        0, 0, 0, 1, //
        0xFF, 0xFF, 0xFF, 0xCE, // too large for i32: saturated
    ];
    let result = CttsDecoder.decode(&mock_data, &header(b"ctts", 24)).unwrap();
    match result {
        BoxValue::Structured(StructuredData::CompositionTimeToSample(d)) => {
            assert_eq!(d.entries[0].sample_offset, i32::MAX);
        }
        _ => panic!("Expected structured CTTS data"),
    }
}

#[test]
fn stss_strictly_increasing_required() {
    let good = vec![0, 0, 0, 0, 0, 0, 0, 2, 0, 0, 0, 1, 0, 0, 0, 4];
    let result = StssDecoder.decode(&good, &header(b"stss", 24)).unwrap();
    match result {
        BoxValue::Structured(StructuredData::SyncSample(d)) => {
            assert_eq!(d.sample_numbers, vec![1, 4]);
        }
        _ => panic!("Expected structured STSS data"),
    }
    let bad = vec![0, 0, 0, 0, 0, 0, 0, 2, 0, 0, 0, 4, 0, 0, 0, 1];
    let e = StssDecoder.decode(&bad, &header(b"stss", 24)).unwrap_err();
    assert_eq!(e.kind, DecodeErrorKind::InvalidField);
}

#[test]
fn mdhd_version0_and_version1() {
    let v0 = vec![
        0, 0, 0, 0, // version 0
        0, 0, 0, 1, // creation
        0, 0, 0, 2, // modification
        0, 0, 3, 232, // timescale = 1000
        0, 0, 0, 50, // duration = 50
    ];
    match MdhdDecoder.decode(&v0, &header(b"mdhd", 28)).unwrap() {
        BoxValue::Structured(StructuredData::MediaHeader(d)) => {
            assert_eq!(d.version, 0);
            assert_eq!(d.timescale, 1000);
            assert_eq!(d.duration, 50);
        }
        _ => panic!("Expected structured MDHD data"),
    }
    let mut v1 = vec![1, 0, 0, 0];
    v1.extend_from_slice(&[0; 16]); // 64-bit creation + modification
    v1.extend_from_slice(&[0, 1, 0, 0]); // timescale = 65536
    v1.extend_from_slice(&[0, 0, 0, 0, 0, 0, 2, 0]); // duration = 512
    match MdhdDecoder.decode(&v1, &header(b"mdhd", 40)).unwrap() {
        BoxValue::Structured(StructuredData::MediaHeader(d)) => {
            assert_eq!(d.version, 1);
            assert_eq!(d.timescale, 65536);
            assert_eq!(d.duration, 512);
        }
        _ => panic!("Expected structured MDHD data"),
    }
}

#[test]
fn mdhd_unknown_version_is_unsupported() {
    let payload = vec![2, 0, 0, 0, 0, 0, 0, 0];
    let e = MdhdDecoder.decode(&payload, &header(b"mdhd", 16)).unwrap_err();
    assert_eq!(e.kind, DecodeErrorKind::Unsupported);
}

#[test]
fn hdlr_reads_handler_type() {
    let payload = vec![
        0, 0, 0, 0, // version + flags
        0, 0, 0, 0, // pre_defined
        b'v', b'i', b'd', b'e', // handler type
        0, 0, 0, 0,
    ];
    match HdlrDecoder.decode(&payload, &header(b"hdlr", 24)).unwrap() {
        BoxValue::Structured(StructuredData::HandlerReference(d)) => {
            assert_eq!(d.handler_type, "vide");
        }
        _ => panic!("Expected structured HDLR data"),
    }
}

#[test]
fn co64_reads_wide_offsets() {
    let payload = vec![
        0, 0, 0, 0, //
        0, 0, 0, 1, //
        0, 0, 0, 1, 0, 0, 0, 0, // 2^32
    ];
    match Co64Decoder.decode(&payload, &header(b"co64", 24)).unwrap() {
        BoxValue::Structured(StructuredData::ChunkOffset64(d)) => {
            assert_eq!(d.chunk_offsets, vec![4294967296u64]);
        }
        _ => panic!("Expected structured CO64 data"),
    }
}

#[test]
fn stz2_unpacks_nibble_sizes() {
    let payload = vec![
        0, 0, 0, 0, // version + flags
        0, 0, 0, 4, // reserved(3) + field_size = 4
        0, 0, 0, 3, // sample_count = 3
        0x52, 0x70, // sizes 5, 2, 7 (high nibble first)
    ];
    match Stz2Decoder.decode(&payload, &header(b"stz2", 22)).unwrap() {
        BoxValue::Structured(StructuredData::SampleSize(d)) => {
            assert_eq!(d.sample_size, 0);
            assert_eq!(d.sample_count, 3);
            assert_eq!(d.sample_sizes, vec![5, 2, 7]);
        }
        _ => panic!("Expected structured STZ2 data"),
    }
}

#[test]
fn stz2_bad_field_width_is_invalid() {
    let payload = vec![0, 0, 0, 0, 0, 0, 0, 5, 0, 0, 0, 1, 0xAB];
    let e = Stz2Decoder.decode(&payload, &header(b"stz2", 21)).unwrap_err();
    assert_eq!(e.kind, DecodeErrorKind::InvalidField);
}

#[test]
fn stsd_records_sub_payload_extents() {
    let payload = vec![
        0, 0, 0, 0, // version + flags
        0, 0, 0, 1, // entry_count = 1
        0, 0, 0, 16, // sub-box size = 16
        b'a', b'v', b'c', b'1', // format
        1, 2, 3, 4, 5, 6, 7, 8, // raw sample-entry bytes
    ];
    match StsdDecoder.decode(&payload, &header(b"stsd", 32)).unwrap() {
        BoxValue::Structured(StructuredData::SampleDescription(d)) => {
            assert_eq!(d.entry_count, 1);
            assert_eq!(d.entries.len(), 1);
            assert_eq!(d.entries[0].offset, 16);
            assert_eq!(d.entries[0].size, 8);
            assert_eq!(d.entries[0].format.0, *b"avc1");
        }
        _ => panic!("Expected structured STSD data"),
    }
}

#[test]
fn ftyp_renders_brands() {
    let payload = vec![
        b'i', b's', b'o', b'm', // major brand
        0, 0, 2, 0, // minor version = 512
        b'i', b's', b'o', b'm', b'i', b's', b'o', b'2', // compatible brands
    ];
    match FtypDecoder.decode(&payload, &header(b"ftyp", 24)).unwrap() {
        BoxValue::Text(t) => {
            assert!(t.starts_with("isom"));
            assert_eq!(t, "isom / 512 / isom iso2");
        }
        _ => panic!("Expected text for ftyp"),
    }
}
