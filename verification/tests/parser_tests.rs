use mp4box::errors::AnalysisError;
use mp4box::FourCC;
use mp4box::{be_i32, be_u16, be_u32, be_u64};
use mp4box::parser::{parse_children, read_box_header};
use mp4box::samples::track_samples;
use mp4box::json_api::analyze;
use mp4box::NodeKind;

fn boxed(typ: &[u8; 4], payload: &[u8]) -> Vec<u8> {
    let mut v = Vec::new();
    v.extend_from_slice(&((8 + payload.len()) as u32).to_be_bytes());
    v.extend_from_slice(typ);
    v.extend_from_slice(payload);
    v
}

fn full_boxed(typ: &[u8; 4], version: u8, body: &[u8]) -> Vec<u8> {
    let mut payload = vec![version, 0, 0, 0];
    payload.extend_from_slice(body);
    boxed(typ, &payload)
}

#[test]
fn ftyp_only_file() {
    let data: Vec<u8> = vec![
        0x00, 0x00, 0x00, 0x18, 0x66, 0x74, 0x79, 0x70, 0x69, 0x73, 0x6f, 0x6d, 0x00, 0x00, 0x02,
        0x00, 0x69, 0x73, 0x6f, 0x6d, 0x69, 0x73, 0x6f, 0x32,
    ];
    let h = read_box_header(&data, 0).unwrap();
    assert_eq!(h.size, 24);
    assert_eq!(h.header_size, 8);
    assert_eq!(h.typ.0, *b"ftyp");

    let tree = analyze(&data, true).unwrap();
    assert_eq!(tree.len(), 1);
    assert_eq!(tree[0].typ, "ftyp");
    assert_eq!(tree[0].size, 24);
    assert_eq!(tree[0].kind, "leaf");
    assert_eq!(tree[0].full_name, "File Type Box");
    assert!(tree[0].decoded.as_ref().unwrap().starts_with("isom"));
    assert!(tree[0].children.is_none());

    let tracks = track_samples(&data).unwrap();
    assert!(tracks.is_empty());
}

#[test]
fn extended_size_empty_box_is_legal() {
    // size32 == 1 with largesize == 16: an empty extended-size box.
    let mut data = vec![0x00, 0x00, 0x00, 0x01];
    data.extend_from_slice(b"free");
    data.extend_from_slice(&16u64.to_be_bytes());
    let h = read_box_header(&data, 0).unwrap();
    assert_eq!(h.size, 16);
    assert_eq!(h.header_size, 16);

    let mut warnings = Vec::new();
    let boxes = parse_children(&data, 0, data.len() as u64, &mut warnings).unwrap();
    assert_eq!(boxes.len(), 1);
    assert!(warnings.is_empty());
    match &boxes[0].kind {
        NodeKind::Leaf { data_offset, data_len } => {
            assert_eq!(*data_offset, 16);
            assert_eq!(*data_len, 0);
        }
        _ => panic!("expected a leaf"),
    }
}

#[test]
fn size_zero_extends_to_end_of_file() {
    // A top-level mdat with size 0 runs to EOF.
    let mut data = boxed(b"ftyp", b"isom");
    let mdat_start = data.len() as u64;
    data.extend_from_slice(&[0, 0, 0, 0]);
    data.extend_from_slice(b"mdat");
    data.extend_from_slice(&[1, 2, 3, 4, 5]);

    let mut warnings = Vec::new();
    let boxes = parse_children(&data, 0, data.len() as u64, &mut warnings).unwrap();
    assert_eq!(boxes.len(), 2);
    assert_eq!(boxes[1].hdr.start, mdat_start);
    assert_eq!(boxes[1].hdr.size, 0);
    match &boxes[1].kind {
        NodeKind::Leaf { data_offset, data_len } => {
            assert_eq!(*data_offset, mdat_start + 8);
            assert_eq!(*data_len, 5);
        }
        _ => panic!("expected a leaf"),
    }
}

#[test]
fn nested_size_zero_extends_to_parent_end() {
    // A udta child with size 0 inside a moov runs to the moov's end.
    let inner = {
        let mut v = vec![0, 0, 0, 0];
        v.extend_from_slice(b"free");
        v.extend_from_slice(&[9, 9, 9]);
        v
    };
    let moov = boxed(b"moov", &inner);
    let mut warnings = Vec::new();
    let boxes = parse_children(&moov, 0, moov.len() as u64, &mut warnings).unwrap();
    assert_eq!(boxes.len(), 1);
    match &boxes[0].kind {
        NodeKind::Container(children) => {
            assert_eq!(children.len(), 1);
            match &children[0].kind {
                NodeKind::Leaf { data_len, .. } => assert_eq!(*data_len, 3),
                _ => panic!("expected a leaf child"),
            }
        }
        _ => panic!("expected a container"),
    }
}

#[test]
fn impossible_size_is_malformed() {
    let mut data = vec![0x00, 0x00, 0x00, 0x05];
    data.extend_from_slice(b"free");
    data.extend_from_slice(&[0; 8]);
    let e = read_box_header(&data, 0).unwrap_err();
    assert!(matches!(e, AnalysisError::MalformedHeader { at: 0 }));
}

#[test]
fn truncated_header_is_malformed() {
    let data = vec![0x00, 0x00, 0x00, 0x10, 0x66];
    assert!(read_box_header(&data, 0).is_err());
}

#[test]
fn oversized_child_is_clamped_with_warning() {
    // A leaf declaring more bytes than the file holds is clamped to EOF.
    let mut data = vec![0x00, 0x00, 0x01, 0x00]; // declares 256 bytes
    data.extend_from_slice(b"free");
    data.extend_from_slice(&[7; 8]); // only 16 on disk
    let mut warnings = Vec::new();
    let boxes = parse_children(&data, 0, data.len() as u64, &mut warnings).unwrap();
    assert_eq!(boxes.len(), 1);
    assert_eq!(boxes[0].hdr.size, 16);
    assert_eq!(warnings, vec![0]);
}

#[test]
fn uuid_box_is_unknown_kind() {
    let mut payload = Vec::new();
    payload.extend_from_slice(&[0xAA; 16]); // extended type
    payload.extend_from_slice(&[1, 2, 3]);
    let mut data = Vec::new();
    data.extend_from_slice(&((8 + payload.len()) as u32).to_be_bytes());
    data.extend_from_slice(b"uuid");
    data.extend_from_slice(&payload);

    let h = read_box_header(&data, 0).unwrap();
    assert_eq!(h.header_size, 24);
    assert_eq!(h.uuid, Some([0xAA; 16]));

    let tree = analyze(&data, false).unwrap();
    assert_eq!(tree[0].kind, "unknown");
    assert_eq!(tree[0].uuid.as_ref().unwrap(), &"aa".repeat(16));
    assert!(tree[0].decoded.is_none());
}

#[test]
fn full_box_version_and_flags_surface() {
    let mvhd_body = [0u8; 96];
    let mvhd = full_boxed(b"mvhd", 0, &mvhd_body);
    let moov = boxed(b"moov", &mvhd);
    let tree = analyze(&moov, false).unwrap();
    assert_eq!(tree[0].kind, "container");
    let children = tree[0].children.as_ref().unwrap();
    assert_eq!(children[0].typ, "mvhd");
    assert_eq!(children[0].kind, "full");
    assert_eq!(children[0].version, Some(0));
    assert_eq!(children[0].flags, Some(0));
    assert_eq!(children[0].full_name, "Movie Header Box");
}

#[test]
fn end_to_end_track_resolution() {
    // moov/trak/{tkhd, mdia/{mdhd, hdlr, minf/stbl/{stts, stsc, stsz, stco}}}
    let tkhd = {
        let mut body = Vec::new();
        body.extend_from_slice(&[0; 8]); // creation + modification
        body.extend_from_slice(&7u32.to_be_bytes()); // track id
        body.extend_from_slice(&[0; 8]);
        full_boxed(b"tkhd", 0, &body)
    };
    let mdhd = {
        let mut body = Vec::new();
        body.extend_from_slice(&[0; 8]);
        body.extend_from_slice(&1000u32.to_be_bytes()); // timescale
        body.extend_from_slice(&300u32.to_be_bytes()); // duration
        full_boxed(b"mdhd", 0, &body)
    };
    let hdlr = {
        let mut body = Vec::new();
        body.extend_from_slice(&[0; 4]);
        body.extend_from_slice(b"soun");
        body.extend_from_slice(&[0; 4]);
        full_boxed(b"hdlr", 0, &body)
    };
    let stts = {
        let mut body = Vec::new();
        body.extend_from_slice(&1u32.to_be_bytes()); // one entry
        body.extend_from_slice(&3u32.to_be_bytes()); // 3 samples
        body.extend_from_slice(&100u32.to_be_bytes()); // of 100 units
        full_boxed(b"stts", 0, &body)
    };
    let stsc = {
        let mut body = Vec::new();
        body.extend_from_slice(&1u32.to_be_bytes());
        body.extend_from_slice(&1u32.to_be_bytes()); // first_chunk 1
        body.extend_from_slice(&3u32.to_be_bytes()); // 3 samples per chunk
        body.extend_from_slice(&1u32.to_be_bytes());
        full_boxed(b"stsc", 0, &body)
    };
    let stsz = {
        let mut body = Vec::new();
        body.extend_from_slice(&0u32.to_be_bytes()); // per-sample sizes
        body.extend_from_slice(&3u32.to_be_bytes());
        body.extend_from_slice(&10u32.to_be_bytes());
        body.extend_from_slice(&20u32.to_be_bytes());
        body.extend_from_slice(&30u32.to_be_bytes());
        full_boxed(b"stsz", 0, &body)
    };
    let stco = {
        let mut body = Vec::new();
        body.extend_from_slice(&1u32.to_be_bytes());
        body.extend_from_slice(&2000u32.to_be_bytes());
        full_boxed(b"stco", 0, &body)
    };
    let mut stbl_body = Vec::new();
    stbl_body.extend_from_slice(&stts);
    stbl_body.extend_from_slice(&stsc);
    stbl_body.extend_from_slice(&stsz);
    stbl_body.extend_from_slice(&stco);
    let stbl = boxed(b"stbl", &stbl_body);
    let minf = boxed(b"minf", &stbl);
    let mut mdia_body = Vec::new();
    mdia_body.extend_from_slice(&mdhd);
    mdia_body.extend_from_slice(&hdlr);
    mdia_body.extend_from_slice(&minf);
    let mdia = boxed(b"mdia", &mdia_body);
    let mut trak_body = Vec::new();
    trak_body.extend_from_slice(&tkhd);
    trak_body.extend_from_slice(&mdia);
    let trak = boxed(b"trak", &trak_body);
    let moov = boxed(b"moov", &trak);
    let mut data = boxed(b"ftyp", b"isom");
    data.extend_from_slice(&moov);

    let tracks = track_samples(&data).unwrap();
    assert_eq!(tracks.len(), 1);
    let t = &tracks[0];
    assert_eq!(t.track_id, 7);
    assert_eq!(t.handler_type, "soun");
    assert_eq!(t.timescale, 1000);
    assert_eq!(t.duration, 300);
    assert_eq!(t.sample_count, 3);
    assert_eq!(t.samples[0].dts, 0);
    assert_eq!(t.samples[1].dts, 100);
    assert_eq!(t.samples[2].dts, 200);
    assert_eq!(t.samples[0].file_offset, 2000);
    assert_eq!(t.samples[1].file_offset, 2010);
    assert_eq!(t.samples[2].file_offset, 2030);
    assert_eq!(t.samples[0].size, 10);
    assert!(t.samples.iter().all(|s| s.is_sync));
}

fn minimal_track(timescale: u32, stbl_body: &[u8]) -> Vec<u8> {
    let tkhd = {
        let mut body = Vec::new();
        body.extend_from_slice(&[0; 8]); // creation + modification
        body.extend_from_slice(&1u32.to_be_bytes()); // track id
        body.extend_from_slice(&[0; 8]);
        full_boxed(b"tkhd", 0, &body)
    };
    let mdhd = {
        let mut body = Vec::new();
        body.extend_from_slice(&[0; 8]);
        body.extend_from_slice(&timescale.to_be_bytes());
        body.extend_from_slice(&300u32.to_be_bytes());
        full_boxed(b"mdhd", 0, &body)
    };
    let stbl = boxed(b"stbl", stbl_body);
    let minf = boxed(b"minf", &stbl);
    let mut mdia_body = Vec::new();
    mdia_body.extend_from_slice(&mdhd);
    mdia_body.extend_from_slice(&minf);
    let mdia = boxed(b"mdia", &mdia_body);
    let mut trak_body = Vec::new();
    trak_body.extend_from_slice(&tkhd);
    trak_body.extend_from_slice(&mdia);
    boxed(b"trak", &trak_body)
}

fn simple_tables(deltas: &[(u32, u32)], sample_count: u32) -> Vec<u8> {
    let stts = {
        let mut body = Vec::new();
        body.extend_from_slice(&(deltas.len() as u32).to_be_bytes());
        for (count, delta) in deltas {
            body.extend_from_slice(&count.to_be_bytes());
            body.extend_from_slice(&delta.to_be_bytes());
        }
        full_boxed(b"stts", 0, &body)
    };
    let stsc = {
        let mut body = Vec::new();
        body.extend_from_slice(&1u32.to_be_bytes());
        body.extend_from_slice(&1u32.to_be_bytes());
        body.extend_from_slice(&sample_count.to_be_bytes());
        body.extend_from_slice(&1u32.to_be_bytes());
        full_boxed(b"stsc", 0, &body)
    };
    let stsz = {
        let mut body = Vec::new();
        body.extend_from_slice(&1u32.to_be_bytes()); // fixed size 1
        body.extend_from_slice(&sample_count.to_be_bytes());
        full_boxed(b"stsz", 0, &body)
    };
    let stco = {
        let mut body = Vec::new();
        body.extend_from_slice(&1u32.to_be_bytes());
        body.extend_from_slice(&0u32.to_be_bytes());
        full_boxed(b"stco", 0, &body)
    };
    let mut v = Vec::new();
    v.extend_from_slice(&stts);
    v.extend_from_slice(&stsc);
    v.extend_from_slice(&stsz);
    v.extend_from_slice(&stco);
    v
}

#[test]
fn malformed_table_is_captured_per_track() {
    // An stts whose declared entry count overruns its payload: that track is
    // omitted, the analysis succeeds.
    let bad_stts = {
        let mut body = Vec::new();
        body.extend_from_slice(&5u32.to_be_bytes()); // claims 5 entries
        body.extend_from_slice(&3u32.to_be_bytes()); // but holds half of one
        full_boxed(b"stts", 0, &body)
    };
    let bad_trak = minimal_track(1000, &bad_stts);
    let moov = boxed(b"moov", &bad_trak);
    let tracks = track_samples(&moov).unwrap();
    assert!(tracks.is_empty());
}

#[test]
fn other_tracks_proceed_past_a_malformed_one() {
    let bad_stts = {
        let mut body = Vec::new();
        body.extend_from_slice(&5u32.to_be_bytes());
        body.extend_from_slice(&3u32.to_be_bytes());
        full_boxed(b"stts", 0, &body)
    };
    let bad_trak = minimal_track(1000, &bad_stts);
    let good_trak = minimal_track(90000, &simple_tables(&[(2, 10)], 2));
    let mut moov_body = Vec::new();
    moov_body.extend_from_slice(&bad_trak);
    moov_body.extend_from_slice(&good_trak);
    let moov = boxed(b"moov", &moov_body);
    let tracks = track_samples(&moov).unwrap();
    assert_eq!(tracks.len(), 1);
    assert_eq!(tracks[0].timescale, 90000);
    assert_eq!(tracks[0].sample_count, 2);
}

#[test]
fn later_duplicate_table_wins() {
    // Two stts children: the second one applies.
    let first_stts = {
        let mut body = Vec::new();
        body.extend_from_slice(&1u32.to_be_bytes());
        body.extend_from_slice(&2u32.to_be_bytes());
        body.extend_from_slice(&111u32.to_be_bytes());
        full_boxed(b"stts", 0, &body)
    };
    let mut stbl_body = simple_tables(&[(2, 10)], 2);
    let mut with_dup = first_stts;
    with_dup.extend_from_slice(&stbl_body);
    stbl_body = with_dup;
    let trak = minimal_track(1000, &stbl_body);
    let moov = boxed(b"moov", &trak);
    let tracks = track_samples(&moov).unwrap();
    assert_eq!(tracks.len(), 1);
    assert_eq!(tracks[0].samples[0].duration, 10);
    assert_eq!(tracks[0].samples[1].dts, 10);
}

#[test]
fn later_duplicate_mdhd_wins() {
    let mdhd = |ts: u32| {
        let mut body = Vec::new();
        body.extend_from_slice(&[0; 8]);
        body.extend_from_slice(&ts.to_be_bytes());
        body.extend_from_slice(&1u32.to_be_bytes());
        full_boxed(b"mdhd", 0, &body)
    };
    let stbl = boxed(b"stbl", &simple_tables(&[(1, 5)], 1));
    let minf = boxed(b"minf", &stbl);
    let mut mdia_body = Vec::new();
    mdia_body.extend_from_slice(&mdhd(600));
    mdia_body.extend_from_slice(&mdhd(48000));
    mdia_body.extend_from_slice(&minf);
    let mdia = boxed(b"mdia", &mdia_body);
    let trak = boxed(b"trak", &mdia);
    let moov = boxed(b"moov", &trak);
    let tracks = track_samples(&moov).unwrap();
    assert_eq!(tracks.len(), 1);
    assert_eq!(tracks[0].timescale, 48000);
}

#[test]
fn fourcc_equality_is_bytewise() {
    let a = FourCC(*b"moov");
    let b = FourCC(*b"moov");
    let c = FourCC(*b"moof");
    assert!(a.matches(&b));
    assert!(!a.matches(&c));
    assert!(a.is(b"moov"));
    assert!(!a.is(b"mdat"));
    assert_eq!(a.display(), "moov");
    let odd = FourCC([0x01, 0x02, 0x03, 0x04]);
    assert_eq!(odd.display(), "01020304");
}

#[test]
fn meta_is_a_hybrid_container() {
    // meta starts with version + flags, then holds children.
    let hdlr = full_boxed(b"hdlr", 0, &[0, 0, 0, 0, b'm', b'd', b'i', b'r', 0, 0, 0, 0]);
    let mut meta_payload = vec![0, 0, 0, 0];
    meta_payload.extend_from_slice(&hdlr);
    let meta = boxed(b"meta", &meta_payload);
    let tree = analyze(&meta, false).unwrap();
    assert_eq!(tree[0].typ, "meta");
    assert_eq!(tree[0].kind, "container");
    let children = tree[0].children.as_ref().unwrap();
    assert_eq!(children.len(), 1);
    assert_eq!(children[0].typ, "hdlr");
}

#[test]
fn big_endian_readers_read_exact_values() {
    let data: Vec<u8> = vec![0x12, 0x34, 0x56, 0x78, 0x9A, 0xBC, 0xDE, 0xF0];
    assert_eq!(be_u16(&data, 0), 0x1234);
    assert_eq!(be_u32(&data, 0), 0x12345678);
    assert_eq!(be_u64(&data, 0), 0x123456789ABCDEF0);
    let neg: Vec<u8> = vec![0xFF, 0xFF, 0xFF, 0xCE];
    assert_eq!(be_i32(&neg, 0), -50);
    assert_eq!(be_u32(&neg, 0), 0xFFFFFFCE);
}
