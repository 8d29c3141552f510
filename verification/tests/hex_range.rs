use mp4box::hex_range;

#[test]
fn hex_range_reads_within_bounds() {
    let data: Vec<u8> = (0u8..64u8).collect();

    // Read 16 bytes starting at offset 16
    let dump = hex_range(&data, 16, 16);

    assert_eq!(dump.offset, 16);
    assert_eq!(dump.length, 16);
    assert!(!dump.hex.is_empty());
}

#[test]
fn hex_range_clamps_to_eof() {
    let data: Vec<u8> = (0u8..32u8).collect();

    // Ask for 32 bytes from offset 24; only 8 are available.
    let dump = hex_range(&data, 24, 32);

    assert_eq!(dump.offset, 24);
    assert_eq!(dump.length, 8);
    assert!(!dump.hex.is_empty());
}

#[test]
fn hex_range_window_contents() {
    let data: Vec<u8> = (0u8..32u8).collect();
    let dump = hex_range(&data, 24, 32);
    assert_eq!(dump.offset, 24);
    assert_eq!(dump.length, 8);
    assert_eq!(dump.hex, "18191a1b1c1d1e1f");
}

#[test]
fn hex_range_same_args_same_answer() {
    let data: Vec<u8> = (0u8..48u8).collect();
    let a = hex_range(&data, 10, 100);
    let b = hex_range(&data, 10, 100);
    assert_eq!(a.offset, b.offset);
    assert_eq!(a.length, b.length);
    assert_eq!(a.hex, b.hex);
}

#[test]
fn hex_range_offset_past_end() {
    let data: Vec<u8> = (0u8..8u8).collect();
    let dump = hex_range(&data, 100, 4);
    assert_eq!(dump.offset, 100);
    assert_eq!(dump.length, 0);
    assert_eq!(dump.hex, "");
}
