use hexdump::dump::dump;
use hexdump::dump::dump_lines;

#[test]
fn empty_input_no_lines() {
    let out = dump(&[]);
    assert_eq!(out, Vec::<u8>::new());
    let lines = dump_lines(&[]);
    assert_eq!(lines.len(), 0);
}

#[test]
fn sixteen_zero_bytes_one_line() {
    let data = [0u8; 16];
    let lines = dump_lines(&data);
    assert_eq!(lines.len(), 1);
    let expected = b"00000000 | 00 00 00 00 00 00 00 00 00 00 00 00 00 00 00 00  | ................";
    assert_eq!(lines[0], expected.to_vec());
    let mut with_newline = expected.to_vec();
    with_newline.push(b'\n');
    assert_eq!(dump(&data), with_newline);
}

#[test]
fn seventeen_bytes_two_lines() {
    let data = [0x41u8; 17];
    let lines = dump_lines(&data);
    assert_eq!(lines.len(), 2);
    let mut second = b"00000010 | 41 ".to_vec();
    second.extend_from_slice("   ".repeat(15).as_bytes());
    second.extend_from_slice(b" | A");
    assert_eq!(lines[1], second);
}

#[test]
fn two_full_lines_with_advancing_offsets() {
    let data = [0x61u8; 32];
    let lines = dump_lines(&data);
    assert_eq!(lines.len(), 2);
    let mut first = b"00000000 | ".to_vec();
    first.extend_from_slice("61 ".repeat(16).as_bytes());
    first.extend_from_slice(b" | ");
    first.extend_from_slice("a".repeat(16).as_bytes());
    assert_eq!(lines[0], first);
    let mut second = first.clone();
    second[0..8].copy_from_slice(b"00000010");
    assert_eq!(lines[1], second);
}

#[test]
fn line_counts_are_chunk_counts() {
    assert_eq!(dump_lines(&[7u8; 1]).len(), 1);
    assert_eq!(dump_lines(&[7u8; 15]).len(), 1);
    assert_eq!(dump_lines(&[7u8; 16]).len(), 1);
    assert_eq!(dump_lines(&[7u8; 31]).len(), 2);
    assert_eq!(dump_lines(&[7u8; 48]).len(), 3);
}

#[test]
fn dump_twice_is_identical() {
    let data: Vec<u8> = (0u8..=255).collect();
    let once = dump(&data);
    let twice = dump(&data);
    assert_eq!(once, twice);
}

#[test]
fn dump_is_lines_joined_by_newlines() {
    let data: Vec<u8> = (0u8..100).collect();
    let mut joined: Vec<u8> = Vec::new();
    for line in dump_lines(&data) {
        joined.extend_from_slice(&line);
        joined.push(b'\n');
    }
    assert_eq!(dump(&data), joined);
}
