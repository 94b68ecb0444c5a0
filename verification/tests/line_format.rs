use hexdump::render::format_line;
use hexdump::render::hex_digit_of;

#[test]
fn hex_digits_exact() {
    assert_eq!(hex_digit_of(0), b'0');
    assert_eq!(hex_digit_of(9), b'9');
    assert_eq!(hex_digit_of(10), b'a');
    assert_eq!(hex_digit_of(15), b'f');
}

#[test]
fn hello_world_line() {
    let line = format_line(0, b"Hello World!");
    let expected = b"00000000 | 48 65 6c 6c 6f 20 57 6f 72 6c 64 21              | Hello World!";
    assert_eq!(line, expected.to_vec());
}

#[test]
fn offset_rendered_as_eight_lowercase_digits() {
    let line = format_line(0xdead_beef, b"");
    assert_eq!(&line[0..8], b"deadbeef");
    assert_eq!(line.len(), 62);
    let line = format_line(16, b"A");
    let mut expected = b"00000010 | 41 ".to_vec();
    expected.extend_from_slice("   ".repeat(15).as_bytes());
    expected.extend_from_slice(b" | A");
    assert_eq!(line, expected);
}

#[test]
fn printable_boundaries() {
    let line = format_line(0, &[0x1f, 0x20, 0x21, 0x7e, 0x7f]);
    let mut expected = b"00000000 | 1f 20 21 7e 7f ".to_vec();
    expected.extend_from_slice("   ".repeat(11).as_bytes());
    expected.extend_from_slice(b" | . !~.");
    assert_eq!(line, expected);
}
