//! Formatting of a single hex-dump line.
//!
//! A line is laid out as
//! `<offset, 8 hex digits> | <16 hex slots of 3 bytes each> | <ASCII cells>`:
//! the offset column, a ` | ` separator, one three-byte slot per reserved
//! byte position (two hex digits and a space for a real byte, three spaces
//! for a missing one), a second ` | ` separator, and one ASCII cell per real
//! byte.  [`line_spec`] is the mathematical statement of that layout and
//! [`format_line`] the verified renderer.

use vstd::prelude::*;
use vstd::slice::slice_index_get;

verus! {

/// The lowercase hexadecimal digit for a value in `0..16`, as an ASCII byte:
/// `0..10` map to `'0'..'9'`, `10..16` map to `'a'..'f'`.
pub open spec fn hex_digit(n: int) -> u8 {
    if n < 10 {
        (0x30 + n) as u8
    } else {
        (0x57 + n) as u8
    }
}

/// The lowercase hexadecimal digit for `n`, as an ASCII byte.
pub fn hex_digit_of(n: u8) -> (d: u8)
    requires
        n < 16,
    ensures
        d == hex_digit(n as int),
{
    if n < 10 {
        0x30 + n
    } else {
        0x57 + n
    }
}

/// A byte that the ASCII column shows verbatim: an ASCII graphic character
/// or the space character.
pub open spec fn is_printable(b: u8) -> bool {
    0x20 <= b <= 0x7e
}

/// What the ASCII column shows for one byte: the byte itself when printable,
/// an ASCII `'.'` otherwise.
pub open spec fn ascii_cell(b: u8) -> u8 {
    if is_printable(b) {
        b
    } else {
        0x2e
    }
}

/// The ASCII column: one cell per byte of the chunk.
pub open spec fn ascii_column(chunk: Seq<u8>) -> Seq<u8> {
    Seq::new(chunk.len(), |i: int| ascii_cell(chunk[i]))
}

/// Slot `i` of the hex column: the two hex digits of byte `i` followed by a
/// space while the chunk still has a byte there, three spaces once it does
/// not (so short chunks keep the column alignment).
pub open spec fn hex_slot(chunk: Seq<u8>, i: int) -> Seq<u8> {
    if 0 <= i < chunk.len() {
        seq![hex_digit(chunk[i] as int / 16), hex_digit(chunk[i] as int % 16), 0x20]
    } else {
        seq![0x20, 0x20, 0x20]
    }
}

/// The first `k` slots of the hex column, concatenated.
pub open spec fn hex_column_upto(chunk: Seq<u8>, k: int) -> Seq<u8>
    decreases k,
{
    if k <= 0 {
        Seq::empty()
    } else {
        hex_column_upto(chunk, k - 1) + hex_slot(chunk, k - 1)
    }
}

/// The whole hex column: sixteen slots, whatever the chunk's length.
pub open spec fn hex_column(chunk: Seq<u8>) -> Seq<u8> {
    hex_column_upto(chunk, 16)
}

/// The offset column: the low 32 bits of `n` as 8 lowercase hex digits,
/// most significant first, zero-padded.
pub open spec fn offset_field(n: int) -> Seq<u8> {
    seq![
        hex_digit((n / 0x10000000) % 16),
        hex_digit((n / 0x1000000) % 16),
        hex_digit((n / 0x100000) % 16),
        hex_digit((n / 0x10000) % 16),
        hex_digit((n / 0x1000) % 16),
        hex_digit((n / 0x100) % 16),
        hex_digit((n / 0x10) % 16),
        hex_digit(n % 16),
    ]
}

/// The ` | ` separator between a line's columns.
pub open spec fn separator() -> Seq<u8> {
    seq![0x20, 0x7c, 0x20]
}

/// One whole hex-dump line (without the trailing newline) for a chunk of up
/// to sixteen bytes starting at byte offset `offset` of the input.
pub open spec fn line_spec(offset: int, chunk: Seq<u8>) -> Seq<u8> {
    offset_field(offset) + separator() + hex_column(chunk) + separator() + ascii_column(chunk)
}

/// The first `k` hex slots take three bytes each.
pub proof fn lemma_hex_column_upto_len(chunk: Seq<u8>, k: int)
    requires
        0 <= k,
    ensures
        hex_column_upto(chunk, k).len() == 3 * k,
    decreases k,
{
    if k > 0 {
        lemma_hex_column_upto_len(chunk, k - 1);
    }
}

proof fn lemma_hex_column_upto_slot(chunk: Seq<u8>, k: int, i: int)
    requires
        0 <= i < k,
    ensures
        hex_column_upto(chunk, k).subrange(3 * i, 3 * i + 3) == hex_slot(chunk, i),
    decreases k,
{
    lemma_hex_column_upto_len(chunk, k - 1);
    if i == k - 1 {
        assert(hex_column_upto(chunk, k).subrange(3 * i, 3 * i + 3) =~= hex_slot(chunk, i));
    } else {
        lemma_hex_column_upto_slot(chunk, k - 1, i);
        assert(hex_column_upto(chunk, k).subrange(3 * i, 3 * i + 3) =~= hex_column_upto(
            chunk,
            k - 1,
        ).subrange(3 * i, 3 * i + 3));
    }
}

/// Every line reserves exactly sixteen hex slots of three bytes each: slot
/// `i` holds the two hex digits of chunk byte `i` followed by a space while
/// the chunk still has byte `i`, and three pad spaces once it does not.  A
/// full chunk thus shows sixteen real groups; a short final chunk shows
/// `chunk.len()` real groups and `16 - chunk.len()` pads.
pub proof fn lemma_hex_column_slots(chunk: Seq<u8>, i: int)
    requires
        0 <= i < 16,
    ensures
        hex_column(chunk).len() == 48,
        i < chunk.len() ==> hex_column(chunk).subrange(3 * i, 3 * i + 3) == seq![
            hex_digit(chunk[i] as int / 16),
            hex_digit(chunk[i] as int % 16),
            0x20u8,
        ],
        i >= chunk.len() ==> hex_column(chunk).subrange(3 * i, 3 * i + 3) == seq![
            0x20u8,
            0x20u8,
            0x20u8,
        ],
{
    lemma_hex_column_upto_len(chunk, 16);
    lemma_hex_column_upto_slot(chunk, 16, i);
}

/// The layout of one line: eight offset bytes, a ` | ` separator, the
/// forty-eight bytes of the hex column, a second separator, and one ASCII
/// cell per chunk byte; sixty-two bytes plus the chunk's length in all.
pub proof fn lemma_line_layout(offset: int, chunk: Seq<u8>)
    ensures
        line_spec(offset, chunk).len() == 62 + chunk.len(),
        line_spec(offset, chunk).subrange(0, 8) == offset_field(offset),
        line_spec(offset, chunk).subrange(8, 11) == separator(),
        line_spec(offset, chunk).subrange(11, 59) == hex_column(chunk),
        line_spec(offset, chunk).subrange(59, 62) == separator(),
        line_spec(offset, chunk).subrange(62, 62 + chunk.len() as int) == ascii_column(chunk),
{
    lemma_hex_column_upto_len(chunk, 16);
    assert(line_spec(offset, chunk).subrange(0, 8) =~= offset_field(offset));
    assert(line_spec(offset, chunk).subrange(8, 11) =~= separator());
    assert(line_spec(offset, chunk).subrange(11, 59) =~= hex_column(chunk));
    assert(line_spec(offset, chunk).subrange(59, 62) =~= separator());
    assert(line_spec(offset, chunk).subrange(62, 62 + chunk.len() as int) =~= ascii_column(chunk));
}

/// The ASCII column renders every chunk byte as itself when the byte is an
/// ASCII graphic character or a space, and as an ASCII `'.'` otherwise.
pub proof fn lemma_ascii_rendering(chunk: Seq<u8>, i: int)
    requires
        0 <= i < chunk.len(),
    ensures
        ascii_column(chunk).len() == chunk.len(),
        is_printable(chunk[i]) ==> ascii_column(chunk)[i] == chunk[i],
        !is_printable(chunk[i]) ==> ascii_column(chunk)[i] == 0x2e,
{
}

/// Every hex digit is lowercase: an ASCII `'0'..'9'` or `'a'..'f'`.
pub proof fn lemma_hex_digit_lowercase(n: int)
    requires
        0 <= n < 16,
    ensures
        0x30 <= hex_digit(n) <= 0x39 || 0x61 <= hex_digit(n) <= 0x66,
{
}

/// The offset column is exactly eight lowercase hex digits, zero-padded.
pub proof fn lemma_offset_field_digits(n: int, j: int)
    requires
        0 <= n,
        0 <= j < 8,
    ensures
        offset_field(n).len() == 8,
        0x30 <= offset_field(n)[j] <= 0x39 || 0x61 <= offset_field(n)[j] <= 0x66,
{
    vstd::arithmetic::div_mod::lemma_div_pos_is_pos(n, 0x10000000);
    vstd::arithmetic::div_mod::lemma_div_pos_is_pos(n, 0x1000000);
    vstd::arithmetic::div_mod::lemma_div_pos_is_pos(n, 0x100000);
    vstd::arithmetic::div_mod::lemma_div_pos_is_pos(n, 0x10000);
    vstd::arithmetic::div_mod::lemma_div_pos_is_pos(n, 0x1000);
    vstd::arithmetic::div_mod::lemma_div_pos_is_pos(n, 0x100);
    vstd::arithmetic::div_mod::lemma_div_pos_is_pos(n, 0x10);
}

/// Renders one hex-dump line for `chunk`, a chunk that starts at byte offset
/// `offset` of the input.
pub fn format_line(offset: usize, chunk: &[u8]) -> (line: Vec<u8>)
    requires
        offset <= 0xffff_ffff,
        chunk@.len() <= 16,
    ensures
        line@ == line_spec(offset as int, chunk@),
{
    let mut line: Vec<u8> = Vec::new();
    line.push(hex_digit_of(((offset / 0x10000000) % 16) as u8));
    line.push(hex_digit_of(((offset / 0x1000000) % 16) as u8));
    line.push(hex_digit_of(((offset / 0x100000) % 16) as u8));
    line.push(hex_digit_of(((offset / 0x10000) % 16) as u8));
    line.push(hex_digit_of(((offset / 0x1000) % 16) as u8));
    line.push(hex_digit_of(((offset / 0x100) % 16) as u8));
    line.push(hex_digit_of(((offset / 0x10) % 16) as u8));
    line.push(hex_digit_of((offset % 16) as u8));
    line.push(0x20);
    line.push(0x7c);
    line.push(0x20);
    proof {
        assert(line@ =~= offset_field(offset as int) + separator());
    }
    let ghost head = offset_field(offset as int) + separator();
    let mut i: usize = 0;
    while i < 16
        invariant
            i <= 16,
            chunk@.len() <= 16,
            line@ == head + hex_column_upto(chunk@, i as int),
        decreases 16 - i,
    {
        let ghost prev = line@;
        if i < chunk.len() {
            let b = *slice_index_get(chunk, i);
            line.push(hex_digit_of(b / 16));
            line.push(hex_digit_of(b % 16));
            line.push(0x20);
        } else {
            line.push(0x20);
            line.push(0x20);
            line.push(0x20);
        }
        proof {
            assert(line@ =~= prev + hex_slot(chunk@, i as int));
            assert(line@ =~= head + hex_column_upto(chunk@, i as int + 1));
        }
        i = i + 1;
    }
    line.push(0x20);
    line.push(0x7c);
    line.push(0x20);
    let ghost mid = head + hex_column(chunk@) + separator();
    proof {
        assert(line@ =~= mid);
    }
    let mut j: usize = 0;
    while j < chunk.len()
        invariant
            j <= chunk@.len(),
            line@ == mid + ascii_column(chunk@).take(j as int),
        decreases chunk@.len() - j,
    {
        let ghost prev = line@;
        let b = *slice_index_get(chunk, j);
        if 0x20 <= b && b <= 0x7e {
            line.push(b);
        } else {
            line.push(0x2e);
        }
        proof {
            assert(line@ =~= prev + seq![ascii_cell(chunk@[j as int])]);
            assert(line@ =~= mid + ascii_column(chunk@).take(j as int + 1));
        }
        j = j + 1;
    }
    proof {
        assert(ascii_column(chunk@).take(chunk@.len() as int) =~= ascii_column(chunk@));
        assert(line@ =~= line_spec(offset as int, chunk@));
    }
    line
}

} // verus!
