//! The dump of a whole byte sequence: one line per chunk of up to sixteen
//! bytes, in input order, each line followed by a newline byte.

use vstd::prelude::*;
use vstd::math::min;
use vstd::slice::slice_subrange;
use crate::render::format_line;
use crate::render::line_spec;

verus! {

/// The dump of `data` from absolute byte offset `offset` on: one line for
/// the chunk at `offset`, a newline, then the dump of the rest.
pub open spec fn dump_from(data: Seq<u8>, offset: int) -> Seq<u8>
    recommends
        0 <= offset <= data.len(),
    decreases data.len() - offset,
{
    if offset < 0 || offset >= data.len() {
        Seq::empty()
    } else {
        let end = min(offset + 16, data.len() as int);
        line_spec(offset, data.subrange(offset, end)) + seq![0x0a] + dump_from(data, end)
    }
}

/// The complete dump of `data`.
pub open spec fn dump_spec(data: Seq<u8>) -> Seq<u8> {
    dump_from(data, 0)
}

/// How many lines the dump of an input of `len` bytes has: one per started
/// chunk of sixteen bytes, so the ceiling of `len / 16`, and zero for an
/// empty input.
pub open spec fn line_count(len: int) -> int
    decreases len,
{
    if len <= 0 {
        0
    } else if len <= 16 {
        1
    } else {
        1 + line_count(len - 16)
    }
}

/// [`line_count`] is the ceiling of `len / 16`.
pub proof fn lemma_line_count_is_ceil(len: int)
    requires
        0 <= len,
    ensures
        line_count(len) == (len + 15) / 16,
    decreases len,
{
    if len == 0 {
        vstd::arithmetic::div_mod::lemma_basic_div(15, 16);
    } else {
        vstd::arithmetic::div_mod::lemma_div_plus_one(len - 1, 16);
        if len <= 16 {
            vstd::arithmetic::div_mod::lemma_basic_div(len - 1, 16);
        } else {
            lemma_line_count_is_ceil(len - 16);
        }
    }
}

/// Every line but the last shows a full chunk: line `i` of the dump of an
/// input of `len` bytes, when it is not the last line, covers the whole
/// sixteen bytes `16 * i .. 16 * i + 16`, and its hex column thus shows
/// sixteen real groups.
pub proof fn lemma_full_chunks(len: int, i: int)
    requires
        0 <= i,
        i + 1 < line_count(len),
    ensures
        16 * i + 16 < len,
        min(16 * i + 16, len) - 16 * i == 16,
    decreases i,
{
    if i > 0 {
        lemma_full_chunks(len - 16, i - 1);
    }
}

/// The last line's chunk holds `len % 16` bytes, or sixteen when `len` is a
/// nonzero multiple of sixteen: its hex column shows that many real groups
/// and pads the remaining slots.
pub proof fn lemma_last_chunk(len: int)
    requires
        0 < len,
    ensures
        16 * (line_count(len) - 1) < len <= 16 * (line_count(len) - 1) + 16,
        len % 16 == 0 ==> len - 16 * (line_count(len) - 1) == 16,
        len % 16 != 0 ==> len - 16 * (line_count(len) - 1) == len % 16,
    decreases len,
{
    if len <= 16 {
        if len < 16 {
            vstd::arithmetic::div_mod::lemma_small_mod(len as nat, 16);
        }
    } else {
        lemma_last_chunk(len - 16);
        vstd::arithmetic::div_mod::lemma_mod_add_multiples_vanish(len - 16, 16);
    }
}

/// Renders the dump of `data` line by line: line `i` shows the chunk of
/// bytes `16 * i .. min(16 * i + 16, data.len())` at offset `16 * i`.
pub fn dump_lines(data: &[u8]) -> (lines: Vec<Vec<u8>>)
    requires
        data@.len() <= 0xffff_ffff,
    ensures
        lines@.len() == line_count(data@.len() as int),
        forall|i: int|
            0 <= i < lines@.len() ==> #[trigger] lines@[i]@ == line_spec(
                16 * i,
                data@.subrange(16 * i, min(16 * i + 16, data@.len() as int)),
            ),
{
    let mut lines: Vec<Vec<u8>> = Vec::new();
    let mut offset: usize = 0;
    while offset < data.len()
        invariant
            data@.len() <= 0xffff_ffff,
            offset <= data@.len(),
            offset == 16 * lines@.len() || offset >= data@.len(),
            lines@.len() + line_count(data@.len() - offset) == line_count(data@.len() as int),
            forall|i: int|
                0 <= i < lines@.len() ==> #[trigger] lines@[i]@ == line_spec(
                    16 * i,
                    data@.subrange(16 * i, min(16 * i + 16, data@.len() as int)),
                ),
        decreases data@.len() - offset,
    {
        let ghost old_lines = lines@;
        let ghost k = lines@.len() as int;
        let ghost oldoff = offset as int;
        let end = if data.len() - offset > 16 {
            offset + 16
        } else {
            data.len()
        };
        let chunk = slice_subrange(data, offset, end);
        let line = format_line(offset, chunk);
        proof {
            assert(oldoff == 16 * k);
            assert(end as int == min(16 * k + 16, data@.len() as int));
            assert(line_count(data@.len() - oldoff) == 1 + line_count(data@.len() - end));
        }
        lines.push(line);
        offset = end;
        proof {
            assert forall|i: int|
                0 <= i < lines@.len() implies #[trigger] lines@[i]@ == line_spec(
                16 * i,
                data@.subrange(16 * i, min(16 * i + 16, data@.len() as int)),
            ) by {
                if i < k {
                    assert(lines@[i] == old_lines[i]);
                    assert(old_lines[i]@ == line_spec(
                        16 * i,
                        data@.subrange(16 * i, min(16 * i + 16, data@.len() as int)),
                    ));
                } else {
                    assert(lines@[i] == line);
                }
            }
        }
    }
    lines
}

/// Renders the complete dump of `data` as one byte sequence.
pub fn dump(data: &[u8]) -> (out: Vec<u8>)
    requires
        data@.len() <= 0xffff_ffff,
    ensures
        out@ == dump_spec(data@),
{
    let mut out: Vec<u8> = Vec::new();
    let mut offset: usize = 0;
    while offset < data.len()
        invariant
            data@.len() <= 0xffff_ffff,
            offset <= data@.len(),
            out@ + dump_from(data@, offset as int) == dump_spec(data@),
        decreases data@.len() - offset,
    {
        let ghost prev = out@;
        let end = if data.len() - offset > 16 {
            offset + 16
        } else {
            data.len()
        };
        let chunk = slice_subrange(data, offset, end);
        let mut line = format_line(offset, chunk);
        out.append(&mut line);
        out.push(0x0a);
        proof {
            assert(end as int == min(offset as int + 16, data@.len() as int));
            assert(dump_from(data@, offset as int) == line_spec(
                offset as int,
                data@.subrange(offset as int, end as int),
            ) + seq![0x0au8] + dump_from(data@, end as int));
            assert(out@ + dump_from(data@, end as int) =~= prev + dump_from(
                data@,
                offset as int,
            ));
        }
        offset = end;
    }
    proof {
        assert(out@ + dump_from(data@, offset as int) =~= out@);
    }
    out
}

/// The dump is a function of the input bytes alone: dumping the same,
/// unmodified bytes a second time yields byte-identical output.
pub proof fn lemma_dump_deterministic(a: Seq<u8>, b: Seq<u8>)
    requires
        a == b,
    ensures
        dump_spec(a) == dump_spec(b),
{
}

} // verus!
