//! Files that are valid UTF-8. Every chunk of such a file is valid UTF-8
//! by itself, so its text is what its bytes encode, and a line feed stands
//! in the text only where a line feed byte stands in the chunk: at its end.

use crate::lines::{
    chunk_end, chunk_lines, lemma_chunk_end_bounds, lemma_chunk_lines_are_lines,
    lemma_split_on_is_not_empty, lines_from, split_on, without_last, LINE_FEED,
};
use crate::text::{decoded_text, lemma_ascii_is_its_own_text};
use vstd::prelude::*;
use vstd::utf8::{
    decode_first_scalar, decode_utf8, decode_utf8_first_scalar, decode_utf8_split, encode_scalar,
    is_char_boundary, is_char_boundary_iff_not_is_continuation_byte,
    is_char_boundary_start_end_of_seq, length_of_first_scalar, pop_first_scalar,
    take_first_scalar, valid_first_scalar, valid_utf8, valid_utf8_split,
};

verus! {

/// `text` ends with a line feed and holds no other.
pub open spec fn has_one_line_feed(text: Seq<char>) -> bool {
    &&& text.len() > 0
    &&& text.last() == '\n'
    &&& forall|i: int| 0 <= i < text.len() - 1 ==> text[i] != '\n'
}

/// `text` holds no line feed.
pub open spec fn has_no_line_feed(text: Seq<char>) -> bool {
    forall|i: int| 0 <= i < text.len() ==> text[i] != '\n'
}

/// Bytes without a line feed byte encode a text without a line feed.
pub proof fn lemma_text_without_line_feed(bytes: Seq<u8>)
    requires
        valid_utf8(bytes),
        forall|i: int| 0 <= i < bytes.len() ==> bytes[i] != LINE_FEED,
    ensures
        has_no_line_feed(decode_utf8(bytes)),
    decreases bytes.len(),
{
    if bytes.len() > 0 {
        let width = length_of_first_scalar(bytes);
        let rest = pop_first_scalar(bytes);
        let first = decode_first_scalar(bytes);
        assert(valid_first_scalar(bytes));
        assert(1 <= width <= bytes.len());
        assert forall|i: int| 0 <= i < rest.len() implies rest[i] != LINE_FEED by {
            assert(rest[i] == bytes[width + i]);
        }
        lemma_text_without_line_feed(rest);
        if first as char == '\n' {
            decode_utf8_first_scalar(bytes);
            assert('\n' as u32 == 0x0A);
            assert(0x0Au32 & 0x7F == 0x0A) by (bit_vector);
            assert(encode_scalar(0x0A) =~= seq![0x0Au8]);
            assert(take_first_scalar(bytes)[0] == bytes[0]);
            assert(false);
        }
        let text = decode_utf8(bytes);
        assert(text =~= seq![first as char] + decode_utf8(rest));
        assert forall|i: int| 0 <= i < text.len() implies text[i] != '\n' by {
            if i > 0 {
                assert(text[i] == decode_utf8(rest)[i - 1]);
            }
        }
    }
}

/// In valid UTF-8, the position after an ASCII byte begins a character.
pub proof fn lemma_boundary_after_ascii(bytes: Seq<u8>, end: int)
    requires
        valid_utf8(bytes),
        0 < end <= bytes.len(),
        bytes[end - 1] <= 0x7f,
    ensures
        is_char_boundary(bytes, end),
    decreases bytes.len(),
{
    let width = length_of_first_scalar(bytes);
    let rest = pop_first_scalar(bytes);
    assert(valid_first_scalar(bytes));
    assert(1 <= width <= bytes.len());
    if end < width {
        assert(false);
    } else if end == width {
        assert(is_char_boundary(rest, 0));
    } else {
        assert(rest[end - width - 1] == bytes[end - 1]);
        lemma_boundary_after_ascii(rest, end - width);
    }
}

/// A chunk holds no line feed byte before its last byte, and it ends with
/// a line feed byte or with the bytes.
pub proof fn lemma_chunk_ends_at_first_line_feed(bytes: Seq<u8>, start: int)
    requires
        0 <= start < bytes.len(),
    ensures
        forall|i: int| start <= i < chunk_end(bytes, start) - 1 ==> bytes[i] != LINE_FEED,
        bytes[chunk_end(bytes, start) - 1] == LINE_FEED || chunk_end(bytes, start) == bytes.len(),
    decreases bytes.len() - start,
{
    lemma_chunk_end_bounds(bytes, start);
    if bytes[start] != LINE_FEED {
        if start + 1 < bytes.len() {
            lemma_chunk_ends_at_first_line_feed(bytes, start + 1);
        } else {
            assert(chunk_end(bytes, start + 1) == bytes.len());
        }
    }
}

/// In a file whose bytes from `start` on are valid UTF-8, the chunk that
/// begins at `start` is valid UTF-8, and so are the bytes after it.
pub proof fn lemma_chunk_is_valid(bytes: Seq<u8>, start: int)
    requires
        0 <= start < bytes.len(),
        valid_utf8(bytes.subrange(start, bytes.len() as int)),
    ensures
        valid_utf8(bytes.subrange(start, chunk_end(bytes, start))),
        valid_utf8(bytes.subrange(chunk_end(bytes, start), bytes.len() as int)),
{
    let end = chunk_end(bytes, start);
    let tail = bytes.subrange(start, bytes.len() as int);
    lemma_chunk_end_bounds(bytes, start);
    lemma_chunk_ends_at_first_line_feed(bytes, start);
    if bytes[end - 1] == LINE_FEED {
        assert(tail[end - start - 1] == bytes[end - 1]);
        lemma_boundary_after_ascii(tail, end - start);
    } else {
        is_char_boundary_start_end_of_seq(tail);
    }
    valid_utf8_split(tail, end - start);
    assert(tail.subrange(0, end - start) =~= bytes.subrange(start, end));
    assert(tail.subrange(end - start, tail.len() as int) =~= bytes.subrange(
        end,
        bytes.len() as int,
    ));
}

/// Where a text holds no `c`, no part of it does.
pub proof fn lemma_split_on_keeps_out(text: Seq<char>, separator: char, c: char)
    requires
        forall|i: int| 0 <= i < text.len() ==> text[i] != c,
    ensures
        forall|k: int, i: int|
            0 <= k < split_on(text, separator).len() && 0 <= i < split_on(text, separator)[k].len()
                ==> #[trigger] split_on(text, separator)[k][i] != c,
    decreases text.len(),
{
    if text.len() > 0 {
        let init = text.drop_last();
        assert forall|i: int| 0 <= i < init.len() implies init[i] != c by {
            assert(init[i] == text[i]);
        }
        lemma_split_on_keeps_out(init, separator, c);
        lemma_split_on_is_not_empty(init, separator);
        assert(text.last() == text[text.len() - 1]);
    }
}

/// The lines of a chunk that is valid UTF-8 each end with their only line
/// feed.
pub proof fn lemma_valid_chunk_lines_have_one_line_feed(chunk: Seq<u8>)
    requires
        valid_utf8(chunk),
        chunk.len() > 0,
        forall|i: int| 0 <= i < chunk.len() - 1 ==> chunk[i] != LINE_FEED,
    ensures
        forall|k: int|
            0 <= k < chunk_lines(decoded_text(chunk)).len() ==> has_one_line_feed(
                #[trigger] chunk_lines(decoded_text(chunk))[k],
            ),
{
    let text = decode_utf8(chunk);
    let unfed = without_last(text, '\n');
    let last = chunk.len() - 1;
    if chunk[last] == LINE_FEED {
        let body = chunk.subrange(0, last);
        let feed = chunk.subrange(last, chunk.len() as int);
        is_char_boundary_iff_not_is_continuation_byte(chunk, last);
        valid_utf8_split(chunk, last);
        decode_utf8_split(chunk, last);
        assert(feed =~= seq![LINE_FEED]);
        lemma_ascii_is_its_own_text(feed);
        assert(decode_utf8(feed) =~= seq!['\n']);
        lemma_text_without_line_feed(body);
        assert(text =~= decode_utf8(body).push('\n'));
        assert(unfed =~= decode_utf8(body));
    } else {
        lemma_text_without_line_feed(chunk);
        assert(unfed == text);
    }
    assert(has_no_line_feed(unfed));
    let body_text = without_last(unfed, '\r');
    assert forall|i: int| 0 <= i < body_text.len() implies body_text[i] != '\n' by {
        assert(body_text[i] == unfed[i]);
    }
    lemma_split_on_keeps_out(body_text, '\r', '\n');
    lemma_chunk_lines_are_lines(text);
    assert forall|k: int| 0 <= k < chunk_lines(text).len() implies has_one_line_feed(
        #[trigger] chunk_lines(text)[k],
    ) by {
        let part = split_on(body_text, '\r')[k];
        let line = chunk_lines(text)[k];
        assert(line == part.push('\n'));
        assert forall|i: int| 0 <= i < line.len() - 1 implies line[i] != '\n' by {
            assert(split_on(body_text, '\r')[k][i] != '\n');
        }
    }
}

/// In a file whose bytes from `start` on are valid UTF-8, every line from
/// `start` on ends with its only line feed.
pub proof fn lemma_valid_lines_have_one_line_feed(bytes: Seq<u8>, start: int)
    requires
        0 <= start <= bytes.len(),
        valid_utf8(bytes.subrange(start, bytes.len() as int)),
    ensures
        forall|k: int|
            0 <= k < lines_from(bytes, start).len() ==> has_one_line_feed(
                #[trigger] lines_from(bytes, start)[k],
            ),
    decreases bytes.len() - start,
{
    if start < bytes.len() {
        let end = chunk_end(bytes, start);
        let chunk = bytes.subrange(start, end);
        lemma_chunk_end_bounds(bytes, start);
        lemma_chunk_ends_at_first_line_feed(bytes, start);
        lemma_chunk_is_valid(bytes, start);
        assert forall|i: int| 0 <= i < chunk.len() - 1 implies chunk[i] != LINE_FEED by {
            assert(chunk[i] == bytes[start + i]);
        }
        lemma_valid_chunk_lines_have_one_line_feed(chunk);
        lemma_valid_lines_have_one_line_feed(bytes, end);
        let head = chunk_lines(decoded_text(chunk));
        let tail = lines_from(bytes, end);
        assert forall|k: int| 0 <= k < (head + tail).len() implies has_one_line_feed(
            #[trigger] (head + tail)[k],
        ) by {
            if k < head.len() {
                assert((head + tail)[k] == head[k]);
            } else {
                assert((head + tail)[k] == tail[k - head.len()]);
            }
        }
    }
}

} // verus!
