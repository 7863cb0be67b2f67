//! Splitting the bytes of a file into lines.
//!
//! The bytes are cut into chunks, each ending with its line feed. A chunk
//! is decoded, loses one trailing line feed and then one trailing carriage
//! return, and is cut further at every carriage return that is left. Every
//! line that results gets a line feed at its end, the last line of the file
//! too.

use crate::text::{chars_of, decode_lossy, decoded_text, push_char};
use vstd::prelude::*;
use vstd::slice::slice_subrange;

verus! {

/// The line feed byte.
pub const LINE_FEED: u8 = 0x0A;

/// The position just past the first line feed byte at or after `start`, or
/// the end of the bytes where there is none.
pub open spec fn chunk_end(bytes: Seq<u8>, start: int) -> int
    decreases bytes.len() - start,
{
    if start < 0 || start >= bytes.len() {
        bytes.len() as int
    } else if bytes[start] == LINE_FEED {
        start + 1
    } else {
        chunk_end(bytes, start + 1)
    }
}

/// A chunk that starts inside the bytes is not empty and ends inside them.
pub proof fn lemma_chunk_end_bounds(bytes: Seq<u8>, start: int)
    requires
        0 <= start < bytes.len(),
    ensures
        start < chunk_end(bytes, start) <= bytes.len(),
    decreases bytes.len() - start,
{
    if bytes[start] != LINE_FEED {
        if start + 1 < bytes.len() {
            lemma_chunk_end_bounds(bytes, start + 1);
        } else {
            assert(chunk_end(bytes, start + 1) == bytes.len());
        }
    }
}

/// `text` without its last character, where that is `c`.
pub open spec fn without_last(text: Seq<char>, c: char) -> Seq<char> {
    if text.len() > 0 && text.last() == c {
        text.drop_last()
    } else {
        text
    }
}

/// The parts of `text` between the occurrences of `separator`: one part
/// more than there are separators, empty parts among them.
pub open spec fn split_on(text: Seq<char>, separator: char) -> Seq<Seq<char>>
    decreases text.len(),
{
    if text.len() == 0 {
        seq![Seq::empty()]
    } else {
        let parts = split_on(text.drop_last(), separator);
        if text.last() == separator {
            parts.push(Seq::empty())
        } else {
            parts.drop_last().push(parts.last().push(text.last()))
        }
    }
}

/// Every part with a line feed at its end.
pub open spec fn terminated(parts: Seq<Seq<char>>) -> Seq<Seq<char>> {
    parts.map_values(|part: Seq<char>| part.push('\n'))
}

/// The lines of one decoded chunk.
pub open spec fn chunk_lines(text: Seq<char>) -> Seq<Seq<char>> {
    terminated(split_on(without_last(without_last(text, '\n'), '\r'), '\r'))
}

/// The lines of the bytes from `start` on, where `start` begins a chunk.
pub open spec fn lines_from(bytes: Seq<u8>, start: int) -> Seq<Seq<char>>
    decreases bytes.len() - start,
{
    if 0 <= start < bytes.len() {
        let end = chunk_end(bytes, start);
        proof {
            lemma_chunk_end_bounds(bytes, start);
        }
        chunk_lines(decoded_text(bytes.subrange(start, end))) + lines_from(bytes, end)
    } else {
        Seq::empty()
    }
}

/// The lines of a file with the given bytes.
pub open spec fn file_lines(bytes: Seq<u8>) -> Seq<Seq<char>> {
    lines_from(bytes, 0)
}

/// The texts of a list of strings, in the same order.
pub open spec fn line_texts(lines: Seq<String>) -> Seq<Seq<char>> {
    lines.map_values(|line: String| line@)
}

/// `text` is a line as the engine stores it: it ends with a line feed and
/// holds no carriage return.
pub open spec fn is_line(text: Seq<char>) -> bool {
    &&& text.len() > 0
    &&& text.last() == '\n'
    &&& forall|i: int| 0 <= i < text.len() ==> text[i] != '\r'
}

/// No part holds the separator.
pub proof fn lemma_split_on_parts_are_free(text: Seq<char>, separator: char)
    ensures
        forall|k: int, i: int|
            0 <= k < split_on(text, separator).len() && 0 <= i < split_on(text, separator)[k].len()
                ==> #[trigger] split_on(text, separator)[k][i] != separator,
    decreases text.len(),
{
    if text.len() > 0 {
        lemma_split_on_parts_are_free(text.drop_last(), separator);
        lemma_split_on_is_not_empty(text.drop_last(), separator);
    }
}

/// Every line of a chunk is a line as the engine stores it, and a chunk
/// has at least one line.
pub proof fn lemma_chunk_lines_are_lines(text: Seq<char>)
    ensures
        chunk_lines(text).len() >= 1,
        forall|k: int|
            0 <= k < chunk_lines(text).len() ==> is_line(#[trigger] chunk_lines(text)[k]),
{
    let body = without_last(without_last(text, '\n'), '\r');
    lemma_split_on_is_not_empty(body, '\r');
    lemma_split_on_parts_are_free(body, '\r');
    assert forall|k: int| 0 <= k < chunk_lines(text).len() implies is_line(
        #[trigger] chunk_lines(text)[k],
    ) by {
        let part = split_on(body, '\r')[k];
        let line = chunk_lines(text)[k];
        assert(line == part.push('\n'));
        assert forall|i: int| 0 <= i < line.len() implies line[i] != '\r' by {
            if i < part.len() {
                assert(split_on(body, '\r')[k][i] != '\r');
            }
        }
    }
}

/// Every line from `start` on is a line as the engine stores it.
pub proof fn lemma_lines_from_are_lines(bytes: Seq<u8>, start: int)
    ensures
        forall|k: int|
            0 <= k < lines_from(bytes, start).len() ==> is_line(
                #[trigger] lines_from(bytes, start)[k],
            ),
    decreases bytes.len() - start,
{
    if 0 <= start < bytes.len() {
        let end = chunk_end(bytes, start);
        lemma_chunk_end_bounds(bytes, start);
        let head = chunk_lines(decoded_text(bytes.subrange(start, end)));
        let tail = lines_from(bytes, end);
        lemma_chunk_lines_are_lines(decoded_text(bytes.subrange(start, end)));
        lemma_lines_from_are_lines(bytes, end);
        assert forall|k: int| 0 <= k < (head + tail).len() implies is_line(
            #[trigger] (head + tail)[k],
        ) by {
            if k < head.len() {
                assert((head + tail)[k] == head[k]);
            } else {
                assert((head + tail)[k] == tail[k - head.len()]);
            }
        }
    }
}

/// There is always at least one part.
pub proof fn lemma_split_on_is_not_empty(text: Seq<char>, separator: char)
    ensures
        split_on(text, separator).len() >= 1,
    decreases text.len(),
{
    if text.len() > 0 {
        lemma_split_on_is_not_empty(text.drop_last(), separator);
    }
}

/// The position just past the first line feed at or after `start`.
fn find_chunk_end(data: &[u8], start: usize) -> (end: usize)
    requires
        start < data.len(),
    ensures
        end == chunk_end(data@, start as int),
        start < end <= data.len(),
{
    let mut i: usize = start;
    while i < data.len()
        invariant
            start <= i <= data.len(),
            chunk_end(data@, start as int) == chunk_end(data@, i as int),
        decreases data.len() - i,
    {
        if data[i] == LINE_FEED {
            return i + 1;
        }
        i += 1;
    }
    i
}

/// Appends the lines of one decoded chunk to `lines`.
pub fn push_chunk_lines(lines: &mut Vec<String>, text: &str)
    ensures
        line_texts(final(lines)@) == line_texts(old(lines)@) + chunk_lines(text@),
{
    let ghost before = line_texts(lines@);
    let chars = chars_of(text);
    let mut end: usize = chars.len();
    if end > 0 && chars[end - 1] == '\n' {
        end -= 1;
    }
    if end > 0 && chars[end - 1] == '\r' {
        end -= 1;
    }
    let ghost body = chars@.take(end as int);
    proof {
        let unfed = without_last(text@, '\n');
        assert(unfed =~= chars@.take(unfed.len() as int));
        assert(body =~= without_last(unfed, '\r'));
        assert(body.take(0) =~= Seq::<char>::empty());
        assert(split_on(body.take(0), '\r').drop_last() =~= Seq::<Seq<char>>::empty());
        assert(terminated(Seq::<Seq<char>>::empty()) =~= Seq::<Seq<char>>::empty());
        assert(before + Seq::<Seq<char>>::empty() =~= before);
    }
    let mut current = String::new();
    let mut i: usize = 0;
    while i < end
        invariant
            i <= end <= chars.len(),
            body == chars@.take(end as int),
            line_texts(lines@) == before + terminated(
                split_on(body.take(i as int), '\r').drop_last(),
            ),
            current@ == split_on(body.take(i as int), '\r').last(),
        decreases end - i,
    {
        let ghost parts = split_on(body.take(i as int), '\r');
        let ghost grown = split_on(body.take(i + 1), '\r');
        proof {
            lemma_split_on_is_not_empty(body.take(i as int), '\r');
            assert(body.take(i + 1).drop_last() =~= body.take(i as int));
            assert(body.take(i + 1).last() == chars[i as int]);
        }
        let c = chars[i];
        if c == '\r' {
            push_char(&mut current, '\n');
            proof {
                assert(grown.drop_last() =~= parts);
                assert(terminated(parts) =~= terminated(parts.drop_last()).push(
                    parts.last().push('\n'),
                ));
                assert(line_texts(lines@.push(current)) =~= line_texts(lines@).push(current@));
                assert(before + terminated(parts.drop_last()).push(current@) =~= (before
                    + terminated(parts.drop_last())).push(current@));
            }
            lines.push(current);
            current = String::new();
        } else {
            push_char(&mut current, c);
            proof {
                assert(grown.drop_last() =~= parts.drop_last());
            }
        }
        i += 1;
    }
    push_char(&mut current, '\n');
    proof {
        let parts = split_on(body, '\r');
        lemma_split_on_is_not_empty(body, '\r');
        assert(body.take(end as int) =~= body);
        assert(terminated(parts) =~= terminated(parts.drop_last()).push(parts.last().push('\n')));
        assert(line_texts(lines@.push(current)) =~= line_texts(lines@).push(current@));
        assert(before + terminated(parts.drop_last()).push(current@) =~= (before + terminated(
            parts.drop_last(),
        )).push(current@));
    }
    lines.push(current);
}

/// The lines of a file with the given bytes. Bytes that are not valid
/// UTF-8 are replaced, never refused.
pub fn split_lines(data: &[u8]) -> (lines: Vec<String>)
    ensures
        line_texts(lines@) == file_lines(data@),
        forall|i: int| 0 <= i < lines.len() ==> is_line(#[trigger] lines[i]@),
{
    let mut lines: Vec<String> = Vec::new();
    let mut start: usize = 0;
    proof {
        assert(line_texts(lines@) =~= Seq::<Seq<char>>::empty());
        assert(Seq::<Seq<char>>::empty() + lines_from(data@, 0) =~= lines_from(data@, 0));
    }
    while start < data.len()
        invariant
            start <= data.len(),
            line_texts(lines@) + lines_from(data@, start as int) == file_lines(data@),
        decreases data.len() - start,
    {
        let ghost done = line_texts(lines@);
        let end = find_chunk_end(data, start);
        let text = decode_lossy(slice_subrange(data, start, end));
        push_chunk_lines(&mut lines, text.as_str());
        proof {
            let fresh = chunk_lines(text@);
            assert((done + fresh) + lines_from(data@, end as int) =~= done + (fresh + lines_from(
                data@,
                end as int,
            )));
        }
        start = end;
    }
    proof {
        assert(line_texts(lines@) + Seq::<Seq<char>>::empty() =~= line_texts(lines@));
        lemma_lines_from_are_lines(data@, 0);
        assert forall|i: int| 0 <= i < lines.len() implies is_line(#[trigger] lines[i]@) by {
            assert(line_texts(lines@)[i] == lines[i]@);
        }
    }
    lines
}

} // verus!
