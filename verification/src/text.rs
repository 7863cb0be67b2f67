//! Text primitives shared by the other modules: substring containment,
//! lossy decoding of bytes, and moving between strings and characters.

use vstd::prelude::*;
use vstd::utf8::{
    decode_first_scalar, decode_utf8, pop_first_scalar, valid_first_scalar, valid_utf8,
};

verus! {

/// `needle` stands in `haystack` at character position `at`.
pub open spec fn occurs_at(needle: Seq<char>, haystack: Seq<char>, at: int) -> bool {
    &&& 0 <= at
    &&& at + needle.len() <= haystack.len()
    &&& haystack.subrange(at, at + needle.len()) == needle
}

/// `needle` stands somewhere in `haystack` as a contiguous run of characters.
/// The empty needle stands in every haystack.
pub open spec fn occurs_in(needle: Seq<char>, haystack: Seq<char>) -> bool {
    exists|at: int| occurs_at(needle, haystack, at)
}

/// The text that `String::from_utf8_lossy` makes of `bytes`: the decoded
/// characters, with U+FFFD in place of each byte sequence that is not valid
/// UTF-8.
pub uninterp spec fn utf8_lossy(bytes: Seq<u8>) -> Seq<char>;

/// The text of `bytes`: the text that they encode where they are valid
/// UTF-8, and otherwise what lossy decoding makes of them.
pub open spec fn decoded_text(bytes: Seq<u8>) -> Seq<char> {
    if valid_utf8(bytes) {
        decode_utf8(bytes)
    } else {
        utf8_lossy(bytes)
    }
}

/// Every byte is an ASCII character.
pub open spec fn is_ascii_bytes(bytes: Seq<u8>) -> bool {
    forall|i: int| 0 <= i < bytes.len() ==> bytes[i] <= 0x7f
}

/// ASCII bytes are valid UTF-8, and their text is the bytes themselves,
/// read as characters.
pub proof fn lemma_ascii_is_its_own_text(bytes: Seq<u8>)
    requires
        is_ascii_bytes(bytes),
    ensures
        valid_utf8(bytes),
        decoded_text(bytes) == bytes.map_values(|byte: u8| byte as char),
    decreases bytes.len(),
{
    let text = bytes.map_values(|byte: u8| byte as char);
    if bytes.len() == 0 {
        assert(decode_utf8(bytes) =~= text);
    } else {
        let first = bytes[0];
        let rest = bytes.subrange(1, bytes.len() as int);
        assert(first & 0x7f == first) by (bit_vector)
            requires
                first <= 0x7f,
        ;
        assert(valid_first_scalar(bytes));
        assert(decode_first_scalar(bytes) == first as u32);
        assert(pop_first_scalar(bytes) =~= rest);
        lemma_ascii_is_its_own_text(rest);
        assert(decode_utf8(bytes) =~= text);
    }
}

/// Trusted: calls `String::from_utf8_lossy`. The result is a function of
/// the bytes alone, named `utf8_lossy`; on bytes that are valid UTF-8 it is
/// the text they encode, as the standard library documents.
#[verifier::external_body]
pub(crate) fn decode_lossy(bytes: &[u8]) -> (text: String)
    ensures
        text@ == utf8_lossy(bytes@),
        valid_utf8(bytes@) ==> text@ == decode_utf8(bytes@),
{
    String::from_utf8_lossy(bytes).into_owned()
}

/// Trusted: calls `str::contains` with a string pattern, which is true
/// exactly when the pattern matches a sub-slice of the haystack.
#[verifier::external_body]
pub(crate) fn contains_text(haystack: &str, needle: &str) -> (found: bool)
    ensures
        found == occurs_in(needle@, haystack@),
{
    haystack.contains(needle)
}

/// Trusted: calls `String::push`, which appends one character.
#[verifier::external_body]
pub(crate) fn push_char(text: &mut String, c: char)
    ensures
        final(text)@ == old(text)@.push(c),
{
    text.push(c)
}

/// The characters of `text`, in order.
pub fn chars_of(text: &str) -> (chars: Vec<char>)
    ensures
        chars@ == text@,
{
    broadcast use vstd::string::group_string_axioms;

    let mut chars: Vec<char> = Vec::new();
    for c in it: text.chars()
        invariant
            it.seq() == text@,
            chars@ == it.seq().take(it.index()),
    {
        assert(it.seq().take(it.index() + 1) =~= it.seq().take(it.index()).push(c));
        chars.push(c);
    }
    assert(text@.take(text@.len() as int) =~= text@);
    chars
}

} // verus!
