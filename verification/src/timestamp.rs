//! Recognising the timestamp of a log line.

use crate::pattern::{build, compiled, first_group, pattern_first_group, regex_matches};
use crate::text::occurs_in;
use vstd::prelude::*;

verus! {

/// The timestamp formats, as one alternation in a capture group. At each
/// position the alternatives are tried from left to right:
///
/// - `YYYY-MM-DD`, a space or `T`, `HH:MM:SS`, and optionally `.` or `,`
///   and a fraction;
/// - `MM/DD/YYYY-HH:MM:SS.` and a fraction;
/// - `H:MM:SS.`, a fraction, white space and `AM` or `PM`, between word
///   boundaries;
/// - `HH:MM:SS`, and optionally `.` or `,` and a fraction, between word
///   boundaries.
pub const TIMESTAMP_PATTERN: &'static str =
    r"(\d{4}-\d{2}-\d{2}[ T]\d{2}:\d{2}:\d{2}(?:[.,]\d+)?|\d{2}/\d{2}/\d{4}-\d{2}:\d{2}:\d{2}\.\d+|\b\d{1,2}:\d{2}:\d{2}\.\d+\s+(?:AM|PM)\b|\b\d{2}:\d{2}:\d{2}(?:[.,]\d+)?\b)";

/// The timestamp of `line`: the first substring, from the left, that has
/// one of the formats of `TIMESTAMP_PATTERN`.
pub open spec fn timestamp_in(line: Seq<char>) -> Option<Seq<char>> {
    pattern_first_group(TIMESTAMP_PATTERN@, false, line)
}

/// Finds the timestamp of a line. It holds the compiled `TIMESTAMP_PATTERN`.
pub struct TimestampExtractor {
    engine: Option<regex::Regex>,
}

impl View for TimestampExtractor {
    type V = Option<Map<Seq<char>, Option<Seq<char>>>>;

    /// What the extractor holds: what its compiled expression holds, or
    /// `None` where it has no expression.
    closed spec fn view(&self) -> Option<Map<Seq<char>, Option<Seq<char>>>> {
        match self.engine {
            Some(re) => Some(regex_matches(re)),
            None => None,
        }
    }
}

impl TimestampExtractor {
    #[verifier::type_invariant]
    spec fn holds_the_pattern(self) -> bool {
        self@ == compiled(TIMESTAMP_PATTERN@, false)
    }

    /// Compiles the timestamp pattern. The extractor holds what compiling
    /// `TIMESTAMP_PATTERN` gives, case-sensitively: the compiled
    /// expression, or none where the crate refuses the pattern.
    pub fn new() -> (extractor: TimestampExtractor)
        ensures
            extractor@ == compiled(TIMESTAMP_PATTERN@, false),
    {
        match build(TIMESTAMP_PATTERN, false) {
            Ok(re) => TimestampExtractor { engine: Some(re) },
            Err(_) => TimestampExtractor { engine: None },
        }
    }

    /// The timestamp of `line`, or `None` where the line has none. A
    /// timestamp is a substring of its line.
    pub fn extract(&self, line: &str) -> (found: Option<String>)
        ensures
            match found {
                Some(timestamp) => timestamp_in(line@) == Some(timestamp@) && occurs_in(
                    timestamp@,
                    line@,
                ),
                None => timestamp_in(line@) is None,
            },
    {
        proof {
            use_type_invariant(self);
        }
        match &self.engine {
            Some(re) => first_group(re, line),
            None => None,
        }
    }
}

} // verus!
