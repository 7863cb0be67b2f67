//! A log-file analysis engine.
//!
//! A file is loaded once into an ordered, immutable sequence of lines with
//! normalised terminators. On that sequence the engine answers ad-hoc
//! searches and evaluates ordered lists of filter rules, tagging every line,
//! selecting the lines that pass, counting hits per rule and collecting the
//! timestamped events of a timeline.

pub mod engine;
pub mod filter;
pub mod laws;
pub mod lines;
mod parallel;
pub mod pattern;
pub mod rules;
pub mod search;
pub mod select;
pub mod text;
pub mod timestamp;
pub mod valid_files;
pub mod verdict;

pub use engine::LogEngine;
pub use filter::{
    aggregate, aggregated, events_of, filter_outcome, hit_count, line_verdicts, verdict_views,
    FilterOutcome, OutcomeView, RuleSet,
};
pub use lines::{
    chunk_end, chunk_lines, file_lines, is_line, line_texts, lines_from, push_chunk_lines,
    split_lines, split_on, terminated, without_last, LINE_FEED,
};
pub use pattern::{
    compiled, error_message, escaped, is_meta_character, pattern_first_group, pattern_is_valid,
    pattern_matches, regex_matches, PatternError,
};
pub use rules::{
    first_hit, has_includes, rule_hits, rule_views, CompiledRule, FilterRule, RuleView,
};
pub use search::{
    is_search_result, matching_lines, query_expression, query_hits, query_is_valid, Query,
};
pub use select::{as_ints, positions_of, selected};
pub use text::{chars_of, decoded_text, is_ascii_bytes, occurs_at, occurs_in, utf8_lossy};
pub use timestamp::{timestamp_in, TimestampExtractor, TIMESTAMP_PATTERN};
pub use valid_files::{has_no_line_feed, has_one_line_feed};
pub use verdict::{
    event_of, line_verdict, EventView, LineVerdict, Tag, TagView, TimelineEvent, VerdictView,
};
