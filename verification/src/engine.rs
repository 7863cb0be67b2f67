//! The engine: the lines of one file, and the operations on them.

use crate::filter::{
    aggregate, events_of, filter_outcome, lemma_events_come_from_verdicts, line_verdicts,
    verdict_views, FilterOutcome, RuleSet,
};
use crate::lines::{file_lines, is_line, line_texts, split_lines};
use crate::parallel::map_lines;
use crate::pattern::PatternError;
use crate::rules::{rule_views, FilterRule};
use crate::search::{is_search_result, query_hits, Query};
use crate::select::positions_of;
use crate::text::occurs_in;
use crate::valid_files::{has_one_line_feed, lemma_valid_lines_have_one_line_feed};
use crate::verdict::{line_verdict, LineVerdict};
use vstd::prelude::*;
use vstd::utf8::valid_utf8;

verus! {

/// The lines of one file, in order. They are set when the engine is made
/// and never change. Every line ends with a line feed and holds no carriage
/// return, whatever ended it in the file.
pub struct LogEngine {
    lines: Vec<String>,
}

impl View for LogEngine {
    type V = Seq<Seq<char>>;

    closed spec fn view(&self) -> Seq<Seq<char>> {
        line_texts(self.lines@)
    }
}

impl LogEngine {
    #[verifier::type_invariant]
    spec fn holds_lines(self) -> bool {
        forall|i: int| 0 <= i < self.lines.len() ==> is_line(#[trigger] self.lines[i]@)
    }

    /// The line at `index`, or the empty text where there is no such line.
    pub open spec fn line_at(self, index: int) -> Seq<char> {
        if 0 <= index < self@.len() {
            self@[index]
        } else {
            Seq::empty()
        }
    }

    /// The engine for a file with the given bytes. Bytes that are not
    /// valid UTF-8 are replaced, never refused. Where all bytes are valid
    /// UTF-8, every line ends with its only line feed.
    pub fn from_bytes(data: &[u8]) -> (engine: LogEngine)
        ensures
            engine@ == file_lines(data@),
            valid_utf8(data@) ==> forall|i: int|
                0 <= i < engine@.len() ==> has_one_line_feed(#[trigger] engine@[i]),
    {
        proof {
            if valid_utf8(data@) {
                assert(data@.subrange(0, data@.len() as int) =~= data@);
                lemma_valid_lines_have_one_line_feed(data@, 0);
            }
        }
        LogEngine { lines: split_lines(data) }
    }

    /// The line at `index`, which ends with a line feed and holds no
    /// carriage return. An index past the last line is no error: it gives
    /// the empty string.
    pub fn get_line(&self, index: usize) -> (line: String)
        ensures
            line@ == self.line_at(index as int),
            index < self@.len() ==> is_line(line@),
    {
        proof {
            use_type_invariant(self);
        }
        if index < self.lines.len() {
            self.lines[index].clone()
        } else {
            String::new()
        }
    }

    /// The number of lines.
    pub fn line_count(&self) -> (count: usize)
        ensures
            count == self@.len(),
    {
        self.lines.len()
    }

    /// The positions of the lines that the query matches, ascending. A
    /// pattern query is matched as a regular expression, case-insensitively
    /// unless `case_sensitive` is set; a plain query matches the lines that
    /// contain it, in any case unless `case_sensitive` is set. A query
    /// whose expression does not compile is an error, and gives no
    /// positions at all.
    pub fn search(&self, query: &str, is_pattern: bool, case_sensitive: bool) -> (found: Result<
        Vec<usize>,
        PatternError,
    >)
        ensures
            is_search_result(self@, query@, is_pattern, case_sensitive, found),
    {
        let prepared = match Query::prepare(query, is_pattern, case_sensitive) {
            Ok(prepared) => prepared,
            Err(refused) => {
                return Err(refused);
            },
        };
        let matches_line = |_position: usize, line: &String| -> (hit: bool)
            ensures
                hit == query_hits(query@, is_pattern, case_sensitive, line@),
            {
                prepared.matches(line.as_str())
            };
        let hits = map_lines(&self.lines, matches_line);
        proof {
            assert(hits@ =~= self@.map_values(
                |line: Seq<char>| query_hits(query@, is_pattern, case_sensitive, line),
            ));
        }
        Ok(positions_of(&hits))
    }

    /// Evaluates the rules, in the order given, on every line, and builds
    /// the outcome in one pass over the lines in order. A rule whose
    /// pattern does not compile is no error: it matches no line. The
    /// timestamp of every event stands in the line of the event.
    pub fn filter(&self, rules: &[FilterRule]) -> (outcome: FilterOutcome)
        ensures
            outcome@ == filter_outcome(self@, rule_views(rules@)),
            outcome@.events_stand_in(self@),
    {
        let set = RuleSet::compile(rules);
        let evaluate = |position: usize, line: &String| -> (verdict: LineVerdict)
            ensures
                verdict@ == line_verdict(set@, line@, position as int),
                verdict@.within(set@.len() as int),
                verdict@.event() matches Some(event) ==> occurs_in(event.timestamp, line@),
            {
                set.evaluate_line(line.as_str(), position)
            };
        let verdicts = map_lines(&self.lines, evaluate);
        let ghost views = verdict_views(verdicts@);
        proof {
            assert(views =~= line_verdicts(self@, set@));
            assert forall|k: int| 0 <= k < events_of(views).len() implies (#[trigger] events_of(
                views,
            )[k]).stands_in(self@) by {
                lemma_events_come_from_verdicts(views, k);
                let i = choose|i: int|
                    0 <= i < views.len() && (#[trigger] views[i]).event() == Some(
                        events_of(views)[k],
                    );
                assert(views[i] == verdicts[i]@);
                assert(self@[i] == self.lines[i]@);
            }
        }
        aggregate(verdicts, set.len(), set.has_includes())
    }
}

} // verus!
