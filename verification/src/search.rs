//! Searching: one query, plain or a pattern, matched against a line.

use crate::pattern::{
    build, escape, escaped, is_match, pattern_is_valid, pattern_matches, regex_matches,
    PatternError,
};
use crate::select::{as_ints, selected};
use crate::text::{contains_text, occurs_in};
use vstd::prelude::*;

verus! {

/// The expression that a query is matched with, and whether it folds case;
/// `None` for a case-sensitive plain query, which needs no expression. A
/// pattern query is its own expression, folding case unless the search is
/// case-sensitive. A case-insensitive plain query is matched as the literal
/// expression that escaping it gives, folding case.
pub open spec fn query_expression(
    query: Seq<char>,
    is_pattern: bool,
    case_sensitive: bool,
) -> Option<(Seq<char>, bool)> {
    if is_pattern {
        Some((query, !case_sensitive))
    } else if case_sensitive {
        None
    } else {
        Some((escaped(query), true))
    }
}

/// The query can be searched for: its expression, where it has one,
/// compiles.
pub open spec fn query_is_valid(query: Seq<char>, is_pattern: bool, case_sensitive: bool) -> bool {
    match query_expression(query, is_pattern, case_sensitive) {
        Some((expression, fold_case)) => pattern_is_valid(expression, fold_case),
        None => true,
    }
}

/// The query matches `line`: its expression finds a match in the line, or,
/// for a case-sensitive plain query, the line contains the query.
pub open spec fn query_hits(
    query: Seq<char>,
    is_pattern: bool,
    case_sensitive: bool,
    line: Seq<char>,
) -> bool {
    match query_expression(query, is_pattern, case_sensitive) {
        Some((expression, fold_case)) => pattern_matches(expression, fold_case, line),
        None => occurs_in(query, line),
    }
}

/// The positions of the lines that the query matches, ascending.
pub open spec fn matching_lines(
    lines: Seq<Seq<char>>,
    query: Seq<char>,
    is_pattern: bool,
    case_sensitive: bool,
) -> Seq<int> {
    selected(
        lines.map_values(|line: Seq<char>| query_hits(query, is_pattern, case_sensitive, line)),
    )
}

/// `found` is what a search of `lines` for the query returns: the positions
/// of the lines that the query matches, ascending, where the query is
/// valid, and an error where it is not.
pub open spec fn is_search_result(
    lines: Seq<Seq<char>>,
    query: Seq<char>,
    is_pattern: bool,
    case_sensitive: bool,
    found: Result<Vec<usize>, PatternError>,
) -> bool {
    match found {
        Ok(positions) => query_is_valid(query, is_pattern, case_sensitive) && as_ints(positions@)
            == matching_lines(lines, query, is_pattern, case_sensitive),
        Err(_) => !query_is_valid(query, is_pattern, case_sensitive),
    }
}

/// A query made ready for matching.
pub enum Query {
    /// A plain query, matched as it stands.
    Text(String),
    /// A query matched by a compiled expression.
    Expression(regex::Regex),
}

impl Query {
    /// The prepared query matches `line`.
    pub open spec fn hits(&self, line: Seq<char>) -> bool {
        match self {
            Query::Text(text) => occurs_in(text@, line),
            Query::Expression(re) => regex_matches(*re).contains_key(line),
        }
    }

    /// The prepared query matches the very lines that the given query
    /// matches.
    pub open spec fn answers(
        &self,
        query: Seq<char>,
        is_pattern: bool,
        case_sensitive: bool,
    ) -> bool {
        forall|line: Seq<char>|
            #[trigger] self.hits(line) == query_hits(query, is_pattern, case_sensitive, line)
    }

    /// Makes a query ready, compiling its expression where it has one. A
    /// query whose expression does not compile is refused, and only such a
    /// query.
    pub fn prepare(query: &str, is_pattern: bool, case_sensitive: bool) -> (ready: Result<
        Query,
        PatternError,
    >)
        ensures
            match ready {
                Ok(prepared) => query_is_valid(query@, is_pattern, case_sensitive)
                    && prepared.answers(query@, is_pattern, case_sensitive),
                Err(_) => !query_is_valid(query@, is_pattern, case_sensitive),
            },
    {
        if is_pattern {
            match build(query, !case_sensitive) {
                Ok(re) => Ok(Query::Expression(re)),
                Err(error) => Err(PatternError::of(&error)),
            }
        } else if case_sensitive {
            Ok(Query::Text(query.to_owned()))
        } else {
            let literal = escape(query);
            match build(literal.as_str(), true) {
                Ok(re) => Ok(Query::Expression(re)),
                Err(error) => Err(PatternError::of(&error)),
            }
        }
    }

    /// Whether the prepared query matches `line`.
    pub fn matches(&self, line: &str) -> (hit: bool)
        ensures
            hit == self.hits(line@),
    {
        match self {
            Query::Text(text) => contains_text(line, text.as_str()),
            Query::Expression(re) => is_match(re, line),
        }
    }
}

} // verus!
