//! Filter rules, and what it means for a rule to match a line.

use crate::pattern::{build, compiled, is_match, pattern_matches, regex_matches};
use crate::text::{contains_text, occurs_in};
use vstd::prelude::*;

verus! {

/// One matching criterion of a filter. Rules are evaluated in the order in
/// which they are given, and that order decides ties.
#[derive(Clone, Debug, PartialEq, Eq)]
pub struct FilterRule {
    /// The text to look for, or the pattern where `is_pattern` is set.
    pub pattern: String,
    /// `pattern` is a regular expression, not plain text.
    pub is_pattern: bool,
    /// A line that the rule matches is dropped, not kept.
    pub is_exclude: bool,
    /// A kept line that the rule matches is an event of the timeline.
    pub is_event: bool,
    /// The caller's own identity of the rule. It is carried along and plays
    /// no part in matching.
    pub original_index: usize,
}

/// A filter rule as a mathematical value.
pub struct RuleView {
    pub pattern: Seq<char>,
    pub is_pattern: bool,
    pub is_exclude: bool,
    pub is_event: bool,
    pub original_index: int,
}

impl View for FilterRule {
    type V = RuleView;

    open spec fn view(&self) -> RuleView {
        RuleView {
            pattern: self.pattern@,
            is_pattern: self.is_pattern,
            is_exclude: self.is_exclude,
            is_event: self.is_event,
            original_index: self.original_index as int,
        }
    }
}

/// The rules of a list as mathematical values, in the same order.
pub open spec fn rule_views(rules: Seq<FilterRule>) -> Seq<RuleView> {
    rules.map_values(|rule: FilterRule| rule@)
}

/// `rule` matches `line`: a pattern rule where its expression finds a match
/// in the line, a plain rule where the line contains its text. A pattern
/// that does not compile matches no line.
pub open spec fn rule_hits(rule: RuleView, line: Seq<char>) -> bool {
    if rule.is_pattern {
        pattern_matches(rule.pattern, false, line)
    } else {
        occurs_in(rule.pattern, line)
    }
}

/// The position of the first rule at or after `from` that is of the asked
/// kind (excluding or not) and matches `line`.
pub open spec fn first_hit(
    rules: Seq<RuleView>,
    line: Seq<char>,
    exclude: bool,
    from: int,
) -> Option<int>
    decreases rules.len() - from,
{
    if from < 0 || from >= rules.len() {
        None
    } else if rules[from].is_exclude == exclude && rule_hits(rules[from], line) {
        Some(from)
    } else {
        first_hit(rules, line, exclude, from + 1)
    }
}

/// Where `first_hit` finds a rule, the rule stands at or after `from`, is of
/// the asked kind and matches the line, and no rule of that kind between
/// `from` and it matches. Where it finds none, no rule of that kind at or
/// after `from` matches.
pub proof fn lemma_first_hit_is_first(
    rules: Seq<RuleView>,
    line: Seq<char>,
    exclude: bool,
    from: int,
)
    requires
        0 <= from,
    ensures
        match first_hit(rules, line, exclude, from) {
            Some(rule) => {
                &&& from <= rule < rules.len()
                &&& rules[rule].is_exclude == exclude
                &&& rule_hits(rules[rule], line)
                &&& forall|earlier: int|
                    from <= earlier < rule ==> !((#[trigger] rules[earlier]).is_exclude == exclude
                        && rule_hits(rules[earlier], line))
            },
            None => forall|later: int|
                from <= later < rules.len() ==> !((#[trigger] rules[later]).is_exclude == exclude
                    && rule_hits(rules[later], line)),
        },
    decreases rules.len() - from,
{
    if from < rules.len() && !(rules[from].is_exclude == exclude && rule_hits(rules[from], line)) {
        lemma_first_hit_is_first(rules, line, exclude, from + 1);
    }
}

/// At least one rule of the list keeps lines.
pub open spec fn has_includes(rules: Seq<RuleView>) -> bool {
    exists|i: int| 0 <= i < rules.len() && !(#[trigger] rules[i]).is_exclude
}

/// A rule whose pattern, where it is one, has been compiled once. A pattern
/// that does not compile leaves a rule that matches nothing.
pub struct CompiledRule {
    rule: FilterRule,
    engine: Option<regex::Regex>,
}

impl View for CompiledRule {
    type V = RuleView;

    /// The rule that was compiled.
    closed spec fn view(&self) -> RuleView {
        self.rule@
    }
}

impl CompiledRule {
    #[verifier::type_invariant]
    spec fn holds_the_pattern(self) -> bool {
        self.rule.is_pattern ==> match self.engine {
            Some(re) => compiled(self.rule.pattern@, false) == Some(regex_matches(re)),
            None => compiled(self.rule.pattern@, false) is None,
        }
    }

    /// Compiles the pattern of `rule`, where it is one.
    pub fn compile(rule: &FilterRule) -> (ready: CompiledRule)
        ensures
            ready@ == rule@,
    {
        let copy = FilterRule {
            pattern: rule.pattern.clone(),
            is_pattern: rule.is_pattern,
            is_exclude: rule.is_exclude,
            is_event: rule.is_event,
            original_index: rule.original_index,
        };
        if rule.is_pattern {
            match build(rule.pattern.as_str(), false) {
                Ok(re) => CompiledRule { rule: copy, engine: Some(re) },
                Err(_) => CompiledRule { rule: copy, engine: None },
            }
        } else {
            CompiledRule { rule: copy, engine: None }
        }
    }

    /// The rule drops the lines it matches.
    pub fn is_exclude(&self) -> (flag: bool)
        ensures
            flag == self@.is_exclude,
    {
        self.rule.is_exclude
    }

    /// The lines the rule keeps are events.
    pub fn is_event(&self) -> (flag: bool)
        ensures
            flag == self@.is_event,
    {
        self.rule.is_event
    }

    /// The text of the rule.
    pub fn pattern(&self) -> (pattern: &str)
        ensures
            pattern@ == self@.pattern,
    {
        self.rule.pattern.as_str()
    }

    /// Whether the rule matches `line`.
    pub fn matches(&self, line: &str) -> (hit: bool)
        ensures
            hit == rule_hits(self@, line@),
    {
        proof {
            use_type_invariant(self);
        }
        if self.rule.is_pattern {
            match &self.engine {
                Some(re) => is_match(re, line),
                None => false,
            }
        } else {
            contains_text(line, self.rule.pattern.as_str())
        }
    }
}

} // verus!
