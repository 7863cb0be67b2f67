//! What evaluating the rules says of one line.

use crate::rules::{first_hit, RuleView};
use crate::text::occurs_in;
use crate::timestamp::timestamp_in;
use vstd::prelude::*;

verus! {

/// The classification of a line. Every line has exactly one tag.
#[derive(Clone, Copy, Debug, PartialEq, Eq, Structural)]
pub enum Tag {
    /// No rule matched the line.
    Unmatched,
    /// An excluding rule matched the line.
    Excluded,
    /// The keeping rule at this position of the rule list matched the line,
    /// and no excluding rule did.
    IncludeMatch(usize),
}

/// A tag as a mathematical value.
pub enum TagView {
    Unmatched,
    Excluded,
    IncludeMatch(int),
}

impl TagView {
    /// The tag as a small integer: 0 for an unmatched line, 1 for an
    /// excluded one, and 2 plus the rule's position for a kept one.
    pub open spec fn code(self) -> int {
        match self {
            TagView::Unmatched => 0,
            TagView::Excluded => 1,
            TagView::IncludeMatch(rule) => 2 + rule,
        }
    }
}

impl View for Tag {
    type V = TagView;

    open spec fn view(&self) -> TagView {
        match *self {
            Tag::Unmatched => TagView::Unmatched,
            Tag::Excluded => TagView::Excluded,
            Tag::IncludeMatch(rule) => TagView::IncludeMatch(rule as int),
        }
    }
}

impl Tag {
    /// The tag as a small integer: 0 for an unmatched line, 1 for an
    /// excluded one, and 2 plus the rule's position for a kept one. The
    /// sum has to fit the machine's index type.
    pub fn code(&self) -> (code: usize)
        requires
            self@.code() <= usize::MAX,
        ensures
            code == self@.code(),
    {
        match *self {
            Tag::Unmatched => 0,
            Tag::Excluded => 1,
            Tag::IncludeMatch(rule) => 2 + rule,
        }
    }

    /// The tag as a small integer, or `None` where the integer does not
    /// fit the machine's index type.
    pub fn checked_code(&self) -> (code: Option<usize>)
        ensures
            match code {
                Some(code) => code == self@.code(),
                None => self@.code() > usize::MAX,
            },
    {
        match *self {
            Tag::IncludeMatch(rule) => if rule <= usize::MAX - 2 {
                Some(self.code())
            } else {
                None
            },
            _ => Some(self.code()),
        }
    }
}

/// A timeline-worthy occurrence: a line kept by an event rule, in which a
/// timestamp was found.
#[derive(Clone, Debug, PartialEq, Eq)]
pub struct TimelineEvent {
    /// The timestamp, as it stands in the line.
    pub timestamp: String,
    /// The text of the rule that kept the line.
    pub label: String,
    /// The position of the line.
    pub line_index: usize,
}

/// A timeline event as a mathematical value.
pub struct EventView {
    pub timestamp: Seq<char>,
    pub label: Seq<char>,
    pub line_index: int,
}

impl EventView {
    /// The event belongs to a line of `lines`, and its timestamp stands in
    /// that line.
    pub open spec fn stands_in(self, lines: Seq<Seq<char>>) -> bool {
        &&& 0 <= self.line_index < lines.len()
        &&& occurs_in(self.timestamp, lines[self.line_index])
    }
}

impl View for TimelineEvent {
    type V = EventView;

    open spec fn view(&self) -> EventView {
        EventView {
            timestamp: self.timestamp@,
            label: self.label@,
            line_index: self.line_index as int,
        }
    }
}

/// The outcome of evaluating a rule list on one line: which rule, if any,
/// decided the line, and the event that the line gives rise to.
#[derive(Clone, Debug, PartialEq, Eq)]
pub enum LineVerdict {
    /// No rule matched.
    Unmatched,
    /// The excluding rule at position `rule` matched first.
    Excluded { rule: usize },
    /// No excluding rule matched, and the keeping rule at position `rule`
    /// matched first.
    Included { rule: usize, event: Option<TimelineEvent> },
}

/// A verdict as a mathematical value.
pub enum VerdictView {
    Unmatched,
    Excluded { rule: int },
    Included { rule: int, event: Option<EventView> },
}

impl VerdictView {
    /// The tag of the line.
    pub open spec fn tag(self) -> TagView {
        match self {
            VerdictView::Unmatched => TagView::Unmatched,
            VerdictView::Excluded { .. } => TagView::Excluded,
            VerdictView::Included { rule, .. } => TagView::IncludeMatch(rule),
        }
    }

    /// The position of the rule that the line counts as a hit for.
    pub open spec fn attributed_to(self) -> Option<int> {
        match self {
            VerdictView::Unmatched => None,
            VerdictView::Excluded { rule } => Some(rule),
            VerdictView::Included { rule, .. } => Some(rule),
        }
    }

    /// The event of the line.
    pub open spec fn event(self) -> Option<EventView> {
        match self {
            VerdictView::Included { event, .. } => event,
            _ => None,
        }
    }

    /// The line is among the filtered lines: it was kept by a rule, or no
    /// rule touched it and the list has no keeping rule at all.
    pub open spec fn passes(self, has_includes: bool) -> bool {
        match self {
            VerdictView::Included { .. } => true,
            VerdictView::Unmatched => !has_includes,
            VerdictView::Excluded { .. } => false,
        }
    }

    /// The verdict names no rule at or beyond `rule_count`.
    pub open spec fn within(self, rule_count: int) -> bool {
        match self.attributed_to() {
            Some(rule) => 0 <= rule < rule_count,
            None => true,
        }
    }
}

impl View for LineVerdict {
    type V = VerdictView;

    open spec fn view(&self) -> VerdictView {
        match *self {
            LineVerdict::Unmatched => VerdictView::Unmatched,
            LineVerdict::Excluded { rule } => VerdictView::Excluded { rule: rule as int },
            LineVerdict::Included { rule, event } => VerdictView::Included {
                rule: rule as int,
                event: match event {
                    Some(event) => Some(event@),
                    None => None,
                },
            },
        }
    }
}

impl LineVerdict {
    /// The tag of the line.
    pub fn tag(&self) -> (tag: Tag)
        ensures
            tag@ == self@.tag(),
    {
        match self {
            LineVerdict::Unmatched => Tag::Unmatched,
            LineVerdict::Excluded { .. } => Tag::Excluded,
            LineVerdict::Included { rule, .. } => Tag::IncludeMatch(*rule),
        }
    }
}

/// The event that a line kept by `rule` gives rise to: one with the line's
/// timestamp and the rule's text, where the rule is an event rule and the
/// line has a timestamp.
pub open spec fn event_of(rule: RuleView, line: Seq<char>, line_index: int) -> Option<EventView> {
    if rule.is_event {
        match timestamp_in(line) {
            Some(timestamp) => Some(EventView { timestamp, label: rule.pattern, line_index }),
            None => None,
        }
    } else {
        None
    }
}

/// The verdict on one line. Excluding rules are tried first, in order, and
/// the first that matches decides; only where none matches are the keeping
/// rules tried, in order, and again the first that matches decides.
pub open spec fn line_verdict(
    rules: Seq<RuleView>,
    line: Seq<char>,
    line_index: int,
) -> VerdictView {
    match first_hit(rules, line, true, 0) {
        Some(rule) => VerdictView::Excluded { rule },
        None => match first_hit(rules, line, false, 0) {
            Some(rule) => VerdictView::Included {
                rule,
                event: event_of(rules[rule], line, line_index),
            },
            None => VerdictView::Unmatched,
        },
    }
}

} // verus!
