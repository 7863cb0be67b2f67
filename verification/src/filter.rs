//! The filter engine: a rule list is compiled once, every line gets its
//! verdict, and one ordered pass over the verdicts builds the outcome.

use crate::rules::{first_hit, has_includes, rule_views, CompiledRule, FilterRule, RuleView};
use crate::select::{as_ints, selected};
use crate::text::occurs_in;
use crate::timestamp::TimestampExtractor;
use crate::verdict::{
    line_verdict, EventView, LineVerdict, Tag, TagView, TimelineEvent, VerdictView,
};
use vstd::prelude::*;

verus! {

/// What a filter returns.
#[derive(Clone, Debug, PartialEq, Eq)]
pub struct FilterOutcome {
    /// The tag of every line, by line position.
    pub tags: Vec<Tag>,
    /// The positions of the lines that pass, ascending.
    pub filtered_indices: Vec<usize>,
    /// For every rule, by position in the rule list, the number of lines
    /// that it decided.
    pub hit_counts: Vec<usize>,
    /// The events, by ascending line position.
    pub timeline_events: Vec<TimelineEvent>,
}

/// A filter outcome as a mathematical value.
#[verifier::ext_equal]
pub struct OutcomeView {
    pub tags: Seq<TagView>,
    pub filtered_indices: Seq<int>,
    pub hit_counts: Seq<int>,
    pub timeline_events: Seq<EventView>,
}

impl OutcomeView {
    /// Every event belongs to a line of `lines`, and its timestamp stands
    /// in that line.
    pub open spec fn events_stand_in(self, lines: Seq<Seq<char>>) -> bool {
        forall|k: int|
            0 <= k < self.timeline_events.len() ==> (#[trigger] self.timeline_events[k]).stands_in(
                lines,
            )
    }
}

impl View for FilterOutcome {
    type V = OutcomeView;

    open spec fn view(&self) -> OutcomeView {
        OutcomeView {
            tags: self.tags@.map_values(|tag: Tag| tag@),
            filtered_indices: as_ints(self.filtered_indices@),
            hit_counts: as_ints(self.hit_counts@),
            timeline_events: self.timeline_events@.map_values(|event: TimelineEvent| event@),
        }
    }
}

impl FilterOutcome {
    /// The tags as small integers, by line position: 0 for an unmatched
    /// line, 1 for an excluded one, and 2 plus the rule's position for a
    /// kept one; or `None` where one of them does not fit the machine's
    /// index type.
    pub fn tag_codes(&self) -> (codes: Option<Vec<usize>>)
        ensures
            match codes {
                Some(codes) => as_ints(codes@) == self@.tags.map_values(|tag: TagView| tag.code()),
                None => exists|i: int|
                    0 <= i < self@.tags.len() && (#[trigger] self@.tags[i]).code() > usize::MAX,
            },
    {
        let mut codes: Vec<usize> = Vec::new();
        let mut i: usize = 0;
        while i < self.tags.len()
            invariant
                i <= self.tags.len(),
                as_ints(codes@) == self@.tags.take(i as int).map_values(|tag: TagView| tag.code()),
            decreases self.tags.len() - i,
        {
            match self.tags[i].checked_code() {
                Some(code) => {
                    proof {
                        let seen = self@.tags.take(i as int);
                        let next = self@.tags.take(i + 1);
                        assert(as_ints(codes@.push(code)) =~= as_ints(codes@).push(code as int));
                        assert(next.map_values(|tag: TagView| tag.code()) =~= seen.map_values(
                            |tag: TagView| tag.code(),
                        ).push(self@.tags[i as int].code()));
                    }
                    codes.push(code);
                },
                None => {
                    assert(self@.tags[i as int].code() > usize::MAX);
                    return None;
                },
            }
            i += 1;
        }
        proof {
            assert(self@.tags.take(self.tags.len() as int) =~= self@.tags);
        }
        Some(codes)
    }
}

/// The verdicts of a list as mathematical values, in the same order.
pub open spec fn verdict_views(verdicts: Seq<LineVerdict>) -> Seq<VerdictView> {
    verdicts.map_values(|verdict: LineVerdict| verdict@)
}

/// The number of verdicts that count as a hit for the rule at `rule`.
pub open spec fn hit_count(verdicts: Seq<VerdictView>, rule: int) -> nat
    decreases verdicts.len(),
{
    if verdicts.len() == 0 {
        0
    } else if verdicts.last().attributed_to() == Some(rule) {
        hit_count(verdicts.drop_last(), rule) + 1
    } else {
        hit_count(verdicts.drop_last(), rule)
    }
}

/// The events of the verdicts, in the order of the verdicts.
pub open spec fn events_of(verdicts: Seq<VerdictView>) -> Seq<EventView>
    decreases verdicts.len(),
{
    if verdicts.len() == 0 {
        Seq::empty()
    } else {
        match verdicts.last().event() {
            Some(event) => events_of(verdicts.drop_last()).push(event),
            None => events_of(verdicts.drop_last()),
        }
    }
}

/// The outcome that the verdicts of all lines, in line order, add up to.
pub open spec fn aggregated(
    verdicts: Seq<VerdictView>,
    rule_count: int,
    has_includes: bool,
) -> OutcomeView {
    OutcomeView {
        tags: verdicts.map_values(|verdict: VerdictView| verdict.tag()),
        filtered_indices: selected(
            verdicts.map_values(|verdict: VerdictView| verdict.passes(has_includes)),
        ),
        hit_counts: Seq::new(rule_count as nat, |rule: int| hit_count(verdicts, rule) as int),
        timeline_events: events_of(verdicts),
    }
}

/// The verdicts of `lines` under `rules`, by line position.
pub open spec fn line_verdicts(lines: Seq<Seq<char>>, rules: Seq<RuleView>) -> Seq<VerdictView> {
    Seq::new(lines.len(), |i: int| line_verdict(rules, lines[i], i))
}

/// The outcome of filtering `lines` by `rules`.
pub open spec fn filter_outcome(lines: Seq<Seq<char>>, rules: Seq<RuleView>) -> OutcomeView {
    aggregated(line_verdicts(lines, rules), rules.len() as int, has_includes(rules))
}

/// Every event of the verdicts is the event of one of them.
pub proof fn lemma_events_come_from_verdicts(verdicts: Seq<VerdictView>, k: int)
    requires
        0 <= k < events_of(verdicts).len(),
    ensures
        exists|i: int|
            0 <= i < verdicts.len() && (#[trigger] verdicts[i]).event() == Some(
                events_of(verdicts)[k],
            ),
    decreases verdicts.len(),
{
    if verdicts.len() > 0 {
        let init = verdicts.drop_last();
        if k < events_of(init).len() {
            lemma_events_come_from_verdicts(init, k);
            let i = choose|i: int|
                0 <= i < init.len() && (#[trigger] init[i]).event() == Some(events_of(init)[k]);
            assert(verdicts[i] == init[i]);
        } else {
            assert(verdicts[verdicts.len() - 1].event() == Some(events_of(verdicts)[k]));
        }
    }
}

/// No more verdicts count for a rule than there are verdicts.
pub proof fn lemma_hit_count_bound(verdicts: Seq<VerdictView>, rule: int)
    ensures
        hit_count(verdicts, rule) <= verdicts.len(),
    decreases verdicts.len(),
{
    if verdicts.len() > 0 {
        lemma_hit_count_bound(verdicts.drop_last(), rule);
    }
}

/// A rule list made ready for evaluation: every pattern compiled once.
pub struct RuleSet {
    rules: Vec<CompiledRule>,
    has_includes: bool,
    extractor: TimestampExtractor,
}

impl View for RuleSet {
    type V = Seq<RuleView>;

    /// The rules of the set, in the order in which they were given.
    closed spec fn view(&self) -> Seq<RuleView> {
        self.rules@.map_values(|rule: CompiledRule| rule@)
    }
}

impl RuleSet {
    #[verifier::type_invariant]
    spec fn knows_its_kinds(self) -> bool {
        self.has_includes == has_includes(self@)
    }

    /// Compiles the pattern of every pattern rule of the list. A pattern
    /// that does not compile is no error: its rule matches no line.
    pub fn compile(rules: &[FilterRule]) -> (set: RuleSet)
        ensures
            set@ == rule_views(rules@),
    {
        let mut ready: Vec<CompiledRule> = Vec::new();
        let mut keeps = false;
        let mut i: usize = 0;
        while i < rules.len()
            invariant
                i <= rules.len(),
                ready@.map_values(|rule: CompiledRule| rule@) == rule_views(rules@.take(i as int)),
                keeps == has_includes(rule_views(rules@.take(i as int))),
            decreases rules.len() - i,
        {
            let ghost before = rule_views(rules@.take(i as int));
            let ghost after = rule_views(rules@.take(i + 1));
            let rule = CompiledRule::compile(&rules[i]);
            proof {
                assert(after =~= before.push(rules[i as int]@));
                assert(ready@.push(rule).map_values(|rule: CompiledRule| rule@)
                    =~= ready@.map_values(|rule: CompiledRule| rule@).push(rule@));
                if has_includes(before) {
                    let k = choose|k: int| 0 <= k < before.len() && !before[k].is_exclude;
                    assert(!after[k].is_exclude);
                }
                if !rules[i as int].is_exclude {
                    assert(!after[i as int].is_exclude);
                }
                if has_includes(after) {
                    let k = choose|k: int| 0 <= k < after.len() && !after[k].is_exclude;
                    if k < i {
                        assert(!before[k].is_exclude);
                    }
                }
            }
            if !rules[i].is_exclude {
                keeps = true;
            }
            ready.push(rule);
            i += 1;
        }
        proof {
            assert(rules@.take(rules.len() as int) =~= rules@);
        }
        RuleSet { rules: ready, has_includes: keeps, extractor: TimestampExtractor::new() }
    }

    /// The number of rules.
    pub fn len(&self) -> (count: usize)
        ensures
            count == self@.len(),
    {
        self.rules.len()
    }

    /// Whether the set has a rule that keeps lines.
    pub fn has_includes(&self) -> (keeps: bool)
        ensures
            keeps == has_includes(self@),
    {
        proof {
            use_type_invariant(self);
        }
        self.has_includes
    }

    /// The position of the first rule of the asked kind that matches
    /// `line`. Rules after it are not tried.
    fn first_match(&self, line: &str, exclude: bool) -> (found: Option<usize>)
        ensures
            match found {
                Some(rule) => first_hit(self@, line@, exclude, 0) == Some(rule as int) && rule
                    < self@.len(),
                None => first_hit(self@, line@, exclude, 0) is None,
            },
    {
        let mut i: usize = 0;
        while i < self.rules.len()
            invariant
                i <= self.rules.len(),
                first_hit(self@, line@, exclude, 0) == first_hit(self@, line@, exclude, i as int),
            decreases self.rules.len() - i,
        {
            let rule = &self.rules[i];
            if rule.is_exclude() == exclude && rule.matches(line) {
                return Some(i);
            }
            i += 1;
        }
        None
    }

    /// The verdict on one line. It depends on the line and the rules alone,
    /// so lines can be evaluated independently of each other and in any
    /// order.
    pub fn evaluate_line(&self, line: &str, line_index: usize) -> (verdict: LineVerdict)
        ensures
            verdict@ == line_verdict(self@, line@, line_index as int),
            verdict@.within(self@.len() as int),
            verdict@.event() matches Some(event) ==> occurs_in(event.timestamp, line@),
    {
        match self.first_match(line, true) {
            Some(rule) => LineVerdict::Excluded { rule },
            None => match self.first_match(line, false) {
                Some(rule) => {
                    let decisive = &self.rules[rule];
                    let event = if decisive.is_event() {
                        match self.extractor.extract(line) {
                            Some(timestamp) => Some(
                                TimelineEvent {
                                    timestamp,
                                    label: decisive.pattern().to_owned(),
                                    line_index,
                                },
                            ),
                            None => None,
                        }
                    } else {
                        None
                    };
                    LineVerdict::Included { rule, event }
                },
                None => LineVerdict::Unmatched,
            },
        }
    }
}

/// Builds the outcome from the verdicts of all lines, given in line order,
/// in one pass. `rule_count` is the length of the rule list, which every
/// verdict has to stay within, and `has_includes` says whether the list has
/// a keeping rule.
pub fn aggregate(verdicts: Vec<LineVerdict>, rule_count: usize, has_includes: bool) -> (outcome:
    FilterOutcome)
    requires
        forall|i: int|
            0 <= i < verdicts.len() ==> (#[trigger] verdicts[i])@.within(rule_count as int),
    ensures
        outcome@ == aggregated(verdict_views(verdicts@), rule_count as int, has_includes),
{
    let ghost all = verdict_views(verdicts@);
    let mut tags: Vec<Tag> = Vec::new();
    let mut filtered_indices: Vec<usize> = Vec::new();
    let mut timeline_events: Vec<TimelineEvent> = Vec::new();
    let mut hit_counts: Vec<usize> = Vec::new();
    let mut rule: usize = 0;
    while rule < rule_count
        invariant
            rule <= rule_count,
            hit_counts.len() == rule,
            forall|r: int| 0 <= r < rule ==> hit_counts[r] == 0,
        decreases rule_count - rule,
    {
        hit_counts.push(0);
        rule += 1;
    }
    let line_count = verdicts.len();
    let mut line_index: usize = 0;
    for verdict in it: verdicts
        invariant
            it.seq() == verdicts@,
            line_count == verdicts.len(),
            all == verdict_views(verdicts@),
            line_index == it.index(),
            forall|i: int|
                0 <= i < verdicts.len() ==> (#[trigger] verdicts[i])@.within(rule_count as int),
            tags@.map_values(|tag: Tag| tag@) == all.take(line_index as int).map_values(
                |verdict: VerdictView| verdict.tag(),
            ),
            as_ints(filtered_indices@) == selected(
                all.take(line_index as int).map_values(
                    |verdict: VerdictView| verdict.passes(has_includes),
                ),
            ),
            hit_counts.len() == rule_count,
            forall|r: int|
                0 <= r < rule_count ==> #[trigger] hit_counts[r] == hit_count(
                    all.take(line_index as int),
                    r,
                ),
            timeline_events@.map_values(|event: TimelineEvent| event@) == events_of(
                all.take(line_index as int),
            ),
    {
        let ghost seen = all.take(line_index as int);
        let ghost next = all.take(line_index + 1);
        proof {
            assert(verdicts[line_index as int]@.within(rule_count as int));
            assert(next.drop_last() =~= seen);
            assert(next.last() == verdict@);
            assert(next.map_values(|verdict: VerdictView| verdict.tag()) =~= seen.map_values(
                |verdict: VerdictView| verdict.tag(),
            ).push(verdict@.tag()));
            assert(next.map_values(|verdict: VerdictView| verdict.passes(has_includes)).drop_last()
                =~= seen.map_values(|verdict: VerdictView| verdict.passes(has_includes)));
            assert forall|r: int| 0 <= r < rule_count implies hit_count(seen, r) <= line_index by {
                lemma_hit_count_bound(seen, r);
            }
        }
        let tag = verdict.tag();
        proof {
            assert(tags@.push(tag).map_values(|tag: Tag| tag@) =~= tags@.map_values(
                |tag: Tag| tag@,
            ).push(tag@));
        }
        tags.push(tag);
        match verdict {
            LineVerdict::Unmatched => {
                if !has_includes {
                    proof {
                        assert(as_ints(filtered_indices@.push(line_index)) =~= as_ints(
                            filtered_indices@,
                        ).push(line_index as int));
                    }
                    filtered_indices.push(line_index);
                }
            },
            LineVerdict::Excluded { rule } => {
                let count = hit_counts[rule];
                hit_counts.set(rule, count + 1);
            },
            LineVerdict::Included { rule, event } => {
                let count = hit_counts[rule];
                hit_counts.set(rule, count + 1);
                proof {
                    assert(as_ints(filtered_indices@.push(line_index)) =~= as_ints(
                        filtered_indices@,
                    ).push(line_index as int));
                }
                filtered_indices.push(line_index);
                match event {
                    Some(event) => {
                        proof {
                            assert(timeline_events@.push(event).map_values(
                                |event: TimelineEvent| event@,
                            ) =~= timeline_events@.map_values(|event: TimelineEvent| event@).push(
                                event@,
                            ));
                        }
                        timeline_events.push(event);
                    },
                    None => {},
                }
            },
        }
        line_index += 1;
    }
    proof {
        assert(all.take(line_count as int) =~= all);
    }
    let outcome = FilterOutcome { tags, filtered_indices, hit_counts, timeline_events };
    proof {
        let goal = aggregated(all, rule_count as int, has_includes);
        assert(outcome@.hit_counts =~= goal.hit_counts);
        assert(outcome@ =~= goal);
    }
    outcome
}

} // verus!
