//! What holds of the engine's operations on every input.

use crate::engine::LogEngine;
use crate::filter::{aggregated, events_of, filter_outcome, hit_count, line_verdicts};
use crate::lines::{file_lines, is_line, lemma_lines_from_are_lines};
use crate::pattern::{pattern_is_valid, PatternError};
use crate::rules::{has_includes, lemma_first_hit_is_first, rule_hits, RuleView};
use crate::search::{is_search_result, query_hits};
use crate::select::{as_ints, lemma_selected_is_ascending_and_exact, selected};
use crate::valid_files::{has_one_line_feed, lemma_valid_lines_have_one_line_feed};
use crate::verdict::{line_verdict, TagView, VerdictView};
use vstd::prelude::*;
use vstd::utf8::valid_utf8;

verus! {

/// The sum of the values.
pub open spec fn sum(values: Seq<int>) -> int
    decreases values.len(),
{
    if values.len() == 0 {
        0
    } else {
        sum(values.drop_last()) + values.last()
    }
}

/// The number of tags that are not `Unmatched`.
pub open spec fn tagged_count(tags: Seq<TagView>) -> nat
    decreases tags.len(),
{
    if tags.len() == 0 {
        0
    } else if tags.last() is Unmatched {
        tagged_count(tags.drop_last())
    } else {
        tagged_count(tags.drop_last()) + 1
    }
}

/// Every line of a file ends with a line feed and holds no carriage
/// return, whatever ended it in the file.
pub proof fn lemma_every_line_is_terminated(bytes: Seq<u8>)
    ensures
        forall|k: int|
            0 <= k < file_lines(bytes).len() ==> is_line(#[trigger] file_lines(bytes)[k]),
{
    lemma_lines_from_are_lines(bytes, 0);
}

/// In a file that is valid UTF-8, every line ends with its only line feed.
pub proof fn lemma_valid_file_lines_have_one_line_feed(bytes: Seq<u8>)
    requires
        valid_utf8(bytes),
    ensures
        forall|k: int|
            0 <= k < file_lines(bytes).len() ==> has_one_line_feed(#[trigger] file_lines(bytes)[k]),
{
    assert(bytes.subrange(0, bytes.len() as int) =~= bytes);
    lemma_valid_lines_have_one_line_feed(bytes, 0);
}

/// Asking for the line just past the last one gives the empty text.
pub proof fn lemma_line_past_the_end_is_empty(engine: LogEngine)
    ensures
        engine.line_at(engine@.len() as int) == Seq::<char>::empty(),
{
}

/// A search is a function of the lines and the query: two searches with
/// the same arguments on the same lines both fail or both succeed, and
/// where they succeed they give the same positions, which are the positions
/// of the matching lines, each once, in strictly ascending order.
pub proof fn lemma_search_is_repeatable_and_ascending(
    lines: Seq<Seq<char>>,
    query: Seq<char>,
    is_pattern: bool,
    case_sensitive: bool,
    first: Result<Vec<usize>, PatternError>,
    second: Result<Vec<usize>, PatternError>,
)
    requires
        is_search_result(lines, query, is_pattern, case_sensitive, first),
        is_search_result(lines, query, is_pattern, case_sensitive, second),
    ensures
        first is Ok <==> second is Ok,
        first is Ok ==> first->Ok_0@ == second->Ok_0@,
        first matches Ok(positions) ==> {
            &&& forall|a: int, b: int| 0 <= a < b < positions.len() ==> positions[a] < positions[b]
            &&& forall|k: int|
                0 <= k < positions.len() ==> (#[trigger] positions[k]) < lines.len() && query_hits(
                    query,
                    is_pattern,
                    case_sensitive,
                    lines[positions[k] as int],
                )
            &&& forall|i: int|
                0 <= i < lines.len() && query_hits(query, is_pattern, case_sensitive, lines[i])
                    ==> exists|k: int| 0 <= k < positions.len() && #[trigger] positions[k] == i
        },
{
    let flags = lines.map_values(
        |line: Seq<char>| query_hits(query, is_pattern, case_sensitive, line),
    );
    lemma_selected_is_ascending_and_exact(flags);
    if first is Ok {
        let positions = first->Ok_0@;
        let again = second->Ok_0@;
        assert(as_ints(positions) == selected(flags));
        assert forall|k: int| 0 <= k < positions.len() implies positions[k] == again[k] by {
            assert(as_ints(positions)[k] == as_ints(again)[k]);
        }
        assert(as_ints(positions).len() == as_ints(again).len());
        assert(positions =~= again);
        assert forall|k: int| 0 <= k < positions.len() implies (#[trigger] positions[k])
            < lines.len() && query_hits(
            query,
            is_pattern,
            case_sensitive,
            lines[positions[k] as int],
        ) by {
            assert(as_ints(positions)[k] == positions[k] as int);
            assert(flags[selected(flags)[k]]);
        }
        assert forall|a: int, b: int| 0 <= a < b < positions.len() implies positions[a]
            < positions[b] by {
            assert(as_ints(positions)[a] == positions[a] as int);
            assert(as_ints(positions)[b] == positions[b] as int);
        }
        assert forall|i: int|
            0 <= i < lines.len() && query_hits(
                query,
                is_pattern,
                case_sensitive,
                lines[i],
            ) implies exists|k: int| 0 <= k < positions.len() && #[trigger] positions[k] == i by {
            assert(flags[i]);
            let k = choose|k: int| 0 <= k < selected(flags).len() && selected(flags)[k] == i;
            assert(as_ints(positions)[k] == positions[k] as int);
        }
    }
}

/// The verdict on a line names a rule of the list, if it names one.
pub proof fn lemma_verdict_is_within(rules: Seq<RuleView>, line: Seq<char>, line_index: int)
    ensures
        line_verdict(rules, line, line_index).within(rules.len() as int),
{
    lemma_first_hit_is_first(rules, line, true, 0);
    lemma_first_hit_is_first(rules, line, false, 0);
}

/// Raising one value by one raises the sum by one.
proof fn lemma_sum_of_raised(values: Seq<int>, raised: Seq<int>, at: int)
    requires
        0 <= at < values.len(),
        raised == values.update(at, values[at] + 1),
    ensures
        sum(raised) == sum(values) + 1,
    decreases values.len(),
{
    if at == values.len() - 1 {
        assert(raised.drop_last() =~= values.drop_last());
    } else {
        assert(raised.drop_last() =~= values.drop_last().update(at, values[at] + 1));
        lemma_sum_of_raised(values.drop_last(), raised.drop_last(), at);
    }
}

/// The hit counts of verdicts that stay within the rule list add up to the
/// number of verdicts that name a rule.
proof fn lemma_aggregated_hits_add_up(verdicts: Seq<VerdictView>, rule_count: int, keeps: bool)
    requires
        0 <= rule_count,
        forall|i: int| 0 <= i < verdicts.len() ==> (#[trigger] verdicts[i]).within(rule_count),
    ensures
        sum(aggregated(verdicts, rule_count, keeps).hit_counts) == tagged_count(
            aggregated(verdicts, rule_count, keeps).tags,
        ),
    decreases verdicts.len(),
{
    let whole = aggregated(verdicts, rule_count, keeps);
    if verdicts.len() == 0 {
        lemma_sum_of_zeros(whole.hit_counts);
    } else {
        let init = verdicts.drop_last();
        let part = aggregated(init, rule_count, keeps);
        assert forall|i: int| 0 <= i < init.len() implies (#[trigger] init[i]).within(
            rule_count,
        ) by {
            assert(init[i] == verdicts[i]);
        }
        lemma_aggregated_hits_add_up(init, rule_count, keeps);
        assert(whole.tags.drop_last() =~= part.tags);
        assert(verdicts[verdicts.len() - 1].within(rule_count));
        match verdicts.last().attributed_to() {
            Some(rule) => {
                let raised = part.hit_counts.update(rule, part.hit_counts[rule] + 1);
                assert(whole.hit_counts =~= raised);
                lemma_sum_of_raised(part.hit_counts, whole.hit_counts, rule);
            },
            None => {
                assert(whole.hit_counts =~= part.hit_counts);
            },
        }
    }
}

/// Zeros add up to zero.
proof fn lemma_sum_of_zeros(values: Seq<int>)
    requires
        forall|i: int| 0 <= i < values.len() ==> values[i] == 0,
    ensures
        sum(values) == 0,
    decreases values.len(),
{
    if values.len() > 0 {
        lemma_sum_of_zeros(values.drop_last());
    }
}

/// For every rule list, every line has a tag, every rule has a hit count,
/// and the hit counts add up to the number of lines whose tag is not
/// `Unmatched`.
pub proof fn lemma_hit_counts_add_up(lines: Seq<Seq<char>>, rules: Seq<RuleView>)
    ensures
        filter_outcome(lines, rules).tags.len() == lines.len(),
        filter_outcome(lines, rules).hit_counts.len() == rules.len(),
        sum(filter_outcome(lines, rules).hit_counts) == tagged_count(
            filter_outcome(lines, rules).tags,
        ),
{
    let verdicts = line_verdicts(lines, rules);
    assert forall|i: int| 0 <= i < verdicts.len() implies (#[trigger] verdicts[i]).within(
        rules.len() as int,
    ) by {
        lemma_verdict_is_within(rules, lines[i], i);
    }
    lemma_aggregated_hits_add_up(verdicts, rules.len() as int, has_includes(rules));
}

/// The filtered lines are exactly the lines that pass: those that a rule
/// kept, and, where the list has no keeping rule, those that no rule
/// touched. Their positions are listed each once, in strictly ascending
/// order.
pub proof fn lemma_filtered_lines_are_the_passing_lines(
    lines: Seq<Seq<char>>,
    rules: Seq<RuleView>,
)
    ensures
        ({
            let filtered = filter_outcome(lines, rules).filtered_indices;
            let keeps = has_includes(rules);
            &&& forall|a: int, b: int| 0 <= a < b < filtered.len() ==> filtered[a] < filtered[b]
            &&& forall|k: int|
                0 <= k < filtered.len() ==> {
                    let i = #[trigger] filtered[k];
                    0 <= i < lines.len() && line_verdict(rules, lines[i], i).passes(keeps)
                }
            &&& forall|i: int|
                0 <= i < lines.len() && line_verdict(rules, lines[i], i).passes(keeps)
                    ==> filtered.contains(i)
        }),
{
    let keeps = has_includes(rules);
    let verdicts = line_verdicts(lines, rules);
    let flags = verdicts.map_values(|verdict: VerdictView| verdict.passes(keeps));
    lemma_selected_is_ascending_and_exact(flags);
    assert forall|i: int|
        0 <= i < lines.len() && line_verdict(rules, lines[i], i).passes(keeps) implies selected(
        flags,
    ).contains(i) by {
        assert(flags[i]);
    }
}

/// Where the event of every verdict carries the position of the verdict,
/// the events carry positions of verdicts, in strictly ascending order.
proof fn lemma_events_ascend(verdicts: Seq<VerdictView>)
    requires
        forall|i: int|
            0 <= i < verdicts.len() ==> ((#[trigger] verdicts[i]).event() matches Some(event)
                ==> event.line_index == i),
    ensures
        forall|k: int|
            0 <= k < events_of(verdicts).len() ==> 0 <= (#[trigger] events_of(
                verdicts,
            )[k]).line_index < verdicts.len(),
        forall|a: int, b: int|
            0 <= a < b < events_of(verdicts).len() ==> events_of(verdicts)[a].line_index
                < events_of(verdicts)[b].line_index,
    decreases verdicts.len(),
{
    if verdicts.len() > 0 {
        let init = verdicts.drop_last();
        assert forall|i: int| 0 <= i < init.len() implies ((#[trigger] init[i]).event() matches Some(
            event,
        ) ==> event.line_index == i) by {
            assert(init[i] == verdicts[i]);
        }
        lemma_events_ascend(init);
        let events = events_of(verdicts);
        let last = verdicts[verdicts.len() - 1];
        assert(verdicts.last() == last);
        assert forall|k: int| 0 <= k < events.len() implies 0 <= (#[trigger] events[k]).line_index
            < verdicts.len() by {
            if k < events_of(init).len() {
                assert(events[k] == events_of(init)[k]);
            } else {
                assert(last.event() == Some(events[k]));
            }
        }
        assert forall|a: int, b: int| 0 <= a < b < events.len() implies events[a].line_index
            < events[b].line_index by {
            assert(events[a] == events_of(init)[a]);
            if b < events_of(init).len() {
                assert(events[b] == events_of(init)[b]);
            } else {
                assert(last.event() == Some(events[b]));
            }
        }
    }
}

/// The events come in line order: each carries the position of a line, and
/// the positions ascend strictly.
pub proof fn lemma_events_come_in_line_order(lines: Seq<Seq<char>>, rules: Seq<RuleView>)
    ensures
        ({
            let events = filter_outcome(lines, rules).timeline_events;
            &&& forall|k: int|
                0 <= k < events.len() ==> 0 <= (#[trigger] events[k]).line_index < lines.len()
            &&& forall|a: int, b: int|
                0 <= a < b < events.len() ==> events[a].line_index < events[b].line_index
        }),
{
    lemma_events_ascend(line_verdicts(lines, rules));
}

/// All flags set select every position.
proof fn lemma_selected_of_all(flags: Seq<bool>)
    requires
        forall|i: int| 0 <= i < flags.len() ==> flags[i],
    ensures
        selected(flags) == Seq::new(flags.len(), |i: int| i),
    decreases flags.len(),
{
    if flags.len() > 0 {
        lemma_selected_of_all(flags.drop_last());
        assert(selected(flags) =~= Seq::new(flags.len(), |i: int| i));
    } else {
        assert(selected(flags) =~= Seq::new(flags.len(), |i: int| i));
    }
}

/// No flag set selects no position.
proof fn lemma_selected_of_none(flags: Seq<bool>)
    requires
        forall|i: int| 0 <= i < flags.len() ==> !flags[i],
    ensures
        selected(flags) == Seq::<int>::empty(),
    decreases flags.len(),
{
    if flags.len() > 0 {
        lemma_selected_of_none(flags.drop_last());
    }
}

/// Verdicts without events give no events.
proof fn lemma_events_of_none(verdicts: Seq<VerdictView>)
    requires
        forall|i: int| 0 <= i < verdicts.len() ==> (#[trigger] verdicts[i]).event() is None,
    ensures
        events_of(verdicts) == Seq::<crate::verdict::EventView>::empty(),
    decreases verdicts.len(),
{
    if verdicts.len() > 0 {
        let init = verdicts.drop_last();
        assert forall|i: int| 0 <= i < init.len() implies (#[trigger] init[i]).event() is None by {
            assert(init[i] == verdicts[i]);
        }
        lemma_events_of_none(init);
        assert(verdicts[verdicts.len() - 1].event() is None);
    }
}

/// With the empty rule list every line is `Unmatched` and passes, no rule
/// has a hit count, and there are no events.
pub proof fn lemma_no_rules_pass_every_line(lines: Seq<Seq<char>>)
    ensures
        filter_outcome(lines, Seq::empty()).tags == Seq::new(
            lines.len(),
            |i: int| TagView::Unmatched,
        ),
        filter_outcome(lines, Seq::empty()).filtered_indices == Seq::new(lines.len(), |i: int| i),
        filter_outcome(lines, Seq::empty()).hit_counts == Seq::<int>::empty(),
        filter_outcome(lines, Seq::empty()).timeline_events == Seq::<
            crate::verdict::EventView,
        >::empty(),
{
    let rules = Seq::<RuleView>::empty();
    let verdicts = line_verdicts(lines, rules);
    let outcome = filter_outcome(lines, rules);
    assert(!has_includes(rules));
    assert forall|i: int| 0 <= i < verdicts.len() implies #[trigger] verdicts[i]
        == VerdictView::Unmatched by {}
    assert(outcome.tags =~= Seq::new(lines.len(), |i: int| TagView::Unmatched));
    lemma_selected_of_all(verdicts.map_values(|verdict: VerdictView| verdict.passes(false)));
    assert(outcome.hit_counts =~= Seq::<int>::empty());
    lemma_events_of_none(verdicts);
}

/// Where one excluding rule of the list matches every line, every line is
/// `Excluded` and no line passes.
pub proof fn lemma_excluding_every_line_passes_none(
    lines: Seq<Seq<char>>,
    rules: Seq<RuleView>,
    rule: int,
)
    requires
        0 <= rule < rules.len(),
        rules[rule].is_exclude,
        forall|i: int| 0 <= i < lines.len() ==> rule_hits(rules[rule], #[trigger] lines[i]),
    ensures
        filter_outcome(lines, rules).filtered_indices == Seq::<int>::empty(),
        filter_outcome(lines, rules).tags == Seq::new(lines.len(), |i: int| TagView::Excluded),
{
    let verdicts = line_verdicts(lines, rules);
    let keeps = has_includes(rules);
    assert forall|i: int| 0 <= i < verdicts.len() implies (#[trigger] verdicts[i]) is Excluded by {
        lemma_first_hit_is_first(rules, lines[i], true, 0);
        assert(rule_hits(rules[rule], lines[i]));
    }
    lemma_selected_of_none(verdicts.map_values(|verdict: VerdictView| verdict.passes(keeps)));
    assert(filter_outcome(lines, rules).tags =~= Seq::new(lines.len(), |i: int| TagView::Excluded));
}

/// Adding one verdict raises the hit count of the rule it names by one and
/// leaves every other hit count as it was.
pub proof fn lemma_hit_count_step(verdicts: Seq<VerdictView>, upto: int, rule: int)
    requires
        0 <= upto < verdicts.len(),
    ensures
        verdicts[upto].attributed_to() == Some(rule) ==> hit_count(verdicts.take(upto + 1), rule)
            == hit_count(verdicts.take(upto), rule) + 1,
        verdicts[upto].attributed_to() != Some(rule) ==> hit_count(verdicts.take(upto + 1), rule)
            == hit_count(verdicts.take(upto), rule),
{
    assert(verdicts.take(upto + 1).drop_last() =~= verdicts.take(upto));
}

/// The first match wins: where two keeping rules are the whole list and
/// both match a line, the line's tag names the earlier rule, and the line
/// raises the earlier rule's hit count and not the later one's.
pub proof fn lemma_first_match_wins(
    lines: Seq<Seq<char>>,
    earlier: RuleView,
    later: RuleView,
    line_index: int,
)
    requires
        !earlier.is_exclude,
        !later.is_exclude,
        0 <= line_index < lines.len(),
        rule_hits(earlier, lines[line_index]),
        rule_hits(later, lines[line_index]),
    ensures
        filter_outcome(lines, seq![earlier, later]).tags[line_index] == TagView::IncludeMatch(0),
        hit_count(line_verdicts(lines, seq![earlier, later]).take(line_index + 1), 0) == hit_count(
            line_verdicts(lines, seq![earlier, later]).take(line_index),
            0,
        ) + 1,
        hit_count(line_verdicts(lines, seq![earlier, later]).take(line_index + 1), 1) == hit_count(
            line_verdicts(lines, seq![earlier, later]).take(line_index),
            1,
        ),
{
    let rules = seq![earlier, later];
    let verdicts = line_verdicts(lines, rules);
    lemma_first_hit_is_first(rules, lines[line_index], true, 0);
    lemma_first_hit_is_first(rules, lines[line_index], false, 0);
    assert(rules[0] == earlier);
    assert(verdicts[line_index].attributed_to() == Some(0int));
    lemma_hit_count_step(verdicts, line_index, 0);
    lemma_hit_count_step(verdicts, line_index, 1);
}

/// Verdicts that never name a rule give that rule no hits.
proof fn lemma_hit_count_of_unnamed(verdicts: Seq<VerdictView>, rule: int)
    requires
        forall|i: int|
            0 <= i < verdicts.len() ==> (#[trigger] verdicts[i]).attributed_to() != Some(rule),
    ensures
        hit_count(verdicts, rule) == 0,
    decreases verdicts.len(),
{
    if verdicts.len() > 0 {
        let init = verdicts.drop_last();
        assert forall|i: int| 0 <= i < init.len() implies (#[trigger] init[i]).attributed_to()
            != Some(rule) by {
            assert(init[i] == verdicts[i]);
        }
        lemma_hit_count_of_unnamed(init, rule);
        assert(verdicts[verdicts.len() - 1].attributed_to() != Some(rule));
    }
}

/// A rule whose pattern does not compile is no error and matches nothing:
/// the outcome is complete, no line's verdict names the rule, and its hit
/// count is zero.
pub proof fn lemma_invalid_pattern_matches_nothing(
    lines: Seq<Seq<char>>,
    rules: Seq<RuleView>,
    rule: int,
)
    requires
        0 <= rule < rules.len(),
        rules[rule].is_pattern,
        !pattern_is_valid(rules[rule].pattern, false),
    ensures
        filter_outcome(lines, rules).tags.len() == lines.len(),
        filter_outcome(lines, rules).hit_counts.len() == rules.len(),
        filter_outcome(lines, rules).hit_counts[rule] == 0,
        forall|i: int|
            0 <= i < lines.len() ==> (#[trigger] line_verdicts(lines, rules)[i]).attributed_to()
                != Some(rule),
{
    let verdicts = line_verdicts(lines, rules);
    assert forall|i: int| 0 <= i < verdicts.len() implies (#[trigger] verdicts[i]).attributed_to()
        != Some(rule) by {
        lemma_first_hit_is_first(rules, lines[i], true, 0);
        lemma_first_hit_is_first(rules, lines[i], false, 0);
        assert(!rule_hits(rules[rule], lines[i]));
    }
    lemma_hit_count_of_unnamed(verdicts, rule);
}

} // verus!
