use log_engine::{
    aggregate, CompiledRule, FilterOutcome, FilterRule, LineVerdict, LogEngine, RuleSet, Tag,
    TimelineEvent,
};

fn rule(pattern: &str, is_pattern: bool, is_exclude: bool, is_event: bool) -> FilterRule {
    FilterRule { pattern: pattern.to_string(), is_pattern, is_exclude, is_event, original_index: 0 }
}

fn keep(pattern: &str) -> FilterRule {
    rule(pattern, false, false, false)
}

fn drop_lines(pattern: &str) -> FilterRule {
    rule(pattern, false, true, false)
}

fn sample() -> LogEngine {
    LogEngine::from_bytes(
        b"2024-01-02 03:04:05 ERROR boom\nINFO quiet\nDEBUG noise\n12:00:01 WARN slow ERROR too\nplain\n",
    )
}

fn events(outcome: &FilterOutcome) -> Vec<(String, String, usize)> {
    outcome
        .timeline_events
        .iter()
        .map(|event| (event.timestamp.clone(), event.label.clone(), event.line_index))
        .collect()
}

#[test]
fn tags_cover_every_line_and_hit_counts_add_up() {
    let engine = sample();
    let rules = vec![drop_lines("DEBUG"), keep("ERROR"), rule("^INFO", true, false, false), keep("WARN")];
    let outcome = engine.filter(&rules);
    assert_eq!(outcome.tags.len(), engine.line_count());
    assert_eq!(outcome.hit_counts.len(), rules.len());
    let tagged = outcome.tags.iter().filter(|tag| **tag != Tag::Unmatched).count();
    assert_eq!(outcome.hit_counts.iter().sum::<usize>(), tagged);
    assert_eq!(
        outcome.tags,
        vec![
            Tag::IncludeMatch(1),
            Tag::IncludeMatch(2),
            Tag::Excluded,
            Tag::IncludeMatch(1),
            Tag::Unmatched
        ]
    );
    assert_eq!(outcome.hit_counts, vec![1, 2, 1, 0]);
    assert_eq!(outcome.filtered_indices, vec![0, 1, 3]);
    assert!(outcome.timeline_events.is_empty());
}

#[test]
fn empty_rule_list_passes_every_line() {
    let engine = sample();
    let outcome = engine.filter(&[]);
    assert_eq!(outcome.tags, vec![Tag::Unmatched; 5]);
    assert_eq!(outcome.filtered_indices, vec![0, 1, 2, 3, 4]);
    assert!(outcome.hit_counts.is_empty());
    assert!(outcome.timeline_events.is_empty());
}

#[test]
fn one_excluding_rule_that_matches_every_line_passes_none() {
    let engine = sample();
    let outcome = engine.filter(&[drop_lines("\n")]);
    assert_eq!(outcome.filtered_indices, Vec::<usize>::new());
    assert_eq!(outcome.tags, vec![Tag::Excluded; 5]);
    assert_eq!(outcome.hit_counts, vec![5]);
}

#[test]
fn event_rule_gives_one_event() {
    let engine = LogEngine::from_bytes(b"2024-01-02 03:04:05 ERROR boom");
    let rules = vec![rule("ERROR", false, false, true)];
    let outcome = engine.filter(&rules);
    assert_eq!(outcome.timeline_events.len(), 1);
    let event = &outcome.timeline_events[0];
    assert_eq!(event.timestamp, "2024-01-02 03:04:05");
    assert_eq!(event.label, rules[0].pattern);
    assert_eq!(event.line_index, 0);
    assert_eq!(outcome.tags, vec![Tag::IncludeMatch(0)]);
    assert_eq!(outcome.filtered_indices, vec![0]);
    assert_eq!(outcome.hit_counts, vec![1]);
}

#[test]
fn first_match_wins() {
    let engine = LogEngine::from_bytes(b"alpha beta\n");
    let outcome = engine.filter(&[keep("alpha"), keep("beta")]);
    assert_eq!(outcome.tags, vec![Tag::IncludeMatch(0)]);
    assert_eq!(outcome.hit_counts, vec![1, 0]);
    let swapped = engine.filter(&[keep("beta"), keep("alpha")]);
    assert_eq!(swapped.tags, vec![Tag::IncludeMatch(0)]);
    assert_eq!(swapped.hit_counts, vec![1, 0]);
}

#[test]
fn invalid_pattern_in_a_rule_matches_nothing() {
    let engine = sample();
    let rules = vec![rule("(", true, true, false), rule("[", true, false, true), keep("INFO")];
    let outcome = engine.filter(&rules);
    assert_eq!(outcome.tags.len(), 5);
    assert_eq!(outcome.hit_counts, vec![0, 0, 1]);
    assert_eq!(
        outcome.tags,
        vec![Tag::Unmatched, Tag::IncludeMatch(2), Tag::Unmatched, Tag::Unmatched, Tag::Unmatched]
    );
    assert_eq!(outcome.filtered_indices, vec![1]);
    assert!(outcome.timeline_events.is_empty());
}

#[test]
fn invalid_keeping_rule_still_counts_as_a_keeping_rule() {
    let engine = sample();
    let outcome = engine.filter(&[rule("(", true, false, false)]);
    assert_eq!(outcome.tags, vec![Tag::Unmatched; 5]);
    assert_eq!(outcome.filtered_indices, Vec::<usize>::new());
    assert_eq!(outcome.hit_counts, vec![0]);
}

#[test]
fn only_excluding_rules_pass_untouched_lines() {
    let engine = sample();
    let outcome = engine.filter(&[drop_lines("DEBUG"), drop_lines("plain")]);
    assert_eq!(
        outcome.tags,
        vec![Tag::Unmatched, Tag::Unmatched, Tag::Excluded, Tag::Unmatched, Tag::Excluded]
    );
    assert_eq!(outcome.filtered_indices, vec![0, 1, 3]);
    assert_eq!(outcome.hit_counts, vec![1, 1]);
}

#[test]
fn with_a_keeping_rule_untouched_lines_are_dropped() {
    let engine = sample();
    let outcome = engine.filter(&[keep("INFO")]);
    assert_eq!(outcome.filtered_indices, vec![1]);
    assert_eq!(outcome.hit_counts, vec![1]);
}

#[test]
fn excluding_rules_are_tried_before_keeping_rules() {
    let engine = sample();
    let outcome = engine.filter(&[rule("ERROR", false, false, true), drop_lines("boom")]);
    assert_eq!(
        outcome.tags,
        vec![Tag::Excluded, Tag::Unmatched, Tag::Unmatched, Tag::IncludeMatch(0), Tag::Unmatched]
    );
    assert_eq!(outcome.hit_counts, vec![1, 1]);
    assert_eq!(outcome.filtered_indices, vec![3]);
    assert_eq!(events(&outcome), vec![("12:00:01".to_string(), "ERROR".to_string(), 3)]);
}

#[test]
fn first_excluding_rule_gets_the_hit() {
    let engine = LogEngine::from_bytes(b"alpha beta\n");
    let outcome = engine.filter(&[drop_lines("beta"), drop_lines("alpha")]);
    assert_eq!(outcome.tags, vec![Tag::Excluded]);
    assert_eq!(outcome.hit_counts, vec![1, 0]);
}

#[test]
fn events_come_in_line_order_and_only_with_a_timestamp() {
    let engine = sample();
    let rules = vec![rule("WARN", false, false, true), rule(".", true, false, true)];
    let outcome = engine.filter(&rules);
    assert_eq!(
        events(&outcome),
        vec![
            ("2024-01-02 03:04:05".to_string(), ".".to_string(), 0),
            ("12:00:01".to_string(), "WARN".to_string(), 3),
        ]
    );
    assert_eq!(outcome.filtered_indices, vec![0, 1, 2, 3, 4]);
    assert_eq!(outcome.hit_counts, vec![1, 4]);
}

#[test]
fn rule_without_the_event_flag_gives_no_event() {
    let engine = sample();
    let outcome = engine.filter(&[keep("ERROR")]);
    assert!(outcome.timeline_events.is_empty());
    assert_eq!(outcome.filtered_indices, vec![0, 3]);
}

#[test]
fn pattern_rules_are_case_sensitive() {
    let engine = sample();
    let outcome = engine.filter(&[rule("error", true, false, false)]);
    assert_eq!(outcome.filtered_indices, Vec::<usize>::new());
    let outcome = engine.filter(&[rule("(?i)error", true, false, false)]);
    assert_eq!(outcome.filtered_indices, vec![0, 3]);
}

#[test]
fn plain_rules_take_meta_characters_literally() {
    let engine = LogEngine::from_bytes(b"a.b\naXb\n");
    assert_eq!(engine.filter(&[keep("a.b")]).filtered_indices, vec![0]);
    assert_eq!(engine.filter(&[rule("a.b", true, false, false)]).filtered_indices, vec![0, 1]);
}

#[test]
fn original_index_plays_no_part() {
    let engine = sample();
    let mut first = keep("ERROR");
    first.original_index = 42;
    let mut second = keep("INFO");
    second.original_index = 7;
    let outcome = engine.filter(&[first, second]);
    assert_eq!(
        outcome.tags,
        vec![
            Tag::IncludeMatch(0),
            Tag::IncludeMatch(1),
            Tag::Unmatched,
            Tag::IncludeMatch(0),
            Tag::Unmatched
        ]
    );
    assert_eq!(outcome.hit_counts, vec![2, 1]);
}

#[test]
fn filter_is_repeatable() {
    let engine = sample();
    let rules = vec![drop_lines("DEBUG"), rule("ERROR", false, false, true)];
    let first = engine.filter(&rules);
    let second = engine.filter(&rules);
    assert_eq!(first.tags, second.tags);
    assert_eq!(first.filtered_indices, second.filtered_indices);
    assert_eq!(first.hit_counts, second.hit_counts);
    assert_eq!(events(&first), events(&second));
}

#[test]
fn filter_of_no_lines() {
    let engine = LogEngine::from_bytes(b"");
    let outcome = engine.filter(&[keep("x"), drop_lines("y")]);
    assert!(outcome.tags.is_empty());
    assert!(outcome.filtered_indices.is_empty());
    assert_eq!(outcome.hit_counts, vec![0, 0]);
    assert!(outcome.timeline_events.is_empty());
}

#[test]
fn filter_keeps_line_order_over_many_lines() {
    let mut data = Vec::new();
    for i in 0..3000 {
        data.extend_from_slice(format!("10:00:{:02} item {}\n", i % 60, i).as_bytes());
    }
    let engine = LogEngine::from_bytes(&data);
    let outcome = engine.filter(&[rule("item \\d*0\n", true, true, false), rule("5\n", false, false, true)]);
    let expected: Vec<usize> = (0..3000).filter(|i| i % 10 == 5).collect();
    assert_eq!(outcome.filtered_indices, expected);
    assert_eq!(outcome.hit_counts, vec![300, 300]);
    assert_eq!(outcome.timeline_events.len(), 300);
    let positions: Vec<usize> = outcome.timeline_events.iter().map(|event| event.line_index).collect();
    assert_eq!(positions, expected);
    assert_eq!(outcome.timeline_events[1].timestamp, "10:00:15");
}

#[test]
fn more_rules_than_a_byte_can_count() {
    let engine = LogEngine::from_bytes(b"needle\n");
    let mut rules: Vec<FilterRule> = (0..300).map(|i| keep(&format!("absent{}", i))).collect();
    rules.push(keep("needle"));
    let outcome = engine.filter(&rules);
    assert_eq!(outcome.tags, vec![Tag::IncludeMatch(300)]);
    assert_eq!(outcome.tags[0].code(), 302);
    assert_eq!(outcome.filtered_indices, vec![0]);
    assert_eq!(outcome.hit_counts[300], 1);
    assert_eq!(outcome.hit_counts.iter().sum::<usize>(), 1);
}

#[test]
fn tag_codes() {
    assert_eq!(Tag::Unmatched.code(), 0);
    assert_eq!(Tag::Excluded.code(), 1);
    assert_eq!(Tag::IncludeMatch(0).code(), 2);
    assert_eq!(Tag::IncludeMatch(5).code(), 7);
}

#[test]
fn verdict_tags() {
    assert_eq!(LineVerdict::Unmatched.tag(), Tag::Unmatched);
    assert_eq!(LineVerdict::Excluded { rule: 3 }.tag(), Tag::Excluded);
    assert_eq!(LineVerdict::Included { rule: 3, event: None }.tag(), Tag::IncludeMatch(3));
}

#[test]
fn aggregate_builds_the_outcome_in_one_pass() {
    let verdicts = vec![
        LineVerdict::Included { rule: 1, event: None },
        LineVerdict::Unmatched,
        LineVerdict::Excluded { rule: 0 },
        LineVerdict::Included {
            rule: 2,
            event: Some(TimelineEvent {
                timestamp: "01:02:03".to_string(),
                label: "x".to_string(),
                line_index: 3,
            }),
        },
        LineVerdict::Included { rule: 1, event: None },
    ];
    let outcome = aggregate(verdicts, 4, true);
    assert_eq!(
        outcome.tags,
        vec![
            Tag::IncludeMatch(1),
            Tag::Unmatched,
            Tag::Excluded,
            Tag::IncludeMatch(2),
            Tag::IncludeMatch(1)
        ]
    );
    assert_eq!(outcome.filtered_indices, vec![0, 3, 4]);
    assert_eq!(outcome.hit_counts, vec![1, 2, 1, 0]);
    assert_eq!(events(&outcome), vec![("01:02:03".to_string(), "x".to_string(), 3)]);
}

#[test]
fn aggregate_passes_unmatched_lines_without_keeping_rules() {
    let verdicts =
        vec![LineVerdict::Unmatched, LineVerdict::Excluded { rule: 0 }, LineVerdict::Unmatched];
    let outcome = aggregate(verdicts, 1, false);
    assert_eq!(outcome.filtered_indices, vec![0, 2]);
    assert_eq!(outcome.hit_counts, vec![1]);
    let outcome = aggregate(Vec::new(), 2, false);
    assert!(outcome.tags.is_empty());
    assert_eq!(outcome.hit_counts, vec![0, 0]);
}

#[test]
fn rule_set_evaluates_single_lines() {
    let rules = vec![drop_lines("DEBUG"), rule("ERROR", false, false, true), keep("INFO")];
    let set = RuleSet::compile(&rules);
    assert_eq!(set.len(), 3);
    assert!(set.has_includes());
    assert_eq!(set.evaluate_line("DEBUG ERROR\n", 0).tag(), Tag::Excluded);
    assert_eq!(set.evaluate_line("INFO ERROR\n", 1).tag(), Tag::IncludeMatch(1));
    assert_eq!(set.evaluate_line("INFO\n", 2).tag(), Tag::IncludeMatch(2));
    assert_eq!(set.evaluate_line("other\n", 3).tag(), Tag::Unmatched);
    match set.evaluate_line("at 09:08:07 ERROR\n", 9) {
        LineVerdict::Included { rule: 1, event: Some(event) } => {
            assert_eq!(event.timestamp, "09:08:07");
            assert_eq!(event.label, "ERROR");
            assert_eq!(event.line_index, 9);
        }
        other => panic!("unexpected verdict {:?}", other),
    }
    match set.evaluate_line("ERROR without a time\n", 4) {
        LineVerdict::Included { rule: 1, event: None } => {}
        other => panic!("unexpected verdict {:?}", other),
    }
    let only_drops = RuleSet::compile(&[drop_lines("x")]);
    assert!(!only_drops.has_includes());
    assert!(!RuleSet::compile(&[]).has_includes());
}

#[test]
fn compiled_rule_matches() {
    let plain = CompiledRule::compile(&keep("a+"));
    assert!(plain.matches("xa+y"));
    assert!(!plain.matches("xaay"));
    assert_eq!(plain.pattern(), "a+");
    assert!(!plain.is_exclude());
    assert!(!plain.is_event());
    let pattern = CompiledRule::compile(&rule("a+", true, true, true));
    assert!(pattern.matches("xaay"));
    assert!(!pattern.matches("xy"));
    assert!(pattern.is_exclude());
    assert!(pattern.is_event());
    let broken = CompiledRule::compile(&rule("a(", true, false, false));
    assert!(!broken.matches("a("));
}

#[test]
fn checked_tag_codes() {
    assert_eq!(Tag::Unmatched.checked_code(), Some(0));
    assert_eq!(Tag::Excluded.checked_code(), Some(1));
    assert_eq!(Tag::IncludeMatch(40).checked_code(), Some(42));
    assert_eq!(Tag::IncludeMatch(usize::MAX - 2).checked_code(), Some(usize::MAX));
    assert_eq!(Tag::IncludeMatch(usize::MAX - 1).checked_code(), None);
    assert_eq!(Tag::IncludeMatch(usize::MAX).checked_code(), None);
}

#[test]
fn outcome_gives_its_tags_as_codes() {
    let engine = sample();
    let outcome = engine.filter(&[drop_lines("DEBUG"), keep("ERROR"), keep("INFO")]);
    assert_eq!(outcome.tag_codes(), Some(vec![3, 4, 1, 3, 0]));
    assert_eq!(engine.filter(&[]).tag_codes(), Some(vec![0, 0, 0, 0, 0]));
    let odd = FilterOutcome {
        tags: vec![Tag::Excluded, Tag::IncludeMatch(usize::MAX - 1)],
        filtered_indices: vec![1],
        hit_counts: Vec::new(),
        timeline_events: Vec::new(),
    };
    assert_eq!(odd.tag_codes(), None);
}
