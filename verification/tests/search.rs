use log_engine::{positions_of, LogEngine, Query};

fn sample() -> LogEngine {
    LogEngine::from_bytes(
        b"INFO start\nerror: disk full\nWARN a.b\nERROR again\ninfo aXb\nError \xc3\x89t\xc3\xa9\n",
    )
}

#[test]
fn search_is_repeatable_and_ascending() {
    let engine = sample();
    let first = engine.search("error", false, false).unwrap();
    let second = engine.search("error", false, false).unwrap();
    assert_eq!(first, second);
    assert_eq!(first, vec![1, 3, 5]);
    assert!(first.windows(2).all(|pair| pair[0] < pair[1]));
}

#[test]
fn plain_search_with_case() {
    let engine = sample();
    assert_eq!(engine.search("error", false, true).unwrap(), vec![1]);
    assert_eq!(engine.search("ERROR", false, true).unwrap(), vec![3]);
    assert_eq!(engine.search("Error", false, true).unwrap(), vec![5]);
    assert_eq!(engine.search("absent", false, true).unwrap(), Vec::<usize>::new());
}

#[test]
fn plain_search_without_case() {
    let engine = sample();
    assert_eq!(engine.search("info", false, false).unwrap(), vec![0, 4]);
    assert_eq!(engine.search("\u{e9}T\u{c9}", false, false).unwrap(), vec![5]);
}

#[test]
fn plain_search_takes_meta_characters_literally() {
    let engine = sample();
    assert_eq!(engine.search("A.B", false, false).unwrap(), vec![2]);
    assert_eq!(engine.search("a.b", false, true).unwrap(), vec![2]);
    assert_eq!(engine.search("(", false, false).unwrap(), Vec::<usize>::new());
    assert_eq!(engine.search("[", false, true).unwrap(), Vec::<usize>::new());
}

#[test]
fn pattern_search() {
    let engine = sample();
    assert_eq!(engine.search("a.b", true, true).unwrap(), vec![2, 4]);
    assert_eq!(engine.search("^(INFO|WARN)", true, true).unwrap(), vec![0, 2]);
    assert_eq!(engine.search("^(INFO|WARN)", true, false).unwrap(), vec![0, 2, 4]);
    assert_eq!(engine.search("error", true, false).unwrap(), vec![1, 3, 5]);
    assert_eq!(engine.search("error", true, true).unwrap(), vec![1]);
}

#[test]
fn pattern_matches_the_line_feed_of_a_line() {
    let engine = sample();
    assert_eq!(engine.search("full\n", true, true).unwrap(), vec![1]);
    assert_eq!(engine.search("\n", false, true).unwrap(), vec![0, 1, 2, 3, 4, 5]);
}

#[test]
fn empty_query_matches_every_line() {
    let engine = sample();
    assert_eq!(engine.search("", false, true).unwrap(), vec![0, 1, 2, 3, 4, 5]);
    assert_eq!(engine.search("", false, false).unwrap(), vec![0, 1, 2, 3, 4, 5]);
    assert_eq!(engine.search("", true, true).unwrap(), vec![0, 1, 2, 3, 4, 5]);
}

#[test]
fn invalid_pattern_is_an_error() {
    let engine = sample();
    let refused = engine.search("foo(bar", true, true);
    assert!(refused.is_err());
    assert!(!refused.unwrap_err().message().is_empty());
    assert!(engine.search("[", true, false).is_err());
    assert!(engine.search("foo(bar", false, true).is_ok());
    assert!(engine.search("foo(bar", false, false).is_ok());
}

#[test]
fn search_of_no_lines_finds_nothing() {
    let engine = LogEngine::from_bytes(b"");
    assert_eq!(engine.search("x", false, true).unwrap(), Vec::<usize>::new());
    assert!(engine.search("(", true, true).is_err());
}

#[test]
fn search_keeps_line_order_over_many_lines() {
    let mut data = Vec::new();
    for i in 0..5000 {
        data.extend_from_slice(format!("entry {}\n", i).as_bytes());
    }
    let engine = LogEngine::from_bytes(&data);
    let found = engine.search("7\n", true, true).unwrap();
    let expected: Vec<usize> = (0..5000).filter(|i| i % 10 == 7).collect();
    assert_eq!(found, expected);
}

#[test]
fn prepared_query_matches_single_lines() {
    let plain = Query::prepare("a.b", false, true).unwrap();
    assert!(plain.matches("xa.by"));
    assert!(!plain.matches("xaXby"));
    assert!(!plain.matches("A.B"));
    let folded = Query::prepare("a.b", false, false).unwrap();
    assert!(folded.matches("xA.By"));
    assert!(!folded.matches("xaXby"));
    let pattern = Query::prepare("a.b", true, false).unwrap();
    assert!(pattern.matches("xAXby"));
    assert!(Query::prepare("a(", true, false).is_err());
}

#[test]
fn positions_of_lists_the_set_flags() {
    assert_eq!(positions_of(&vec![]), Vec::<usize>::new());
    assert_eq!(positions_of(&vec![false, false]), Vec::<usize>::new());
    assert_eq!(positions_of(&vec![true, false, true, true, false]), vec![0, 2, 3]);
}

#[test]
fn error_carries_the_description_of_the_crate() {
    let engine = sample();
    let refused = engine.search("foo(bar", true, true).unwrap_err();
    let expected = regex::Regex::new("foo(bar").unwrap_err().to_string();
    assert_eq!(refused.message, expected);
    assert_eq!(refused.message(), expected);
}
