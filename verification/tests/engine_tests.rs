use regex404::engine::Found;
use regex404::engine::Pattern;
use regex404::error::ProgError;

fn group(text: &str) -> Option<String> {
    Some(text.to_string())
}

#[test]
fn a_compiled_pattern_keeps_its_source_text() {
    let pattern = Pattern::compile(r"order-(?<id>\d+)").unwrap();
    assert_eq!(pattern.source(), r"order-(?<id>\d+)");
}

#[test]
fn the_groups_are_listed_in_the_order_of_their_opening_parentheses() {
    let pattern = Pattern::compile(r"(?<a>.(?<b>.))(.)(?:.)(?<c>.)").unwrap();
    assert_eq!(pattern.groups(), &vec![None, group("a"), group("b"), None, group("c")]);
}

#[test]
fn a_pattern_without_groups_has_the_whole_match_alone() {
    let pattern = Pattern::compile("abc").unwrap();
    assert_eq!(pattern.groups(), &vec![None]);
    let pattern = Pattern::compile("").unwrap();
    assert_eq!(pattern.groups(), &vec![None]);
}

#[test]
fn a_rejected_pattern_is_a_parse_failure_with_the_diagnostic() {
    match Pattern::compile("foo(bar") {
        Err(ProgError::ParseFailure(message)) => {
            assert!(message.contains("unclosed group"), "{message}");
        }
        other => panic!("{other:?}"),
    }
}

#[test]
fn parse_hands_back_the_diagnostic_itself() {
    let diagnostic = Pattern::parse("a{2,1}").unwrap_err();
    assert!(diagnostic.starts_with("Syntax("), "{diagnostic}");
    assert!(diagnostic.contains("a{2,1}"), "{diagnostic}");
    let pattern = Pattern::parse("a{1,2}").unwrap();
    assert_eq!(pattern.source(), "a{1,2}");
}

#[test]
fn a_pattern_that_grows_too_big_is_rejected() {
    match Pattern::compile(r"\w{1000}") {
        Err(ProgError::ParseFailure(message)) => {
            assert!(message.contains("CompiledTooBig"), "{message}");
        }
        other => panic!("{other:?}"),
    }
}

#[test]
fn the_first_match_is_the_leftmost() {
    let pattern = Pattern::compile(r"(?<id>\d+)").unwrap();
    let found = pattern.first_match("order-42 and order-43").unwrap();
    assert_eq!(found, Found { text: "42".to_string(), groups: vec![group("42"), group("42")] });
}

#[test]
fn a_group_that_took_no_part_has_no_value() {
    let pattern = Pattern::compile(r"(?<a>x)|(?<b>y)").unwrap();
    let found = pattern.first_match("--y--").unwrap();
    assert_eq!(found.text, "y");
    assert_eq!(found.groups, vec![group("y"), None, group("y")]);
}

#[test]
fn no_match_is_absent() {
    let pattern = Pattern::compile(r"(?<id>\d+)").unwrap();
    assert_eq!(pattern.first_match("no digits here"), None);
    assert_eq!(pattern.first_match(""), None);
}

#[test]
fn is_match_tests_the_whole_text() {
    let pattern = Pattern::compile(r"\.txt$").unwrap();
    assert!(pattern.is_match("notes/readme.txt"));
    assert!(!pattern.is_match("notes/readme.txt.bak"));
    assert!(!pattern.is_match(""));
}
