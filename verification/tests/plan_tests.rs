use regex404::error::ProgError;
use regex404::plan::assemble;
use regex404::plan::Job;
use regex404::plan::MatcherVerdict;
use regex404::plan::PatternVerdict;
use regex404::plan::ScanPlan;
use regex404::plan::SelectorVerdict;

fn accepted(source: &str) -> PatternVerdict {
    PatternVerdict { source: source.to_string(), rejected: None }
}

fn rejected(source: &str, diagnostic: &str) -> PatternVerdict {
    PatternVerdict { source: source.to_string(), rejected: Some(diagnostic.to_string()) }
}

fn selecting(paths: &[&str]) -> SelectorVerdict {
    SelectorVerdict { rejected: None, selected: paths.iter().map(|p| p.to_string()).collect() }
}

fn broken(diagnostic: &str) -> SelectorVerdict {
    SelectorVerdict { rejected: Some(diagnostic.to_string()), selected: vec![] }
}

fn verdict(selectors: Vec<SelectorVerdict>, patterns: Vec<PatternVerdict>) -> MatcherVerdict {
    MatcherVerdict { selectors, patterns }
}

fn planned(path: &str, pattern: &str) -> Job {
    Job { path: path.to_string(), pattern: pattern.to_string() }
}

fn defect(message: &str) -> Option<ProgError> {
    Some(ProgError::ParseFailure(message.to_string()))
}

#[test]
fn no_verdicts_give_the_empty_plan() {
    assert_eq!(assemble(&vec![]), ScanPlan { jobs: vec![], failure: None });
    let idle = MatcherVerdict { selectors: vec![], patterns: vec![accepted("p")] };
    assert_eq!(assemble(&vec![idle]), ScanPlan { jobs: vec![], failure: None });
    let aimless = MatcherVerdict { selectors: vec![selecting(&["a"])], patterns: vec![] };
    assert_eq!(assemble(&vec![aimless]), ScanPlan { jobs: vec![], failure: None });
}

#[test]
fn every_selected_path_gets_every_pattern_in_order() {
    let first = MatcherVerdict {
        selectors: vec![selecting(&["a", "b"]), selecting(&[]), selecting(&["b"])],
        patterns: vec![accepted("p"), accepted("q")],
    };
    let second = verdict(vec![selecting(&["c"])], vec![accepted("r")]);
    let plan = assemble(&vec![first, second]);
    assert_eq!(plan.failure, None);
    assert_eq!(
        plan.jobs,
        vec![
            planned("a", "p"),
            planned("a", "q"),
            planned("b", "p"),
            planned("b", "q"),
            planned("b", "p"),
            planned("b", "q"),
            planned("c", "r"),
        ]
    );
}

#[test]
fn a_rejected_selector_ends_the_plan() {
    let first = MatcherVerdict {
        selectors: vec![selecting(&["a"]), broken("no good"), selecting(&["b"])],
        patterns: vec![accepted("p")],
    };
    let second = verdict(vec![selecting(&["c"])], vec![accepted("r")]);
    let plan = assemble(&vec![first, second]);
    assert_eq!(plan.jobs, vec![planned("a", "p")]);
    assert_eq!(plan.failure, defect("Failed to parse file pattern regex: no good"));
}

#[test]
fn a_rejected_selector_is_a_defect_even_where_it_lists_paths() {
    let odd = SelectorVerdict {
        rejected: Some("no good".to_string()),
        selected: vec!["a".to_string()],
    };
    let plan = assemble(&vec![verdict(vec![odd], vec![accepted("p")])]);
    assert_eq!(plan.jobs, vec![]);
    assert_eq!(plan.failure, defect("Failed to parse file pattern regex: no good"));
}

#[test]
fn a_rejected_pattern_ends_the_plan_on_the_first_selected_path() {
    let only = MatcherVerdict {
        selectors: vec![selecting(&[]), selecting(&["a", "b"])],
        patterns: vec![accepted("p"), rejected("(", "unclosed"), accepted("q")],
    };
    let plan = assemble(&vec![only]);
    assert_eq!(plan.jobs, vec![planned("a", "p")]);
    assert_eq!(plan.failure, defect("Failed to parse regex: unclosed"));
}

#[test]
fn a_rejected_pattern_is_no_defect_where_nothing_is_selected() {
    let only = MatcherVerdict {
        selectors: vec![selecting(&[]), selecting(&[])],
        patterns: vec![rejected("(", "unclosed")],
    };
    assert_eq!(assemble(&vec![only]), ScanPlan { jobs: vec![], failure: None });
}

#[test]
fn nothing_is_planned_behind_a_defect() {
    let first = MatcherVerdict { selectors: vec![broken("first")], patterns: vec![] };
    let second = MatcherVerdict { selectors: vec![broken("second")], patterns: vec![] };
    let third = verdict(vec![selecting(&["a"])], vec![accepted("p")]);
    let plan = assemble(&vec![first, second, third]);
    assert_eq!(plan.jobs, vec![]);
    assert_eq!(plan.failure, defect("Failed to parse file pattern regex: first"));
}
