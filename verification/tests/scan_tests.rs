use regex404::error::ProgError;
use regex404::pipeline::Analysis;
use regex404::plan::Job;
use regex404::plan::MatcherVerdict;
use regex404::plan::PatternVerdict;
use regex404::plan::ScanPlan;
use regex404::plan::SelectorVerdict;
use regex404::scan::consult;
use regex404::scan::plan_scan;
use regex404::scan::renovate;
use regex404::scan::run_job;
use regex404::scan::CustomMatcher;
use regex404::scan::JobOutcome;
use regex404::select::path_selected;
use regex404::select::strip_selector;

fn texts(items: &[&str]) -> Vec<String> {
    items.iter().map(|item| item.to_string()).collect()
}

fn matcher(kind: &str, selectors: &[&str], patterns: &[&str]) -> CustomMatcher {
    CustomMatcher {
        kind: kind.to_string(),
        file_selectors: texts(selectors),
        match_patterns: texts(patterns),
    }
}

fn jobs(plan: &ScanPlan) -> Vec<Job> {
    plan.jobs.clone()
}

fn job(path: &str, pattern: &str) -> Job {
    Job { path: path.to_string(), pattern: pattern.to_string() }
}

#[test]
fn a_selector_anchored_at_src_selects_only_what_lies_under_src() {
    let selector = strip_selector(r"/^src\//");
    assert!(path_selected(selector, "./src/main.txt"));
    assert!(!path_selected(selector, "./docs/readme.txt"));
    let matchers = vec![matcher("regex", &[r"/^src\//"], &["x"])];
    let plan = plan_scan(&matchers, &texts(&["./src/main.txt", "./docs/readme.txt"]));
    assert_eq!(jobs(&plan), vec![job("./src/main.txt", "x")]);
    assert_eq!(plan.failure, None);
}

#[test]
fn one_matcher_over_a_directory_with_one_matching_file() {
    let matchers = vec![matcher("regex", &[r"/\.txt$/"], &[r"version: (?<v>[\d.]+)"])];
    let listed = texts(&[".", "./notes.txt", "./main.rs", "./docs", "./docs/readme.md"]);
    let plan = plan_scan(&matchers, &listed);
    assert_eq!(plan.failure, None);
    assert_eq!(jobs(&plan), vec![job("./notes.txt", r"version: (?<v>[\d.]+)")]);
    let mut lines: Vec<String> = Vec::new();
    for job in &plan.jobs {
        let content = if job.path == "./notes.txt" { "version: 1.2.3" } else { "fn main() {}" };
        if let JobOutcome::Done(Analysis::Report(report)) = run_job(job, Ok(content), false) {
            lines.extend(report.rendered.lines);
        }
    }
    assert_eq!(lines, vec!["<v>: 1.2.3".to_string()]);
}

#[test]
fn jobs_follow_matchers_selectors_paths_and_patterns_in_that_order() {
    let matchers = vec![
        matcher("regex", &["/a/", "/b/"], &["p1", "p2"]),
        matcher("Regex", &["/c/"], &["p3"]),
    ];
    let plan = plan_scan(&matchers, &texts(&["./ab", "./bc", "./ca"]));
    assert_eq!(plan.failure, None);
    assert_eq!(
        jobs(&plan),
        vec![
            job("./ab", "p1"),
            job("./ab", "p2"),
            job("./ca", "p1"),
            job("./ca", "p2"),
            job("./ab", "p1"),
            job("./ab", "p2"),
            job("./bc", "p1"),
            job("./bc", "p2"),
            job("./bc", "p3"),
            job("./ca", "p3"),
        ]
    );
}

#[test]
fn matchers_of_another_kind_are_passed_over() {
    let matchers = vec![
        matcher("jsonata", &["/(/"], &["("]),
        matcher("regex", &["/a/"], &["p"]),
        matcher("", &["/a/"], &["q"]),
    ];
    let plan = plan_scan(&matchers, &texts(&["./a"]));
    assert_eq!(plan.failure, None);
    assert_eq!(jobs(&plan), vec![job("./a", "p")]);
}

#[test]
fn nothing_to_do_gives_an_empty_plan() {
    let plan = plan_scan(&vec![], &texts(&["./a"]));
    assert_eq!(plan, ScanPlan { jobs: vec![], failure: None });
    let plan = plan_scan(&vec![matcher("regex", &["/a/"], &["p"])], &vec![]);
    assert_eq!(plan, ScanPlan { jobs: vec![], failure: None });
    let plan = plan_scan(&vec![matcher("regex", &[], &["("])], &texts(&["./a"]));
    assert_eq!(plan, ScanPlan { jobs: vec![], failure: None });
    let plan = plan_scan(&vec![matcher("regex", &["/a/"], &[])], &texts(&["./a"]));
    assert_eq!(plan, ScanPlan { jobs: vec![], failure: None });
}

#[test]
fn a_selector_that_does_not_compile_ends_the_plan() {
    let matchers = vec![
        matcher("regex", &["/a/", "/(/", "/b/"], &["p"]),
        matcher("regex", &["/a/"], &["q"]),
    ];
    let plan = plan_scan(&matchers, &texts(&["./a", "./b"]));
    assert_eq!(jobs(&plan), vec![job("./a", "p")]);
    match plan.failure {
        Some(ProgError::ParseFailure(message)) => {
            let start = "Failed to parse file pattern regex: Syntax(";
            assert!(message.starts_with(start), "{message}");
            assert!(message.contains("unclosed group"), "{message}");
        }
        other => panic!("{other:?}"),
    }
}

#[test]
fn a_match_pattern_that_does_not_compile_ends_the_plan_where_it_is_reached() {
    let matchers = vec![matcher("regex", &["/a/"], &["p", "(", "q"])];
    let plan = plan_scan(&matchers, &texts(&["./b", "./a1", "./a2"]));
    assert_eq!(jobs(&plan), vec![job("./a1", "p")]);
    match plan.failure {
        Some(ProgError::ParseFailure(message)) => {
            assert!(message.starts_with("Failed to parse regex: Syntax("), "{message}");
            assert_eq!(
                ProgError::ParseFailure(message.clone()).message(),
                format!("failed to parse: {message}")
            );
        }
        other => panic!("{other:?}"),
    }
}

#[test]
fn a_match_pattern_that_does_not_compile_is_no_defect_where_no_path_is_selected() {
    let matchers = vec![matcher("regex", &["/a/"], &["("])];
    let plan = plan_scan(&matchers, &texts(&["./b", "./c"]));
    assert_eq!(plan, ScanPlan { jobs: vec![], failure: None });
}

#[test]
fn a_selector_with_a_leading_dot_is_tested_on_the_listed_path() {
    let matchers = vec![matcher("regex", &[r"/^\.\/src/", r"/^\.\/docs/"], &["p"])];
    let plan = plan_scan(&matchers, &texts(&["./src/a", "./docs/b"]));
    assert_eq!(plan.failure, None);
    // The first selector's text starts with `^`, so it is tested on
    // `src/a`, which it does not match; likewise the second.
    assert_eq!(jobs(&plan), vec![]);
    let matchers = vec![matcher("regex", &[r"/.\/src/"], &["p"])];
    let plan = plan_scan(&matchers, &texts(&["./src/a", "./docs/b"]));
    assert_eq!(jobs(&plan), vec![job("./src/a", "p")]);
}

#[test]
fn a_configuration_that_did_not_parse_is_one_parse_failure_and_no_job() {
    let words = serde_json::from_str::<serde_json::Value>("{ \"customManagers\": [")
        .unwrap_err()
        .to_string();
    let plan = renovate(Err(words.clone()), &texts(&["./a", "./b.txt"]));
    assert!(plan.jobs.is_empty());
    assert_eq!(plan.failure, Some(ProgError::ParseFailure(words.clone())));
    assert_eq!(plan.failure.unwrap().message(), format!("failed to parse: {words}"));
}

#[test]
fn a_configuration_that_parsed_is_scanned() {
    let matchers = vec![matcher("regex", &[r"/\.txt$/"], &[r"version: (?<v>[\d.]+)"])];
    let plan = renovate(Ok(matchers), &texts(&["./a", "./b.txt"]));
    assert_eq!(plan.failure, None);
    assert_eq!(jobs(&plan), vec![job("./b.txt", r"version: (?<v>[\d.]+)")]);
}

#[test]
fn a_job_that_goes_wrong_is_skipped() {
    let matchers = vec![matcher("regex", &["/txt/"], &[r"version: (?<v>[\d.]+)", "plain"])];
    let plan = plan_scan(&matchers, &texts(&["./a.txt"]));
    assert_eq!(plan.jobs.len(), 2);
    assert_eq!(
        run_job(&plan.jobs[0], Err("unreadable".to_string()), false),
        JobOutcome::Skipped(ProgError::IO("unreadable".to_string()))
    );
    assert_eq!(
        run_job(&plan.jobs[0], Ok("nothing here"), false),
        JobOutcome::Skipped(ProgError::NoMatch)
    );
    assert_eq!(
        run_job(&plan.jobs[1], Ok("nothing here"), false),
        JobOutcome::Done(Analysis::NoGroups)
    );
    match run_job(&plan.jobs[0], Ok("version: 1.2.3"), false) {
        JobOutcome::Done(Analysis::Report(report)) => {
            assert_eq!(report.rendered.lines, vec!["<v>: 1.2.3".to_string()]);
            assert_eq!(report.rendered.matched, "version: 1.2.3");
        }
        other => panic!("{other:?}"),
    }
}

#[test]
fn a_job_with_a_pattern_that_does_not_compile_is_skipped() {
    match run_job(&job("./a", "("), Ok("x"), false) {
        JobOutcome::Skipped(ProgError::ParseFailure(message)) => {
            assert!(message.starts_with("Syntax("), "{message}");
        }
        other => panic!("{other:?}"),
    }
    match run_job(&job("./a", "("), Err("unreadable".to_string()), false) {
        JobOutcome::Skipped(ProgError::ParseFailure(_)) => {}
        other => panic!("{other:?}"),
    }
}

#[test]
fn the_engine_is_consulted_on_matchers_of_kind_regex_alone() {
    let matchers = vec![
        matcher("other", &["/a/"], &["p"]),
        matcher("regex", &[r"/\.txt$/", "/(/"], &["p", "("]),
    ];
    let all = consult(&matchers, &texts(&["./a.txt", "./b", "./c.txt"]));
    assert_eq!(all.len(), 2);
    assert_eq!(all[0], MatcherVerdict { selectors: vec![], patterns: vec![] });
    assert_eq!(all[1].selectors.len(), 2);
    assert_eq!(
        all[1].selectors[0],
        SelectorVerdict { rejected: None, selected: texts(&["./a.txt", "./c.txt"]) }
    );
    assert!(all[1].selectors[1].rejected.as_ref().unwrap().contains("unclosed group"));
    assert!(all[1].selectors[1].selected.is_empty());
    assert_eq!(all[1].patterns.len(), 2);
    assert_eq!(all[1].patterns[0], PatternVerdict { source: "p".to_string(), rejected: None });
    assert_eq!(all[1].patterns[1].source, "(");
    assert!(all[1].patterns[1].rejected.as_ref().unwrap().starts_with("Syntax("));
}
