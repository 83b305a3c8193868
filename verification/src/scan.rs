//! The scan over a tree: what the engine says of the configured matchers
//! over the listed files, the plan that follows, and how each job ends.

use crate::engine::engine_compile;
use crate::engine::engine_first_match;
use crate::engine::engine_groups;
use crate::engine::Pattern;
use crate::error::ErrorModel;
use crate::error::ProgError;
use crate::pipeline::analysis;
use crate::pipeline::analysis_of;
use crate::pipeline::match_file;
use crate::pipeline::Analysis;
use crate::pipeline::AnalysisModel;
use crate::plan::assemble;
use crate::plan::assembled;
use crate::plan::failed_plan;
use crate::plan::lemma_sequence_jobs;
use crate::plan::lemma_sequence_without_defect;
use crate::plan::matcher_plan;
use crate::plan::path_plan;
use crate::plan::pattern_plan;
use crate::plan::selector_plan;
use crate::plan::sequence;
use crate::plan::Job;
use crate::plan::JobModel;
use crate::plan::MatcherVerdict;
use crate::plan::MatcherVerdictModel;
use crate::plan::PatternVerdict;
use crate::plan::PatternVerdictModel;
use crate::plan::PlanModel;
use crate::plan::ScanPlan;
use crate::plan::SelectorVerdict;
use crate::plan::SelectorVerdictModel;
use crate::select::is_regex_kind;
use crate::select::kind_is_regex;
use crate::select::path_selected;
use crate::select::selects;
use crate::select::strip_selector;
use crate::select::stripped_selector;
use vstd::prelude::*;

verus! {

/// One configured matcher: patterns that select files, and patterns that
/// are run on the files selected.
#[derive(Clone, Debug, PartialEq, Eq)]
pub struct CustomMatcher {
    /// The kind of the matcher. Only the kind `regex` is acted upon.
    pub kind: String,
    /// The patterns that select files by their path, each conventionally
    /// written between slashes.
    pub file_selectors: Vec<String>,
    /// The patterns that are run on each selected file.
    pub match_patterns: Vec<String>,
}

/// The mathematical value of a `CustomMatcher`.
pub struct MatcherModel {
    pub kind: Seq<char>,
    pub file_selectors: Seq<Seq<char>>,
    pub match_patterns: Seq<Seq<char>>,
}

impl View for CustomMatcher {
    type V = MatcherModel;

    open spec fn view(&self) -> MatcherModel {
        MatcherModel {
            kind: self.kind@,
            file_selectors: self.file_selectors.deep_view(),
            match_patterns: self.match_patterns.deep_view(),
        }
    }
}

impl DeepView for CustomMatcher {
    type V = MatcherModel;

    open spec fn deep_view(&self) -> MatcherModel {
        self@
    }
}

/// The engine's diagnostic for a pattern text; absent where the engine
/// accepts the text.
pub open spec fn rejection(source: Seq<char>) -> Option<Seq<char>> {
    match engine_groups(source) {
        Ok(_) => None,
        Err(diagnostic) => Some(diagnostic),
    }
}

/// The engine's verdict on a match pattern.
pub open spec fn pattern_verdict(pattern: Seq<char>) -> PatternVerdictModel {
    PatternVerdictModel { source: pattern, rejected: rejection(pattern) }
}

/// Those of the first `count` listed paths that a selector, given by its
/// stripped text, selects.
pub open spec fn selected_paths(
    selector: Seq<char>,
    paths: Seq<Seq<char>>,
    count: int,
) -> Seq<Seq<char>>
    decreases count,
{
    if count <= 0 {
        Seq::empty()
    } else if count <= paths.len() && selects(selector, paths[count - 1]) {
        selected_paths(selector, paths, count - 1).push(paths[count - 1])
    } else {
        selected_paths(selector, paths, count - 1)
    }
}

/// The engine's verdict on a selector over the listed paths. A selector
/// that the engine rejects selects nothing.
pub open spec fn selector_verdict(
    selector: Seq<char>,
    paths: Seq<Seq<char>>,
) -> SelectorVerdictModel {
    let source = stripped_selector(selector);
    match rejection(source) {
        None => SelectorVerdictModel {
            rejected: None,
            selected: selected_paths(source, paths, paths.len() as int),
        },
        Some(diagnostic) => SelectorVerdictModel {
            rejected: Some(diagnostic),
            selected: Seq::empty(),
        },
    }
}

/// The engine's verdict on a matcher over the listed paths. A matcher of
/// another kind than `regex` is not put before the engine.
pub open spec fn matcher_verdict(
    matcher: MatcherModel,
    paths: Seq<Seq<char>>,
) -> MatcherVerdictModel {
    if is_regex_kind(matcher.kind) {
        MatcherVerdictModel {
            selectors: Seq::new(
                matcher.file_selectors.len(),
                |k: int| selector_verdict(matcher.file_selectors[k], paths),
            ),
            patterns: Seq::new(
                matcher.match_patterns.len(),
                |k: int| pattern_verdict(matcher.match_patterns[k]),
            ),
        }
    } else {
        MatcherVerdictModel { selectors: Seq::empty(), patterns: Seq::empty() }
    }
}

/// The engine's verdicts on the matchers over the listed paths.
pub open spec fn verdicts(
    matchers: Seq<MatcherModel>,
    paths: Seq<Seq<char>>,
) -> Seq<MatcherVerdictModel> {
    Seq::new(matchers.len(), |k: int| matcher_verdict(matchers[k], paths))
}

/// The plan for a scan of the listed paths with the matchers.
pub open spec fn scan_plan(matchers: Seq<MatcherModel>, paths: Seq<Seq<char>>) -> PlanModel {
    assembled(verdicts(matchers, paths))
}

/// The plan for a configuration as it was read: the scan of its matchers,
/// or, where the configuration could not be parsed, that defect alone.
pub open spec fn renovate_plan(
    config: Result<Seq<MatcherModel>, Seq<char>>,
    paths: Seq<Seq<char>>,
) -> PlanModel {
    match config {
        Ok(matchers) => scan_plan(matchers, paths),
        Err(words) => failed_plan(words),
    }
}

/// The mathematical value of a configuration as it was read.
pub open spec fn config_of(config: Result<Vec<CustomMatcher>, String>) -> Result<
    Seq<MatcherModel>,
    Seq<char>,
> {
    match config {
        Ok(matchers) => Ok(matchers.deep_view()),
        Err(words) => Err(words@),
    }
}

/// Whether a text is one of the first `count` listed paths.
pub open spec fn listed(paths: Seq<Seq<char>>, count: int, path: Seq<char>) -> bool {
    exists|i: int| 0 <= i < count && i < paths.len() && #[trigger] paths[i] == path
}

/// The selected paths are exactly the listed paths that the selector
/// selects.
pub proof fn lemma_selected_paths(selector: Seq<char>, paths: Seq<Seq<char>>, count: int)
    requires
        0 <= count <= paths.len(),
    ensures
        forall|k: int|
            0 <= k < selected_paths(selector, paths, count).len() ==> selects(
                selector,
                #[trigger] selected_paths(selector, paths, count)[k],
            ) && listed(paths, count, selected_paths(selector, paths, count)[k]),
        forall|i: int|
            0 <= i < count && selects(selector, #[trigger] paths[i]) ==> selected_paths(
                selector,
                paths,
                count,
            ).contains(paths[i]),
    decreases count,
{
    if count > 0 {
        lemma_selected_paths(selector, paths, count - 1);
        let before = selected_paths(selector, paths, count - 1);
        let now = selected_paths(selector, paths, count);
        assert forall|k: int| 0 <= k < now.len() implies selects(selector, #[trigger] now[k])
            && listed(paths, count, now[k]) by {
            if k < before.len() {
                assert(listed(paths, count - 1, before[k]));
            } else {
                assert(paths[count - 1] == now[k]);
            }
        }
        assert forall|i: int|
            0 <= i < count && selects(selector, #[trigger] paths[i]) implies now.contains(
            paths[i],
        ) by {
            if i < count - 1 {
                let at = choose|at: int| 0 <= at < before.len() && before[at] == paths[i];
                assert(now[at] == paths[i]);
            } else {
                assert(now[now.len() - 1] == paths[i]);
            }
        }
    }
}

/// Whether a job stems from a matcher and a listing: the matcher is of
/// kind `regex`; one of its selectors compiles and selects the job's path,
/// which is one of the listed paths; and the job's pattern is one of the
/// matcher's match patterns and compiles.
pub open spec fn stems_from(job: JobModel, matcher: MatcherModel, paths: Seq<Seq<char>>) -> bool {
    &&& is_regex_kind(matcher.kind)
    &&& paths.contains(job.path)
    &&& matcher.match_patterns.contains(job.pattern)
    &&& engine_groups(job.pattern) is Ok
    &&& exists|s: int|
        0 <= s < matcher.file_selectors.len() && engine_groups(
            stripped_selector(#[trigger] matcher.file_selectors[s]),
        ) is Ok && selects(stripped_selector(matcher.file_selectors[s]), job.path)
}

/// Every job of a scan stems from one of the matchers and the listing: no
/// file is analysed that no selector selects, and no pattern is run that
/// the configuration does not hold.
pub proof fn lemma_jobs_stem_from_matchers(
    matchers: Seq<MatcherModel>,
    paths: Seq<Seq<char>>,
    k: int,
)
    requires
        0 <= k < scan_plan(matchers, paths).jobs.len(),
    ensures
        exists|m: int|
            0 <= m < matchers.len() && stems_from(
                scan_plan(matchers, paths).jobs[k],
                #[trigger] matchers[m],
                paths,
            ),
{
    let job = scan_plan(matchers, paths).jobs[k];
    let all = verdicts(matchers, paths);
    let by_matcher = Seq::new(all.len(), |i: int| matcher_plan(all[i]));
    lemma_sequence_jobs(by_matcher, k);
    let (m, k1) = choose|i: int, j: int|
        0 <= i < by_matcher.len() && 0 <= j < by_matcher[i].jobs.len() && (
        #[trigger] by_matcher[i].jobs[j]) == job;
    let matcher = matchers[m];
    let verdict = all[m];
    let by_selector = Seq::new(
        verdict.selectors.len(),
        |i: int| selector_plan(verdict.selectors[i], verdict.patterns),
    );
    lemma_sequence_jobs(by_selector, k1);
    let (s, k2) = choose|i: int, j: int|
        0 <= i < by_selector.len() && 0 <= j < by_selector[i].jobs.len() && (
        #[trigger] by_selector[i].jobs[j]) == job;
    assert(is_regex_kind(matcher.kind));
    let source = stripped_selector(matcher.file_selectors[s]);
    let selected = verdict.selectors[s].selected;
    assert(verdict.selectors[s].rejected is None);
    assert(selected == selected_paths(source, paths, paths.len() as int));
    let by_path = Seq::new(selected.len(), |i: int| path_plan(selected[i], verdict.patterns));
    lemma_sequence_jobs(by_path, k2);
    let (p, k3) = choose|i: int, j: int|
        0 <= i < by_path.len() && 0 <= j < by_path[i].jobs.len() && (#[trigger] by_path[i].jobs[j])
            == job;
    let by_pattern = Seq::new(
        verdict.patterns.len(),
        |i: int| pattern_plan(selected[p], verdict.patterns[i]),
    );
    lemma_sequence_jobs(by_pattern, k3);
    let (q, k4) = choose|i: int, j: int|
        0 <= i < by_pattern.len() && 0 <= j < by_pattern[i].jobs.len() && (
        #[trigger] by_pattern[i].jobs[j]) == job;
    assert(verdict.patterns[q].rejected is None);
    assert(job == JobModel { path: selected[p], pattern: matcher.match_patterns[q] });
    lemma_selected_paths(source, paths, paths.len() as int);
    assert(selects(source, selected[p]));
    assert(listed(paths, paths.len() as int, selected[p]));
    assert(stems_from(job, matchers[m], paths));
}

/// In a scan that met no defect, every listed path that a selector of a
/// matcher of kind `regex` selects has a job for each of that matcher's
/// match patterns.
pub proof fn lemma_selected_paths_get_jobs(
    matchers: Seq<MatcherModel>,
    paths: Seq<Seq<char>>,
    m: int,
    s: int,
    p: int,
    q: int,
)
    requires
        scan_plan(matchers, paths).failure is None,
        0 <= m < matchers.len(),
        is_regex_kind(matchers[m].kind),
        0 <= s < matchers[m].file_selectors.len(),
        0 <= p < paths.len(),
        selects(stripped_selector(matchers[m].file_selectors[s]), paths[p]),
        0 <= q < matchers[m].match_patterns.len(),
    ensures
        scan_plan(matchers, paths).jobs.contains(
            JobModel { path: paths[p], pattern: matchers[m].match_patterns[q] },
        ),
        engine_groups(stripped_selector(matchers[m].file_selectors[s])) is Ok,
        engine_groups(matchers[m].match_patterns[q]) is Ok,
{
    let matcher = matchers[m];
    let source = stripped_selector(matcher.file_selectors[s]);
    let job = JobModel { path: paths[p], pattern: matcher.match_patterns[q] };
    let all = verdicts(matchers, paths);
    let verdict = all[m];
    let by_matcher = Seq::new(all.len(), |i: int| matcher_plan(all[i]));
    let by_selector = Seq::new(
        verdict.selectors.len(),
        |i: int| selector_plan(verdict.selectors[i], verdict.patterns),
    );
    lemma_sequence_without_defect(by_matcher, m);
    assert(by_matcher[m] == sequence(by_selector));
    lemma_sequence_without_defect(by_selector, s);
    assert(verdict.selectors[s].rejected is None);
    let selected = verdict.selectors[s].selected;
    assert(selected == selected_paths(source, paths, paths.len() as int));
    lemma_selected_paths(source, paths, paths.len() as int);
    let at = choose|at: int| 0 <= at < selected.len() && selected[at] == paths[p];
    let by_path = Seq::new(selected.len(), |i: int| path_plan(selected[i], verdict.patterns));
    assert(by_selector[s] == sequence(by_path));
    lemma_sequence_without_defect(by_path, at);
    let by_pattern = Seq::new(
        verdict.patterns.len(),
        |i: int| pattern_plan(paths[p], verdict.patterns[i]),
    );
    assert(by_path[at] == sequence(by_pattern));
    lemma_sequence_without_defect(by_pattern, q);
    assert(by_pattern[q].jobs[0] == job);
    assert(sequence(by_pattern).jobs.contains(job));
    let at3 = choose|j: int| 0 <= j < by_path[at].jobs.len() && by_path[at].jobs[j] == job;
    assert(sequence(by_path).jobs.contains(by_path[at].jobs[at3]));
    let at2 = choose|j: int| 0 <= j < by_selector[s].jobs.len() && by_selector[s].jobs[j] == job;
    assert(sequence(by_selector).jobs.contains(by_selector[s].jobs[at2]));
    let at1 = choose|j: int| 0 <= j < by_matcher[m].jobs.len() && by_matcher[m].jobs[j] == job;
    assert(sequence(by_matcher).jobs.contains(by_matcher[m].jobs[at1]));
}

fn consult_pattern(pattern: &str) -> (verdict: PatternVerdict)
    ensures
        verdict@ == pattern_verdict(pattern@),
{
    let rejected = match engine_compile(pattern) {
        Ok(_) => None,
        Err(diagnostic) => Some(diagnostic),
    };
    PatternVerdict { source: pattern.to_owned(), rejected }
}

fn consult_selector(selector: &str, paths: &Vec<String>) -> (verdict: SelectorVerdict)
    ensures
        verdict@ == selector_verdict(selector@, paths.deep_view()),
{
    let source = strip_selector(selector);
    let mut selected: Vec<String> = Vec::new();
    assert(selected.deep_view() =~= Seq::<Seq<char>>::empty());
    match engine_compile(source) {
        Ok(_) => {},
        Err(diagnostic) => {
            return SelectorVerdict { rejected: Some(diagnostic), selected };
        },
    }
    let mut i: usize = 0;
    while i < paths.len()
        invariant
            i <= paths.len(),
            selected.deep_view() == selected_paths(source@, paths.deep_view(), i as int),
        decreases paths.len() - i,
    {
        if path_selected(source, paths[i].as_str()) {
            selected.push(paths[i].clone());
        }
        i += 1;
    }
    SelectorVerdict { rejected: None, selected }
}

fn consult_matcher(matcher: &CustomMatcher, paths: &Vec<String>) -> (verdict: MatcherVerdict)
    ensures
        verdict@ == matcher_verdict(matcher@, paths.deep_view()),
{
    let mut selectors: Vec<SelectorVerdict> = Vec::new();
    let mut patterns: Vec<PatternVerdict> = Vec::new();
    assert(selectors.deep_view() =~= Seq::<SelectorVerdictModel>::empty());
    assert(patterns.deep_view() =~= Seq::<PatternVerdictModel>::empty());
    if !kind_is_regex(matcher.kind.as_str()) {
        return MatcherVerdict { selectors, patterns };
    }
    let mut i: usize = 0;
    while i < matcher.file_selectors.len()
        invariant
            i <= matcher.file_selectors.len(),
            selectors.deep_view() == Seq::new(
                i as nat,
                |k: int| selector_verdict(matcher@.file_selectors[k], paths.deep_view()),
            ),
        decreases matcher.file_selectors.len() - i,
    {
        let verdict = consult_selector(matcher.file_selectors[i].as_str(), paths);
        let ghost before = selectors.deep_view();
        selectors.push(verdict);
        assert(selectors.deep_view() =~= before.push(verdict@));
        i += 1;
    }
    let mut j: usize = 0;
    while j < matcher.match_patterns.len()
        invariant
            j <= matcher.match_patterns.len(),
            patterns.deep_view() == Seq::new(
                j as nat,
                |k: int| pattern_verdict(matcher@.match_patterns[k]),
            ),
        decreases matcher.match_patterns.len() - j,
    {
        let verdict = consult_pattern(matcher.match_patterns[j].as_str());
        let ghost before = patterns.deep_view();
        patterns.push(verdict);
        assert(patterns.deep_view() =~= before.push(verdict@));
        j += 1;
    }
    MatcherVerdict { selectors, patterns }
}

/// Puts the matchers before the engine: which selectors and match patterns
/// it accepts, and which of the listed paths each selector selects.
///
/// Of a matcher of another kind than `regex` nothing is asked. A selector
/// is stripped of one leading and one trailing slash; it is tested on each
/// path without its leading `./`, unless the selector's own text starts
/// with a dot.
pub fn consult(matchers: &Vec<CustomMatcher>, paths: &Vec<String>) -> (all: Vec<MatcherVerdict>)
    ensures
        all.deep_view() == verdicts(matchers.deep_view(), paths.deep_view()),
{
    let mut all: Vec<MatcherVerdict> = Vec::new();
    let mut i: usize = 0;
    while i < matchers.len()
        invariant
            i <= matchers.len(),
            all.deep_view() == Seq::new(
                i as nat,
                |k: int| matcher_verdict(matchers.deep_view()[k], paths.deep_view()),
            ),
        decreases matchers.len() - i,
    {
        let verdict = consult_matcher(&matchers[i], paths);
        let ghost before = all.deep_view();
        all.push(verdict);
        assert(all.deep_view() =~= before.push(verdict@));
        i += 1;
    }
    all
}

/// Plans a scan: which pattern is to be run on which of the listed paths.
///
/// The engine is consulted on the matchers, and the plan is assembled from
/// its verdicts. A match pattern that the engine rejects is a defect only
/// where its matcher selects a path.
pub fn plan_scan(matchers: &Vec<CustomMatcher>, paths: &Vec<String>) -> (plan: ScanPlan)
    ensures
        plan@ == scan_plan(matchers.deep_view(), paths.deep_view()),
{
    let all = consult(matchers, paths);
    assemble(&all)
}

/// Plans the scan for a configuration as it was read: the matchers, or the
/// words in which the parsing failed. A configuration that could not be
/// parsed gives a plan without jobs that holds a `ParseFailure` with those
/// words, whatever paths are listed.
pub fn renovate(config: Result<Vec<CustomMatcher>, String>, paths: &Vec<String>) -> (plan:
    ScanPlan)
    ensures
        plan@ == renovate_plan(config_of(config), paths.deep_view()),
        config is Err ==> plan@.jobs.len() == 0 && plan@.failure is Some,
{
    match config {
        Ok(matchers) => plan_scan(&matchers, paths),
        Err(words) => {
            let plan = ScanPlan { jobs: Vec::new(), failure: Some(ProgError::ParseFailure(words)) };
            assert(plan@.jobs =~= Seq::<JobModel>::empty());
            plan
        },
    }
}

/// How one job ended. A job never ends a scan: whatever goes wrong with
/// it is handed back as `Skipped`.
#[derive(Clone, Debug, PartialEq, Eq)]
pub enum JobOutcome {
    /// The file was read and analysed.
    Done(Analysis),
    /// The pattern did not compile, or the file could not be read, or the
    /// pattern did not match, or a group could not be located.
    Skipped(ProgError),
}

/// The mathematical value of a `JobOutcome`.
pub enum JobOutcomeModel {
    Done(AnalysisModel),
    Skipped(ErrorModel),
}

impl View for JobOutcome {
    type V = JobOutcomeModel;

    open spec fn view(&self) -> JobOutcomeModel {
        match self {
            JobOutcome::Done(analysis) => JobOutcomeModel::Done(analysis@),
            JobOutcome::Skipped(error) => JobOutcomeModel::Skipped(error@),
        }
    }
}

/// What a job makes of an analysis.
pub open spec fn job_outcome(result: Result<AnalysisModel, ErrorModel>) -> JobOutcomeModel {
    match result {
        Ok(analysis) => JobOutcomeModel::Done(analysis),
        Err(error) => JobOutcomeModel::Skipped(error),
    }
}

/// What running a job owes, given what was read of its file.
///
/// A pattern that the engine rejects is a `ParseFailure` with the
/// diagnostic; a file that could not be read is an `IO` error with the
/// words of the reading; else the content is analysed. Each of the errors
/// is handed back as `Skipped`.
pub open spec fn job_run(
    job: JobModel,
    content: Result<Seq<char>, Seq<char>>,
    coloring: bool,
    outcome: JobOutcomeModel,
) -> bool {
    match engine_groups(job.pattern) {
        Err(diagnostic) => outcome == JobOutcomeModel::Skipped(
            ErrorModel::ParseFailure(diagnostic),
        ),
        Ok(names) => match content {
            Err(words) => outcome == JobOutcomeModel::Skipped(ErrorModel::IO(words)),
            Ok(haystack) => exists|result: Result<AnalysisModel, ErrorModel>|
                #[trigger] analysis(
                    job.pattern,
                    names,
                    engine_first_match(job.pattern, haystack),
                    coloring,
                    result,
                ) && outcome == job_outcome(result),
        },
    }
}

/// The mathematical value of what was read of a file.
pub open spec fn content_of(content: Result<&str, String>) -> Result<Seq<char>, Seq<char>> {
    match content {
        Ok(haystack) => Ok(haystack@),
        Err(words) => Err(words@),
    }
}

/// Runs one job on what was read of its file: the content, or the words in
/// which the reading failed.
pub fn run_job(job: &Job, content: Result<&str, String>, coloring: bool) -> (outcome: JobOutcome)
    ensures
        job_run(job@, content_of(content), coloring, outcome@),
{
    let pattern = match Pattern::compile(job.pattern.as_str()) {
        Ok(pattern) => pattern,
        Err(error) => {
            return JobOutcome::Skipped(error);
        },
    };
    let ghost read = content_of(content);
    let result = match_file(content, &pattern, coloring);
    let ghost model = analysis_of(result);
    let outcome = match result {
        Ok(analysis) => JobOutcome::Done(analysis),
        Err(error) => JobOutcome::Skipped(error),
    };
    proof {
        let names = engine_groups(job@.pattern)->Ok_0;
        assert(names == pattern.group_names());
        assert(outcome@ == job_outcome(model));
        if let Ok(haystack) = read {
            assert(exists|result: Result<AnalysisModel, ErrorModel>|
                #[trigger] analysis(
                    job@.pattern,
                    names,
                    engine_first_match(job@.pattern, haystack),
                    coloring,
                    result,
                ) && outcome@ == job_outcome(result));
        }
    }
    outcome
}

} // verus!
