//! The plan of a scan: the jobs that follow from what the engine said of
//! the selectors and the match patterns of each matcher.

use crate::error::ErrorModel;
use crate::error::ProgError;
use vstd::prelude::*;

verus! {

/// What the engine said of one match pattern.
#[derive(Clone, Debug, PartialEq, Eq)]
pub struct PatternVerdict {
    /// The text of the pattern.
    pub source: String,
    /// The engine's diagnostic, where it rejects the pattern.
    pub rejected: Option<String>,
}

/// The mathematical value of a `PatternVerdict`.
pub struct PatternVerdictModel {
    pub source: Seq<char>,
    pub rejected: Option<Seq<char>>,
}

impl View for PatternVerdict {
    type V = PatternVerdictModel;

    open spec fn view(&self) -> PatternVerdictModel {
        PatternVerdictModel { source: self.source@, rejected: self.rejected.deep_view() }
    }
}

impl DeepView for PatternVerdict {
    type V = PatternVerdictModel;

    open spec fn deep_view(&self) -> PatternVerdictModel {
        self@
    }
}

/// What the engine said of one file selector.
#[derive(Clone, Debug, PartialEq, Eq)]
pub struct SelectorVerdict {
    /// The engine's diagnostic, where it rejects the selector's pattern.
    pub rejected: Option<String>,
    /// The listed paths that the selector selects, in the order of the
    /// listing.
    pub selected: Vec<String>,
}

/// The mathematical value of a `SelectorVerdict`.
pub struct SelectorVerdictModel {
    pub rejected: Option<Seq<char>>,
    pub selected: Seq<Seq<char>>,
}

impl View for SelectorVerdict {
    type V = SelectorVerdictModel;

    open spec fn view(&self) -> SelectorVerdictModel {
        SelectorVerdictModel {
            rejected: self.rejected.deep_view(),
            selected: self.selected.deep_view(),
        }
    }
}

impl DeepView for SelectorVerdict {
    type V = SelectorVerdictModel;

    open spec fn deep_view(&self) -> SelectorVerdictModel {
        self@
    }
}

/// What the engine said of the selectors and the match patterns of one
/// matcher.
#[derive(Clone, Debug, PartialEq, Eq)]
pub struct MatcherVerdict {
    pub selectors: Vec<SelectorVerdict>,
    pub patterns: Vec<PatternVerdict>,
}

/// The mathematical value of a `MatcherVerdict`.
pub struct MatcherVerdictModel {
    pub selectors: Seq<SelectorVerdictModel>,
    pub patterns: Seq<PatternVerdictModel>,
}

impl View for MatcherVerdict {
    type V = MatcherVerdictModel;

    open spec fn view(&self) -> MatcherVerdictModel {
        MatcherVerdictModel {
            selectors: self.selectors.deep_view(),
            patterns: self.patterns.deep_view(),
        }
    }
}

impl DeepView for MatcherVerdict {
    type V = MatcherVerdictModel;

    open spec fn deep_view(&self) -> MatcherVerdictModel {
        self@
    }
}

/// One pattern to be run on one file.
#[derive(Clone, Debug, PartialEq, Eq)]
pub struct Job {
    /// The path of the file, as it was listed.
    pub path: String,
    /// The text of the pattern to run on the file's content.
    pub pattern: String,
}

/// The mathematical value of a `Job`.
pub struct JobModel {
    pub path: Seq<char>,
    pub pattern: Seq<char>,
}

impl View for Job {
    type V = JobModel;

    open spec fn view(&self) -> JobModel {
        JobModel { path: self.path@, pattern: self.pattern@ }
    }
}

impl DeepView for Job {
    type V = JobModel;

    open spec fn deep_view(&self) -> JobModel {
        self@
    }
}

/// What a scan is to do: the jobs in the order in which they are to be
/// run, and the configuration defect that ended the planning, if one did.
/// The jobs planned before a defect are still to be run.
#[derive(Clone, Debug, PartialEq, Eq)]
pub struct ScanPlan {
    pub jobs: Vec<Job>,
    pub failure: Option<ProgError>,
}

/// The mathematical value of a `ScanPlan`.
pub struct PlanModel {
    pub jobs: Seq<JobModel>,
    pub failure: Option<ErrorModel>,
}

impl View for ScanPlan {
    type V = PlanModel;

    open spec fn view(&self) -> PlanModel {
        PlanModel {
            jobs: self.jobs.deep_view(),
            failure: match self.failure {
                Some(error) => Some(error@),
                None => None,
            },
        }
    }
}

/// The plan that holds nothing.
pub open spec fn no_plan() -> PlanModel {
    PlanModel { jobs: Seq::empty(), failure: None }
}

/// The plan that holds one defect.
pub open spec fn failed_plan(message: Seq<char>) -> PlanModel {
    PlanModel { jobs: Seq::empty(), failure: Some(ErrorModel::ParseFailure(message)) }
}

/// One plan after another: a defect in the first ends the planning.
pub open spec fn followed_by(first: PlanModel, second: PlanModel) -> PlanModel {
    if first.failure is Some {
        first
    } else {
        PlanModel { jobs: first.jobs + second.jobs, failure: second.failure }
    }
}

/// A row of plans, one after another.
pub open spec fn sequence(plans: Seq<PlanModel>) -> PlanModel
    decreases plans.len(),
{
    if plans.len() == 0 {
        no_plan()
    } else {
        followed_by(sequence(plans.drop_last()), plans.last())
    }
}

/// The plan for one pattern on one selected file: the job, or the defect
/// that the pattern does not compile.
pub open spec fn pattern_plan(path: Seq<char>, pattern: PatternVerdictModel) -> PlanModel {
    match pattern.rejected {
        None => PlanModel {
            jobs: seq![JobModel { path, pattern: pattern.source }],
            failure: None,
        },
        Some(diagnostic) => failed_plan("Failed to parse regex: "@ + diagnostic),
    }
}

/// The plan for one selected file: the match patterns in their order.
pub open spec fn path_plan(path: Seq<char>, patterns: Seq<PatternVerdictModel>) -> PlanModel {
    sequence(Seq::new(patterns.len(), |k: int| pattern_plan(path, patterns[k])))
}

/// The plan for one selector: the defect that it does not compile, else
/// the files it selects in their order.
pub open spec fn selector_plan(
    selector: SelectorVerdictModel,
    patterns: Seq<PatternVerdictModel>,
) -> PlanModel {
    match selector.rejected {
        None => sequence(
            Seq::new(selector.selected.len(), |k: int| path_plan(selector.selected[k], patterns)),
        ),
        Some(diagnostic) => failed_plan("Failed to parse file pattern regex: "@ + diagnostic),
    }
}

/// The plan for one matcher: its selectors in their order.
pub open spec fn matcher_plan(matcher: MatcherVerdictModel) -> PlanModel {
    sequence(
        Seq::new(
            matcher.selectors.len(),
            |k: int| selector_plan(matcher.selectors[k], matcher.patterns),
        ),
    )
}

/// The plan that follows from the verdicts on the matchers, taken in their
/// order.
pub open spec fn assembled(verdicts: Seq<MatcherVerdictModel>) -> PlanModel {
    sequence(Seq::new(verdicts.len(), |k: int| matcher_plan(verdicts[k])))
}

/// Plans may be grouped at will.
pub proof fn lemma_plans_group(first: PlanModel, second: PlanModel, third: PlanModel)
    ensures
        followed_by(followed_by(first, second), third) == followed_by(
            first,
            followed_by(second, third),
        ),
{
    assert((first.jobs + second.jobs) + third.jobs =~= first.jobs + (second.jobs + third.jobs));
}

/// Once a plan in a row holds a defect, the plans behind it add nothing.
pub proof fn lemma_defect_ends_sequence(plans: Seq<PlanModel>, upto: int)
    requires
        0 <= upto <= plans.len(),
        sequence(plans.take(upto)).failure is Some,
    ensures
        sequence(plans) == sequence(plans.take(upto)),
    decreases plans.len() - upto,
{
    if upto < plans.len() {
        assert(plans.take(upto + 1).drop_last() =~= plans.take(upto));
        lemma_defect_ends_sequence(plans, upto + 1);
    } else {
        assert(plans.take(upto) =~= plans);
    }
}

/// Every job of a row of plans is a job of one of the plans.
pub proof fn lemma_sequence_jobs(plans: Seq<PlanModel>, k: int)
    requires
        0 <= k < sequence(plans).jobs.len(),
    ensures
        exists|i: int, j: int|
            0 <= i < plans.len() && 0 <= j < plans[i].jobs.len() && (#[trigger] plans[i].jobs[j])
                == sequence(plans).jobs[k],
    decreases plans.len(),
{
    let before = sequence(plans.drop_last());
    if before.failure is None && k >= before.jobs.len() {
        let i = plans.len() - 1;
        let j = k - before.jobs.len();
        assert(plans[i].jobs[j] == sequence(plans).jobs[k]);
    } else {
        lemma_sequence_jobs(plans.drop_last(), k);
        let (i, j) = choose|i: int, j: int|
            0 <= i < plans.drop_last().len() && 0 <= j < plans.drop_last()[i].jobs.len() && (
            #[trigger] plans.drop_last()[i].jobs[j]) == before.jobs[k];
        assert(plans[i].jobs[j] == sequence(plans).jobs[k]);
    }
}

/// A row of plans without a defect holds no plan with a defect, and holds
/// every job of every plan.
pub proof fn lemma_sequence_without_defect(plans: Seq<PlanModel>, i: int)
    requires
        sequence(plans).failure is None,
        0 <= i < plans.len(),
    ensures
        plans[i].failure is None,
        forall|j: int|
            0 <= j < plans[i].jobs.len() ==> sequence(plans).jobs.contains(
                #[trigger] plans[i].jobs[j],
            ),
    decreases plans.len(),
{
    let before = sequence(plans.drop_last());
    let last = plans.len() - 1;
    if i == last {
        assert forall|j: int| 0 <= j < plans[i].jobs.len() implies sequence(plans).jobs.contains(
            #[trigger] plans[i].jobs[j],
        ) by {
            assert(sequence(plans).jobs[before.jobs.len() + j] == plans[i].jobs[j]);
        }
    } else {
        lemma_sequence_without_defect(plans.drop_last(), i);
        assert forall|j: int| 0 <= j < plans[i].jobs.len() implies sequence(plans).jobs.contains(
            #[trigger] plans[i].jobs[j],
        ) by {
            let at = choose|at: int|
                0 <= at < before.jobs.len() && before.jobs[at] == plans.drop_last()[i].jobs[j];
            assert(sequence(plans).jobs[at] == plans[i].jobs[j]);
        }
    }
}

/// A row of plans taken up to and with plan `upto` is the row before it,
/// then that plan.
proof fn lemma_sequence_step(start: PlanModel, plans: Seq<PlanModel>, upto: int)
    requires
        0 <= upto < plans.len(),
    ensures
        followed_by(followed_by(start, sequence(plans.take(upto))), plans[upto]) == followed_by(
            start,
            sequence(plans.take(upto + 1)),
        ),
{
    assert(plans.take(upto + 1).drop_last() =~= plans.take(upto));
    lemma_plans_group(start, sequence(plans.take(upto)), plans[upto]);
}

fn plan_pattern(plan: &mut ScanPlan, path: &str, pattern: &PatternVerdict)
    requires
        old(plan).failure is None,
    ensures
        final(plan)@ == followed_by(old(plan)@, pattern_plan(path@, pattern@)),
{
    let ghost before = plan@;
    match &pattern.rejected {
        None => {
            plan.jobs.push(Job { path: path.to_owned(), pattern: pattern.source.clone() });
            assert(plan@.jobs =~= before.jobs + seq![
                JobModel { path: path@, pattern: pattern@.source },
            ]);
        },
        Some(diagnostic) => {
            let message = String::from_str("Failed to parse regex: ").concat(diagnostic.as_str());
            plan.failure = Some(ProgError::ParseFailure(message));
        },
    }
}

fn plan_path(plan: &mut ScanPlan, path: &str, patterns: &Vec<PatternVerdict>)
    requires
        old(plan).failure is None,
    ensures
        final(plan)@ == followed_by(old(plan)@, path_plan(path@, patterns.deep_view())),
{
    let ghost start = plan@;
    let ghost verdicts = patterns.deep_view();
    let ghost pieces = Seq::new(verdicts.len(), |k: int| pattern_plan(path@, verdicts[k]));
    let mut i: usize = 0;
    while i < patterns.len()
        invariant
            i <= patterns.len(),
            start == old(plan)@,
            start.failure is None,
            verdicts == patterns.deep_view(),
            pieces == Seq::new(verdicts.len(), |k: int| pattern_plan(path@, verdicts[k])),
            plan@ == followed_by(start, sequence(pieces.take(i as int))),
        decreases patterns.len() - i,
    {
        if plan.failure.is_some() {
            proof {
                lemma_defect_ends_sequence(pieces, i as int);
            }
            return;
        }
        plan_pattern(plan, path, &patterns[i]);
        proof {
            lemma_sequence_step(start, pieces, i as int);
        }
        i += 1;
    }
    proof {
        assert(pieces.take(i as int) =~= pieces);
    }
}

fn plan_selector(plan: &mut ScanPlan, selector: &SelectorVerdict, patterns: &Vec<PatternVerdict>)
    requires
        old(plan).failure is None,
    ensures
        final(plan)@ == followed_by(old(plan)@, selector_plan(selector@, patterns.deep_view())),
{
    let ghost start = plan@;
    match &selector.rejected {
        None => {},
        Some(diagnostic) => {
            let message = String::from_str("Failed to parse file pattern regex: ").concat(
                diagnostic.as_str(),
            );
            plan.failure = Some(ProgError::ParseFailure(message));
            return;
        },
    }
    let ghost selected = selector@.selected;
    let ghost pieces = Seq::new(
        selected.len(),
        |k: int| path_plan(selected[k], patterns.deep_view()),
    );
    let mut i: usize = 0;
    while i < selector.selected.len()
        invariant
            i <= selector.selected.len(),
            start == old(plan)@,
            start.failure is None,
            selector@.rejected is None,
            selected == selector@.selected,
            pieces == Seq::new(
                selected.len(),
                |k: int| path_plan(selected[k], patterns.deep_view()),
            ),
            plan@ == followed_by(start, sequence(pieces.take(i as int))),
        decreases selector.selected.len() - i,
    {
        if plan.failure.is_some() {
            proof {
                lemma_defect_ends_sequence(pieces, i as int);
            }
            return;
        }
        plan_path(plan, selector.selected[i].as_str(), patterns);
        proof {
            lemma_sequence_step(start, pieces, i as int);
        }
        i += 1;
    }
    proof {
        assert(pieces.take(i as int) =~= pieces);
    }
}

fn plan_matcher(plan: &mut ScanPlan, matcher: &MatcherVerdict)
    requires
        old(plan).failure is None,
    ensures
        final(plan)@ == followed_by(old(plan)@, matcher_plan(matcher@)),
{
    let ghost start = plan@;
    let ghost selectors = matcher@.selectors;
    let ghost pieces = Seq::new(
        selectors.len(),
        |k: int| selector_plan(selectors[k], matcher@.patterns),
    );
    let mut i: usize = 0;
    while i < matcher.selectors.len()
        invariant
            i <= matcher.selectors.len(),
            start == old(plan)@,
            start.failure is None,
            selectors == matcher@.selectors,
            pieces == Seq::new(
                selectors.len(),
                |k: int| selector_plan(selectors[k], matcher@.patterns),
            ),
            plan@ == followed_by(start, sequence(pieces.take(i as int))),
        decreases matcher.selectors.len() - i,
    {
        if plan.failure.is_some() {
            proof {
                lemma_defect_ends_sequence(pieces, i as int);
            }
            return;
        }
        plan_selector(plan, &matcher.selectors[i], &matcher.patterns);
        proof {
            lemma_sequence_step(start, pieces, i as int);
        }
        i += 1;
    }
    proof {
        assert(pieces.take(i as int) =~= pieces);
    }
}

/// Assembles the plan of a scan from the verdicts on its matchers.
///
/// The matchers are taken in their order; of each matcher the selectors in
/// their order; for each selector the paths it selects in their order; for
/// each such path the match patterns in their order. A selector that was
/// rejected or, on a selected path, a match pattern that was rejected ends
/// the planning with a `ParseFailure`; the jobs planned before it stay in
/// the plan.
pub fn assemble(verdicts: &Vec<MatcherVerdict>) -> (plan: ScanPlan)
    ensures
        plan@ == assembled(verdicts.deep_view()),
{
    let mut plan = ScanPlan { jobs: Vec::new(), failure: None };
    let ghost start = plan@;
    let ghost models = verdicts.deep_view();
    let ghost pieces = Seq::new(models.len(), |k: int| matcher_plan(models[k]));
    let mut i: usize = 0;
    while i < verdicts.len()
        invariant
            i <= verdicts.len(),
            start == no_plan(),
            models == verdicts.deep_view(),
            pieces == Seq::new(models.len(), |k: int| matcher_plan(models[k])),
            plan@ == followed_by(start, sequence(pieces.take(i as int))),
        decreases verdicts.len() - i,
    {
        if plan.failure.is_some() {
            proof {
                lemma_defect_ends_sequence(pieces, i as int);
            }
            return plan;
        }
        plan_matcher(&mut plan, &verdicts[i]);
        proof {
            lemma_sequence_step(start, pieces, i as int);
        }
        i += 1;
    }
    proof {
        assert(pieces.take(i as int) =~= pieces);
    }
    plan
}

} // verus!
