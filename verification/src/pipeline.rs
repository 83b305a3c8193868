//! The analysis of one text: match the pattern, extract the captures,
//! render.

use crate::capture::Cap;
use crate::capture::CapModel;
use crate::capture::captured;
use crate::capture::extract_captures;
use crate::capture::unmatched;
use crate::engine::engine_first_match;
use crate::engine::Found;
use crate::engine::FoundModel;
use crate::engine::Pattern;
use crate::error::ErrorModel;
use crate::error::ProgError;
use crate::render::outcome_of;
use crate::render::render;
use crate::render::Rendered;
use crate::render::rendering;
use crate::render::RenderModel;
use crate::span::LocateError;
use crate::text::bytes_of;
use vstd::prelude::*;

verus! {

/// What the analysis of a match found.
#[derive(Clone, Debug, PartialEq, Eq)]
pub struct Report {
    /// The annotated pattern, the annotated match and the capture lines.
    pub rendered: Rendered,
    /// The captures, in the order in which the pattern declares them.
    pub captures: Vec<Cap>,
    /// The names of the groups that took no part in the match.
    pub missing: Vec<String>,
}

/// How an analysis ends when it does not fail.
#[derive(Clone, Debug, PartialEq, Eq)]
pub enum Analysis {
    /// The pattern has no group besides the whole match: there is nothing
    /// to show.
    NoGroups,
    /// The pattern matched.
    Report(Report),
}

/// The mathematical value of a `Report`.
pub struct ReportModel {
    pub rendered: RenderModel,
    pub captures: Seq<CapModel>,
    pub missing: Seq<Seq<char>>,
}

/// The mathematical value of an `Analysis`.
pub enum AnalysisModel {
    NoGroups,
    Report(ReportModel),
}

impl View for Report {
    type V = ReportModel;

    open spec fn view(&self) -> ReportModel {
        ReportModel {
            rendered: self.rendered@,
            captures: self.captures.deep_view(),
            missing: self.missing.deep_view(),
        }
    }
}

impl View for Analysis {
    type V = AnalysisModel;

    open spec fn view(&self) -> AnalysisModel {
        match self {
            Analysis::NoGroups => AnalysisModel::NoGroups,
            Analysis::Report(report) => AnalysisModel::Report(report@),
        }
    }
}

/// The mathematical value of what an analysis returns.
pub open spec fn analysis_of(r: Result<Analysis, ProgError>) -> Result<AnalysisModel, ErrorModel> {
    match r {
        Ok(analysis) => Ok(analysis@),
        Err(error) => Err(error@),
    }
}

/// What an analysis makes of a rendering.
pub open spec fn reported(
    rendered: Result<RenderModel, LocateError>,
    captures: Seq<CapModel>,
    missing: Seq<Seq<char>>,
) -> Result<AnalysisModel, ErrorModel> {
    match rendered {
        Ok(rendered) => Ok(AnalysisModel::Report(ReportModel { rendered, captures, missing })),
        Err(cause) => Err(ErrorModel::Locate(cause)),
    }
}

/// What an analysis owes, given the pattern's text, the names of its groups
/// and what the engine found.
///
/// A pattern with no group besides the whole match yields `NoGroups`,
/// whatever was found. Otherwise no match is the error `NoMatch`; a match
/// is reported with the captures of its named groups, rendered against
/// the pattern's text, and a group that cannot be located in that text is
/// the error `Locate`.
pub open spec fn analysis(
    source: Seq<char>,
    names: Seq<Option<Seq<char>>>,
    found: Option<FoundModel>,
    coloring: bool,
    outcome: Result<AnalysisModel, ErrorModel>,
) -> bool {
    if names.len() <= 1 {
        outcome == Ok::<AnalysisModel, ErrorModel>(AnalysisModel::NoGroups)
    } else {
        match found {
            None => outcome == Err::<AnalysisModel, ErrorModel>(ErrorModel::NoMatch),
            Some(found) => {
                let captures = captured(names, found.groups, names.len() as int);
                let missing = unmatched(names, found.groups, names.len() as int);
                exists|rendered: Result<RenderModel, LocateError>|
                    #[trigger] rendering(
                        bytes_of(source),
                        bytes_of(found.text),
                        captures,
                        coloring,
                        rendered,
                    ) && outcome == reported(rendered, captures, missing)
            },
        }
    }
}

/// Reports what the engine found for a pattern: the part of the analysis
/// that follows the search.
pub fn report_match(
    source: &str,
    names: &Vec<Option<String>>,
    found: Option<Found>,
    coloring: bool,
) -> (r: Result<Analysis, ProgError>)
    ensures
        analysis(
            source@,
            names.deep_view(),
            match found {
                Some(found) => Some(found@),
                None => None,
            },
            coloring,
            analysis_of(r),
        ),
{
    let ghost groups = names.deep_view();
    if names.len() <= 1 {
        return Ok(Analysis::NoGroups);
    }
    let found = match found {
        None => {
            return Err(ProgError::NoMatch);
        },
        Some(found) => found,
    };
    let extraction = extract_captures(names, &found.groups);
    let rendered = render(source, found.text.as_str(), &extraction.captures, coloring);
    let ghost outcome = outcome_of(rendered);
    let ghost captures = captured(groups, found@.groups, groups.len() as int);
    let ghost missing = unmatched(groups, found@.groups, groups.len() as int);
    assert(rendering(bytes_of(source@), bytes_of(found@.text), captures, coloring, outcome));
    match rendered {
        Ok(rendered) => Ok(
            Analysis::Report(
                Report { rendered, captures: extraction.captures, missing: extraction.missing },
            ),
        ),
        Err(cause) => Err(ProgError::Locate(cause)),
    }
}

/// Analyses one text: finds the first match of the pattern in the
/// haystack and reports it.
///
/// A pattern with no group besides the whole match is not searched for at
/// all.
pub fn match_text(pattern: &Pattern, haystack: &str, coloring: bool) -> (r: Result<
    Analysis,
    ProgError,
>)
    ensures
        analysis(
            pattern.source_text(),
            pattern.group_names(),
            engine_first_match(pattern.source_text(), haystack@),
            coloring,
            analysis_of(r),
        ),
        pattern.group_names().len() <= 1 ==> analysis_of(r) == Ok::<AnalysisModel, ErrorModel>(
            AnalysisModel::NoGroups,
        ),
{
    let names = pattern.groups();
    if names.len() <= 1 {
        return Ok(Analysis::NoGroups);
    }
    let found = pattern.first_match(haystack);
    report_match(pattern.source(), names, found, coloring)
}

/// Analyses what was read of one file: the content, or the words in which
/// the reading failed. A file that could not be read is the error `IO`
/// with those words; a file that was read is analysed by `match_text`.
pub fn match_file(content: Result<&str, String>, pattern: &Pattern, coloring: bool) -> (r: Result<
    Analysis,
    ProgError,
>)
    ensures
        match content {
            Ok(haystack) => analysis(
                pattern.source_text(),
                pattern.group_names(),
                engine_first_match(pattern.source_text(), haystack@),
                coloring,
                analysis_of(r),
            ),
            Err(words) => analysis_of(r) == Err::<AnalysisModel, ErrorModel>(
                ErrorModel::IO(words@),
            ),
        },
        content is Ok && pattern.group_names().len() <= 1 ==> analysis_of(r) == Ok::<
            AnalysisModel,
            ErrorModel,
        >(AnalysisModel::NoGroups),
{
    match content {
        Ok(haystack) => match_text(pattern, haystack, coloring),
        Err(words) => Err(ProgError::IO(words)),
    }
}

/// Without coloring an analysis is a function of the pattern and the
/// haystack: two runs on the same pattern and the same haystack give the
/// same result, byte for byte.
pub proof fn lemma_plain_runs_agree(
    source: Seq<char>,
    names: Seq<Option<Seq<char>>>,
    haystack: Seq<char>,
    first: Result<AnalysisModel, ErrorModel>,
    second: Result<AnalysisModel, ErrorModel>,
)
    requires
        analysis(source, names, engine_first_match(source, haystack), false, first),
        analysis(source, names, engine_first_match(source, haystack), false, second),
    ensures
        first == second,
{
}

} // verus!
