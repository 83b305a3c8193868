//! The matching engine: the `regex` crate behind a pattern type that holds,
//! as plain values, what the rest of the library reads of a compiled pattern.
//!
//! A `Pattern` keeps no state of the engine. Every search hands the source
//! text to the engine, which compiles it again: what a search finds is then a
//! function of the source text and the haystack, and is named as such.

use crate::error::ErrorModel;
use crate::error::ProgError;
use vstd::prelude::*;

verus! {

/// What the engine makes of a pattern text: the names of its groups in the
/// order of their opening parentheses, absent for a group without a name,
/// or the engine's diagnostic where it rejects the text.
pub uninterp spec fn engine_groups(source: Seq<char>) -> Result<Seq<Option<Seq<char>>>, Seq<char>>;

/// The first, leftmost match of a pattern in a haystack; absent where the
/// pattern matches nowhere or the engine rejects it.
pub uninterp spec fn engine_first_match(
    source: Seq<char>,
    haystack: Seq<char>,
) -> Option<FoundModel>;

/// Whether a pattern matches anywhere in a text; false where the engine
/// rejects the pattern.
pub uninterp spec fn engine_matches(source: Seq<char>, text: Seq<char>) -> bool;

/// One match: the matched text, and for each group of the pattern the text
/// it matched, absent where the group took no part in the match.
#[derive(Clone, Debug, PartialEq, Eq)]
pub struct Found {
    pub text: String,
    pub groups: Vec<Option<String>>,
}

/// The mathematical value of a `Found`.
pub struct FoundModel {
    pub text: Seq<char>,
    pub groups: Seq<Option<Seq<char>>>,
}

impl View for Found {
    type V = FoundModel;

    open spec fn view(&self) -> FoundModel {
        FoundModel { text: self.text@, groups: self.groups.deep_view() }
    }
}

/// Compiles a pattern text and lists its groups.
///
/// Calls `regex::Regex::new` and, on the pattern it gives,
/// `Regex::capture_names`; a rejected text comes back as the `Debug` form
/// of the `regex::Error`. Both are functions of the text alone.
#[verifier::external_body]
pub(crate) fn engine_compile(source: &str) -> (r: Result<Vec<Option<String>>, String>)
    ensures
        match r {
            Ok(names) => engine_groups(source@) == Ok::<Seq<Option<Seq<char>>>, Seq<char>>(
                names.deep_view(),
            ),
            Err(diagnostic) => engine_groups(source@) == Err::<Seq<Option<Seq<char>>>, Seq<char>>(
                diagnostic@,
            ),
        },
{
    match regex::Regex::new(source) {
        Ok(re) => Ok(re.capture_names().map(|name| name.map(String::from)).collect()),
        Err(error) => Err(format!("{error:?}")),
    }
}

/// Searches a haystack for the first match of a pattern.
///
/// Calls `regex::Regex::captures` on the pattern that `regex::Regex::new`
/// gives for the text, takes the matched text from `Captures::get_match`
/// and the groups from `Captures::iter`.
#[verifier::external_body]
pub(crate) fn engine_search(source: &str, haystack: &str) -> (r: Option<Found>)
    ensures
        match r {
            Some(found) => engine_first_match(source@, haystack@) == Some(found@),
            None => engine_first_match(source@, haystack@) is None,
        },
{
    let re = match regex::Regex::new(source) {
        Ok(re) => re,
        Err(_) => return None,
    };
    let caps = re.captures(haystack)?;
    Some(Found {
        text: caps.get_match().as_str().to_owned(),
        groups: caps.iter().map(|group| group.map(|m| m.as_str().to_owned())).collect(),
    })
}

/// Tests whether a pattern matches anywhere in a text.
///
/// Calls `regex::Regex::is_match` on the pattern that `regex::Regex::new`
/// gives for the text.
#[verifier::external_body]
pub(crate) fn engine_test(source: &str, text: &str) -> (r: bool)
    ensures
        r == engine_matches(source@, text@),
{
    match regex::Regex::new(source) {
        Ok(re) => re.is_match(text),
        Err(_) => false,
    }
}

/// A compiled pattern: its source text and the names of its groups.
#[derive(Debug, PartialEq, Eq)]
pub struct Pattern {
    source: String,
    groups: Vec<Option<String>>,
}

impl Pattern {
    #[verifier::type_invariant]
    spec fn well_formed(self) -> bool {
        engine_groups(self.source@) == Ok::<Seq<Option<Seq<char>>>, Seq<char>>(
            self.groups.deep_view(),
        )
    }

    /// The source text of the pattern.
    pub closed spec fn source_text(&self) -> Seq<char> {
        self.source@
    }

    /// The names of the pattern's groups, in the order of their opening
    /// parentheses; entry 0 is the whole match and has no name.
    pub closed spec fn group_names(&self) -> Seq<Option<Seq<char>>> {
        self.groups.deep_view()
    }

    /// Compiles a pattern text, or hands back the engine's diagnostic.
    pub fn parse(source: &str) -> (r: Result<Pattern, String>)
        ensures
            match r {
                Ok(pattern) => pattern.source_text() == source@ && engine_groups(source@) == Ok::<
                    Seq<Option<Seq<char>>>,
                    Seq<char>,
                >(pattern.group_names()),
                Err(diagnostic) => engine_groups(source@) == Err::<
                    Seq<Option<Seq<char>>>,
                    Seq<char>,
                >(diagnostic@),
            },
    {
        match engine_compile(source) {
            Ok(groups) => Ok(Pattern { source: source.to_owned(), groups }),
            Err(diagnostic) => Err(diagnostic),
        }
    }

    /// Compiles a pattern text. The engine's diagnostic comes back as a
    /// `ParseFailure`.
    pub fn compile(source: &str) -> (r: Result<Pattern, ProgError>)
        ensures
            match r {
                Ok(pattern) => pattern.source_text() == source@ && engine_groups(source@) == Ok::<
                    Seq<Option<Seq<char>>>,
                    Seq<char>,
                >(pattern.group_names()),
                Err(error) => engine_groups(source@) matches Err(diagnostic) && error@
                    == ErrorModel::ParseFailure(diagnostic),
            },
    {
        match Pattern::parse(source) {
            Ok(pattern) => Ok(pattern),
            Err(diagnostic) => Err(ProgError::ParseFailure(diagnostic)),
        }
    }

    /// The source text of the pattern.
    pub fn source(&self) -> (text: &str)
        ensures
            text@ == self.source_text(),
    {
        self.source.as_str()
    }

    /// The names of the pattern's groups.
    pub fn groups(&self) -> (names: &Vec<Option<String>>)
        ensures
            names.deep_view() == self.group_names(),
            engine_groups(self.source_text()) == Ok::<Seq<Option<Seq<char>>>, Seq<char>>(
                self.group_names(),
            ),
    {
        proof {
            use_type_invariant(self);
        }
        &self.groups
    }

    /// Whether the pattern matches anywhere in a text.
    pub fn is_match(&self, text: &str) -> (r: bool)
        ensures
            r == engine_matches(self.source_text(), text@),
    {
        engine_test(self.source.as_str(), text)
    }

    /// The first match of the pattern in a haystack.
    pub fn first_match(&self, haystack: &str) -> (r: Option<Found>)
        ensures
            match r {
                Some(found) => engine_first_match(self.source_text(), haystack@) == Some(found@),
                None => engine_first_match(self.source_text(), haystack@) is None,
            },
    {
        engine_search(self.source.as_str(), haystack)
    }
}

} // verus!
