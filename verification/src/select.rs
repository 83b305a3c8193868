//! The rules by which a configured matcher selects files: which matchers are
//! acted upon, what of a selector is the pattern, and what of a path the
//! pattern is tested on.

use crate::engine::engine_matches;
use crate::engine::engine_test;
use vstd::prelude::*;

verus! {

/// Whether a character is the given small letter or its capital.
pub open spec fn is_letter(c: char, small: char, capital: char) -> bool {
    c == small || c == capital
}

/// Whether a matcher's kind is `regex`, in small or capital letters.
pub open spec fn is_regex_kind(kind: Seq<char>) -> bool {
    &&& kind.len() == 5
    &&& is_letter(kind[0], 'r', 'R')
    &&& is_letter(kind[1], 'e', 'E')
    &&& is_letter(kind[2], 'g', 'G')
    &&& is_letter(kind[3], 'e', 'E')
    &&& is_letter(kind[4], 'x', 'X')
}

/// A selector without one leading and one trailing slash.
pub open spec fn stripped_selector(selector: Seq<char>) -> Seq<char> {
    let tail = if selector.len() > 0 && selector[0] == '/' {
        selector.drop_first()
    } else {
        selector
    };
    if tail.len() > 0 && tail.last() == '/' {
        tail.drop_last()
    } else {
        tail
    }
}

/// The text of a path that a selector is tested on: the path without a
/// leading `./`, unless the selector's own text starts with a dot.
pub open spec fn compared_text(selector: Seq<char>, path: Seq<char>) -> Seq<char> {
    if selector.len() > 0 && selector[0] == '.' {
        path
    } else if path.len() >= 2 && path[0] == '.' && path[1] == '/' {
        path.subrange(2, path.len() as int)
    } else {
        path
    }
}

/// Whether a selector, given by its stripped text, selects a path.
pub open spec fn selects(selector: Seq<char>, path: Seq<char>) -> bool {
    engine_matches(selector, compared_text(selector, path))
}

/// Tests whether a matcher's kind is `regex`, whatever the case of its
/// letters.
pub fn kind_is_regex(kind: &str) -> (r: bool)
    ensures
        r == is_regex_kind(kind@),
{
    if kind.unicode_len() != 5 {
        return false;
    }
    let c0 = kind.get_char(0);
    let c1 = kind.get_char(1);
    let c2 = kind.get_char(2);
    let c3 = kind.get_char(3);
    let c4 = kind.get_char(4);
    (c0 == 'r' || c0 == 'R') && (c1 == 'e' || c1 == 'E') && (c2 == 'g' || c2 == 'G') && (c3 == 'e'
        || c3 == 'E') && (c4 == 'x' || c4 == 'X')
}

/// Strips one leading and one trailing slash from a selector.
pub fn strip_selector(selector: &str) -> (source: &str)
    ensures
        source@ == stripped_selector(selector@),
{
    let len: usize = selector.unicode_len();
    let mut from: usize = 0;
    let mut to: usize = len;
    if len > 0 && selector.get_char(0) == '/' {
        from = 1;
    }
    if to > from && selector.get_char(to - 1) == '/' {
        to = to - 1;
    }
    let source = selector.substring_char(from, to);
    proof {
        let tail = selector@.subrange(from as int, len as int);
        assert(from == 1 ==> tail =~= selector@.drop_first());
        assert(from == 0 ==> tail =~= selector@);
        assert(to < len ==> source@ =~= tail.drop_last());
        assert(to == len ==> source@ =~= tail);
    }
    source
}

/// The text of a path that a selector is tested on.
pub fn comparison_text<'a>(selector: &str, path: &'a str) -> (text: &'a str)
    ensures
        text@ == compared_text(selector@, path@),
{
    if selector.unicode_len() > 0 && selector.get_char(0) == '.' {
        return path;
    }
    let len: usize = path.unicode_len();
    if len >= 2 && path.get_char(0) == '.' && path.get_char(1) == '/' {
        path.substring_char(2, len)
    } else {
        path
    }
}

/// Tests whether a selector, given by its stripped text, selects a path.
pub fn path_selected(selector: &str, path: &str) -> (r: bool)
    ensures
        r == selects(selector@, path@),
{
    engine_test(selector, comparison_text(selector, path))
}

} // verus!
