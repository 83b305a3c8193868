//! Locating a named group in the source text of its pattern: the byte range
//! of the whole parenthesised construct that holds the group's name tag.

use crate::text::bytes_of;
use crate::text::find_bytes;
use crate::text::first_occurrence;
use crate::text::slice_text;
use crate::text::splice;
use crate::text::spliced;
use vstd::prelude::*;
use vstd::utf8::*;

verus! {

/// The byte `(`.
pub const PAREN_OPEN: u8 = 0x28;

/// The byte `)`.
pub const PAREN_CLOSE: u8 = 0x29;

/// The byte `<`.
pub const TAG_OPEN: u8 = 0x3c;

/// The byte `>`.
pub const TAG_CLOSE: u8 = 0x3e;

/// A half-open byte range `[start, end)` into a text.
#[derive(Clone, Copy, Debug, PartialEq, Eq, Structural)]
pub struct Span {
    pub start: usize,
    pub end: usize,
}

/// Why a group could not be located in a pattern text.
#[derive(Clone, Copy, Debug, PartialEq, Eq, Structural)]
pub enum LocateError {
    /// The name tag `<name>` stands nowhere in the text.
    MissingTag,
    /// No `(` stands before the name tag.
    MissingOpen,
    /// No `)` stands after the opening parenthesis.
    Unclosed,
}

/// The tag by which a pattern names a group: the name in angle brackets.
pub open spec fn name_tag(name: Seq<u8>) -> Seq<u8> {
    seq![TAG_OPEN] + name + seq![TAG_CLOSE]
}

/// The offset of the last `(` before `limit`.
pub open spec fn last_open_before(text: Seq<u8>, limit: int) -> Option<int>
    decreases limit,
{
    if limit <= 0 {
        None
    } else if text[limit - 1] == PAREN_OPEN {
        Some(limit - 1)
    } else {
        last_open_before(text, limit - 1)
    }
}

/// What a byte adds to the count of open parentheses.
pub open spec fn paren_step(byte: u8) -> int {
    if byte == PAREN_OPEN {
        1
    } else if byte == PAREN_CLOSE {
        -1
    } else {
        0
    }
}

/// The count of parentheses opened and not closed within `[from, to)`.
/// Every `(` and `)` counts, escaped or not.
pub open spec fn depth_between(text: Seq<u8>, from: int, to: int) -> int
    decreases to - from,
{
    if to <= from {
        0
    } else {
        depth_between(text, from, to - 1) + paren_step(text[to - 1])
    }
}

/// The least end, not before `from`, at which all that was opened since
/// `start` is closed.
pub open spec fn balanced_end(text: Seq<u8>, start: int, from: int) -> Option<int>
    decreases text.len() + 1 - from,
{
    if from > text.len() {
        None
    } else if depth_between(text, start, from) == 0 {
        Some(from)
    } else {
        balanced_end(text, start, from + 1)
    }
}

/// The end just after the last `)` that stands after `start` and before
/// `limit`.
pub open spec fn last_close_end(text: Seq<u8>, start: int, limit: int) -> Option<int>
    decreases limit - start,
{
    if limit <= start + 1 {
        None
    } else if text[limit - 1] == PAREN_CLOSE {
        Some(limit)
    } else {
        last_close_end(text, start, limit - 1)
    }
}

/// Where the construct opened at `start` ends: just after the `)` that
/// closes it, or, where the text ends before that, just after the last `)`
/// of the text.
pub open spec fn group_end(text: Seq<u8>, start: int) -> Option<int> {
    match balanced_end(text, start, start + 1) {
        Some(end) => Some(end),
        None => last_close_end(text, start, text.len() as int),
    }
}

/// The span of the group `name` in a pattern text: from the last `(`
/// before the first occurrence of the name tag to the end of that construct.
pub open spec fn group_span(text: Seq<u8>, name: Seq<u8>) -> Result<Span, LocateError> {
    match first_occurrence(text, name_tag(name)) {
        None => Err(LocateError::MissingTag),
        Some(tag) => match last_open_before(text, tag) {
            None => Err(LocateError::MissingOpen),
            Some(start) => match group_end(text, start) {
                None => Err(LocateError::Unclosed),
                Some(end) => Ok(Span { start: start as usize, end: end as usize }),
            },
        },
    }
}

/// Finds the last `(` before `limit`.
fn find_last_open(text: &[u8], limit: usize) -> (r: Option<usize>)
    requires
        limit <= text@.len(),
    ensures
        match r {
            Some(at) => last_open_before(text@, limit as int) == Some(at as int) && at < limit
                && text@[at as int] == PAREN_OPEN,
            None => last_open_before(text@, limit as int) is None,
        },
{
    let mut i: usize = limit;
    while i > 0
        invariant
            i <= limit <= text@.len(),
            last_open_before(text@, limit as int) == last_open_before(text@, i as int),
        decreases i,
    {
        if text[i - 1] == PAREN_OPEN {
            return Some(i - 1);
        }
        i -= 1;
    }
    None
}

/// Finds the end of the construct opened at `start`.
fn find_group_end(text: &[u8], start: usize) -> (r: Option<usize>)
    requires
        start < text@.len(),
        text@[start as int] == PAREN_OPEN,
    ensures
        match r {
            Some(end) => group_end(text@, start as int) == Some(end as int) && start < end
                <= text@.len() && text@[end - 1] == PAREN_CLOSE,
            None => group_end(text@, start as int) is None,
        },
{
    let len: usize = text.len();
    let mut depth: usize = 1;
    let mut last: Option<usize> = None;
    let mut i: usize = start + 1;
    assert(depth_between(text@, start as int, start + 1) == 1) by {
        assert(depth_between(text@, start as int, start as int) == 0);
    }
    while i < len
        invariant
            start < i <= len,
            len == text@.len(),
            depth == depth_between(text@, start as int, i as int),
            0 < depth <= i - start,
            balanced_end(text@, start as int, start + 1) == balanced_end(
                text@,
                start as int,
                i as int,
            ),
            match last {
                Some(end) => last_close_end(text@, start as int, i as int) == Some(end as int)
                    && start < end <= i && text@[end - 1] == PAREN_CLOSE,
                None => last_close_end(text@, start as int, i as int) is None,
            },
        decreases len - i,
    {
        let byte: u8 = text[i];
        if byte == PAREN_OPEN {
            depth += 1;
        } else if byte == PAREN_CLOSE {
            depth -= 1;
            last = Some(i + 1);
            if depth == 0 {
                return Some(i + 1);
            }
        }
        i += 1;
    }
    assert(balanced_end(text@, start as int, len + 1) is None);
    last
}

/// Locates the group `name` in a pattern text.
///
/// The name tag `<name>` is searched from the left; the last `(` before it
/// opens the group; the construct runs to the `)` that closes it, every
/// `(` and `)` in between counted, escaped or not. Where the text ends
/// before the construct is closed, the span ends after the last `)`.
pub fn locate_group(pattern: &str, name: &str) -> (r: Result<Span, LocateError>)
    ensures
        r == group_span(bytes_of(pattern@), bytes_of(name@)),
        r matches Ok(span) ==> {
            &&& span.start < span.end <= bytes_of(pattern@).len()
            &&& bytes_of(pattern@)[span.start as int] == PAREN_OPEN
            &&& bytes_of(pattern@)[span.end - 1] == PAREN_CLOSE
        },
{
    let text = pattern.as_bytes();
    let mut tag: Vec<u8> = Vec::new();
    tag.push(TAG_OPEN);
    tag.extend_from_slice(name.as_bytes());
    tag.push(TAG_CLOSE);
    assert(tag@ =~= name_tag(bytes_of(name@)));
    let at = match find_bytes(text, tag.as_slice()) {
        None => {
            return Err(LocateError::MissingTag);
        },
        Some(at) => at,
    };
    proof {
        crate::text::lemma_first_occurrence(text@, tag@);
    }
    let start = match find_last_open(text, at) {
        None => {
            return Err(LocateError::MissingOpen);
        },
        Some(start) => start,
    };
    match find_group_end(text, start) {
        None => Err(LocateError::Unclosed),
        Some(end) => Ok(Span { start, end }),
    }
}

/// Whether a span lies within a text and cuts no character in two.
pub open spec fn span_fits(text: Seq<u8>, span: Span) -> bool {
    &&& span.start <= span.end <= text.len()
    &&& is_char_boundary(text, span.start as int)
    &&& is_char_boundary(text, span.end as int)
}

/// Tests whether a span lies within a text and cuts no character in two.
pub fn fits(text: &str, span: Span) -> (r: bool)
    ensures
        r == span_fits(bytes_of(text@), span),
{
    span.start <= span.end && span.end <= text.as_bytes().len() && text.is_char_boundary(
        span.start,
    ) && text.is_char_boundary(span.end)
}

/// The piece of a text that a span covers; absent where the span does not
/// fit the text.
pub fn span_text<'a>(text: &'a str, span: Span) -> (piece: Option<&'a str>)
    ensures
        match piece {
            Some(piece) => span_fits(bytes_of(text@), span) && bytes_of(piece@) == bytes_of(
                text@,
            ).subrange(span.start as int, span.end as int),
            None => !span_fits(bytes_of(text@), span),
        },
{
    if fits(text, span) {
        Some(slice_text(text, span.start, span.end))
    } else {
        None
    }
}

/// A text with the piece that a span covers replaced by `with`; absent
/// where the span does not fit the text.
pub fn replace_span(text: &str, span: Span, with: &str) -> (out: Option<String>)
    ensures
        match out {
            Some(out) => span_fits(bytes_of(text@), span) && bytes_of(out@) == spliced(
                bytes_of(text@),
                span.start as int,
                span.end as int,
                bytes_of(with@),
            ),
            None => !span_fits(bytes_of(text@), span),
        },
{
    if fits(text, span) {
        Some(splice(text, span.start, span.end, with))
    } else {
        None
    }
}

/// A span that starts at a `(` and ends after a `)` fits its text.
pub proof fn lemma_construct_fits(text: Seq<char>, span: Span)
    requires
        span.start < span.end <= bytes_of(text).len(),
        bytes_of(text)[span.start as int] == PAREN_OPEN,
        bytes_of(text)[span.end - 1] == PAREN_CLOSE,
    ensures
        span_fits(bytes_of(text), span),
{
    let bytes = bytes_of(text);
    encode_utf8_valid_utf8(text);
    crate::text::lemma_boundary_at(bytes, span.start as int);
    crate::text::lemma_boundary_at(bytes, span.end - 1);
    let closing = bytes.subrange(span.end - 1, span.end as int);
    partial_valid_utf8_extend_ascii_block(closing, 0, 1);
    assert(closing.subrange(0, 1) =~= closing);
    crate::text::lemma_piece_boundaries(bytes, span.end - 1, span.end as int);
}

/// The span of a group fits the text it was located in.
pub proof fn lemma_group_span_fits(text: Seq<char>, name: Seq<u8>, span: Span)
    requires
        bytes_of(text).len() <= usize::MAX,
        group_span(bytes_of(text), name) == Ok::<Span, LocateError>(span),
    ensures
        span_fits(bytes_of(text), span),
{
    lemma_span_is_one_construct(bytes_of(text), name, span);
    lemma_construct_fits(text, span);
}

/// `last_open_before` is the greatest offset below `limit` that holds `(`,
/// and is absent exactly when none does.
pub proof fn lemma_last_open_before(text: Seq<u8>, limit: int)
    ensures
        match last_open_before(text, limit) {
            Some(at) => 0 <= at < limit && text[at] == PAREN_OPEN && forall|j: int|
                at < j < limit ==> text[j] != PAREN_OPEN,
            None => forall|j: int| 0 <= j < limit ==> text[j] != PAREN_OPEN,
        },
    decreases limit,
{
    if limit > 0 && text[limit - 1] != PAREN_OPEN {
        lemma_last_open_before(text, limit - 1);
    }
}

/// `balanced_end` is the least end from `from` on at which the depth since
/// `start` is zero, and is absent exactly when there is none in the text.
pub proof fn lemma_balanced_end(text: Seq<u8>, start: int, from: int)
    ensures
        match balanced_end(text, start, from) {
            Some(end) => from <= end <= text.len() && depth_between(text, start, end) == 0
                && forall|k: int| from <= k < end ==> depth_between(text, start, k) != 0,
            None => forall|k: int|
                from <= k <= text.len() ==> depth_between(text, start, k) != 0,
        },
    decreases text.len() + 1 - from,
{
    if from <= text.len() && depth_between(text, start, from) != 0 {
        lemma_balanced_end(text, start, from + 1);
    }
}

/// A depth that starts at one and never is zero stays positive.
proof fn lemma_depth_stays_positive(text: Seq<u8>, start: int, to: int)
    requires
        start < to,
        text[start] == PAREN_OPEN,
        forall|k: int| start < k <= to ==> depth_between(text, start, k) != 0,
    ensures
        depth_between(text, start, to) > 0,
    decreases to - start,
{
    if to == start + 1 {
        assert(depth_between(text, start, start) == 0);
    } else {
        lemma_depth_stays_positive(text, start, to - 1);
    }
}

/// The span of a group starts at a `(` and ends after a `)`. Where the
/// parentheses after that `(` balance within the text, the span is exactly
/// one balanced construct: the depth is positive inside it and zero at its
/// end.
pub proof fn lemma_span_is_one_construct(text: Seq<u8>, name: Seq<u8>, span: Span)
    requires
        text.len() <= usize::MAX,
        group_span(text, name) == Ok::<Span, LocateError>(span),
    ensures
        span.start < span.end <= text.len(),
        text[span.start as int] == PAREN_OPEN,
        text[span.end - 1] == PAREN_CLOSE,
        balanced_end(text, span.start as int, span.start + 1) is Some ==> {
            &&& depth_between(text, span.start as int, span.end as int) == 0
            &&& forall|k: int|
                span.start < k < span.end ==> depth_between(text, span.start as int, k) > 0
        },
{
    let tag = first_occurrence(text, name_tag(name))->0;
    crate::text::lemma_first_occurrence(text, name_tag(name));
    lemma_last_open_before(text, tag);
    let start = last_open_before(text, tag)->0;
    lemma_balanced_end(text, start, start + 1);
    assert(depth_between(text, start, start + 1) == 1) by {
        assert(depth_between(text, start, start) == 0);
    }
    match balanced_end(text, start, start + 1) {
        Some(end) => {
            assert forall|k: int| start < k < end implies depth_between(text, start, k) > 0 by {
                lemma_depth_stays_positive(text, start, k);
            }
            assert(depth_between(text, start, end - 1) > 0);
        },
        None => {
            lemma_last_close_end(text, start, text.len() as int);
        },
    }
}

/// `last_close_end` lies after `start`, within `limit`, just behind a `)`.
proof fn lemma_last_close_end(text: Seq<u8>, start: int, limit: int)
    ensures
        last_close_end(text, start, limit) matches Some(end) ==> start + 1 < end <= limit
            && text[end - 1] == PAREN_CLOSE,
    decreases limit - start,
{
    if limit > start + 1 && text[limit - 1] != PAREN_CLOSE {
        lemma_last_close_end(text, start, limit - 1);
    }
}

} // verus!
