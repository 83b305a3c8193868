//! Texts as UTF-8 byte sequences: cutting, searching and replacing by byte
//! offset, with the proofs that every cut falls on a character boundary.

use vstd::prelude::*;
use vstd::utf8::*;

verus! {

/// The UTF-8 bytes of a text. Contracts speak of texts through their bytes,
/// because spans are byte offsets.
pub open spec fn bytes_of(s: Seq<char>) -> Seq<u8> {
    encode_utf8(s)
}

/// Two texts with the same bytes are the same text.
pub proof fn lemma_bytes_determine_text(a: Seq<char>, b: Seq<char>)
    requires
        bytes_of(a) == bytes_of(b),
    ensures
        a == b,
{
    encode_utf8_decode_utf8(a);
    encode_utf8_decode_utf8(b);
}

/// The bytes of a concatenation are the concatenation of the bytes.
pub(crate) proof fn lemma_bytes_of_concat(a: Seq<char>, b: Seq<char>)
    ensures
        bytes_of(a + b) == bytes_of(a) + bytes_of(b),
    decreases a.len(),
{
    if a.len() == 0 {
    } else {
        lemma_bytes_of_concat(a.drop_first(), b);
        assert((a + b).drop_first() =~= a.drop_first() + b);
    }
}

/// In valid UTF-8, a valid piece that starts on a character boundary ends
/// on one.
pub(crate) proof fn lemma_piece_boundaries(text: Seq<u8>, from: int, to: int)
    requires
        valid_utf8(text),
        0 <= from <= to <= text.len(),
        is_char_boundary(text, from),
        valid_utf8(text.subrange(from, to)),
    ensures
        is_char_boundary(text, to),
{
    if to == text.len() {
        is_char_boundary_start_end_of_seq(text);
    } else {
        let tail = text.subrange(from, text.len() as int);
        valid_utf8_split(text, from);
        assert(tail.subrange(0, to - from) =~= text.subrange(from, to));
        let rest = tail.subrange(to - from, tail.len() as int);
        if !valid_utf8(rest) {
            partial_valid_partial_invalid_utf8(tail, to - from);
        }
        is_char_boundary_iff_not_is_continuation_byte(text, to);
    }
}

/// In valid UTF-8, a byte that is no continuation byte starts a character.
pub(crate) proof fn lemma_boundary_at(text: Seq<u8>, at: int)
    requires
        valid_utf8(text),
        0 <= at <= text.len(),
        at < text.len() ==> !is_continuation_byte(text[at]),
    ensures
        is_char_boundary(text, at),
{
    if at == text.len() {
        is_char_boundary_start_end_of_seq(text);
    } else {
        is_char_boundary_iff_not_is_continuation_byte(text, at);
    }
}

/// The piece of a text between two character boundaries.
pub(crate) fn slice_text<'a>(text: &'a str, from: usize, to: usize) -> (piece: &'a str)
    requires
        from <= to <= bytes_of(text@).len(),
        is_char_boundary(bytes_of(text@), from as int),
        is_char_boundary(bytes_of(text@), to as int),
    ensures
        bytes_of(piece@) == bytes_of(text@).subrange(from as int, to as int),
{
    let ghost all = bytes_of(text@);
    proof {
        encode_utf8_valid_utf8(text@);
    }
    let (head, _) = text.split_at(to);
    proof {
        let h = bytes_of(head@);
        encode_utf8_valid_utf8(head@);
        if from < to {
            is_char_boundary_iff_not_is_continuation_byte(all, from as int);
        }
        lemma_boundary_at(h, from as int);
    }
    let (_, piece) = head.split_at(from);
    piece
}

/// Appends a piece to a text under construction.
pub(crate) fn push_text(out: &mut String, piece: &str)
    ensures
        bytes_of(final(out)@) == bytes_of(old(out)@) + bytes_of(piece@),
{
    proof {
        lemma_bytes_of_concat(out@, piece@);
    }
    out.append(piece);
}

/// Whether `pattern` stands in `text` at byte offset `at`.
pub open spec fn occurs_at(text: Seq<u8>, pattern: Seq<u8>, at: int) -> bool {
    &&& 0 <= at
    &&& at + pattern.len() <= text.len()
    &&& text.subrange(at, at + pattern.len()) == pattern
}

/// The first offset at or after `from` at which `pattern` stands in `text`.
pub open spec fn occurrence_from(text: Seq<u8>, pattern: Seq<u8>, from: int) -> Option<int>
    decreases text.len() + 1 - from,
{
    if from < 0 || from + pattern.len() > text.len() {
        None
    } else if occurs_at(text, pattern, from) {
        Some(from)
    } else {
        occurrence_from(text, pattern, from + 1)
    }
}

/// The offset of the first occurrence of `pattern` in `text`.
pub open spec fn first_occurrence(text: Seq<u8>, pattern: Seq<u8>) -> Option<int> {
    occurrence_from(text, pattern, 0)
}

proof fn lemma_occurrence_from(text: Seq<u8>, pattern: Seq<u8>, from: int)
    requires
        0 <= from,
    ensures
        match occurrence_from(text, pattern, from) {
            Some(at) => from <= at && occurs_at(text, pattern, at) && forall|j: int|
                from <= j < at ==> !occurs_at(text, pattern, j),
            None => forall|j: int| from <= j ==> !occurs_at(text, pattern, j),
        },
    decreases text.len() + 1 - from,
{
    if from + pattern.len() > text.len() {
    } else if occurs_at(text, pattern, from) {
    } else {
        lemma_occurrence_from(text, pattern, from + 1);
    }
}

/// `first_occurrence` is the least offset at which the pattern stands, and
/// is absent exactly when the pattern stands nowhere.
pub proof fn lemma_first_occurrence(text: Seq<u8>, pattern: Seq<u8>)
    ensures
        match first_occurrence(text, pattern) {
            Some(at) => occurs_at(text, pattern, at) && forall|j: int|
                0 <= j < at ==> !occurs_at(text, pattern, j),
            None => forall|j: int| !occurs_at(text, pattern, j),
        },
{
    lemma_occurrence_from(text, pattern, 0);
}

/// Tests whether `pattern` stands in `text` at `at`.
pub fn matches_at(text: &[u8], pattern: &[u8], at: usize) -> (r: bool)
    ensures
        r == occurs_at(text@, pattern@, at as int),
{
    let n: usize = pattern.len();
    if at > text.len() || n > text.len() - at {
        return false;
    }
    let mut k: usize = 0;
    while k < n
        invariant
            k <= n,
            n == pattern@.len(),
            at + n <= text@.len() <= usize::MAX,
            forall|j: int| 0 <= j < k ==> text@[at + j] == pattern@[j],
        decreases n - k,
    {
        if text[at + k] != pattern[k] {
            return false;
        }
        k += 1;
    }
    proof {
        assert(text@.subrange(at as int, at + n) =~= pattern@);
    }
    true
}

/// Finds the first occurrence of `pattern` in `text`, by byte offset.
pub fn find_bytes(text: &[u8], pattern: &[u8]) -> (r: Option<usize>)
    ensures
        match r {
            Some(at) => first_occurrence(text@, pattern@) == Some(at as int),
            None => first_occurrence(text@, pattern@) is None,
        },
{
    let n: usize = pattern.len();
    if n > text.len() {
        return None;
    }
    let last: usize = text.len() - n;
    let mut i: usize = 0;
    loop
        invariant
            i <= last,
            last + n == text@.len(),
            n == pattern@.len(),
            first_occurrence(text@, pattern@) == occurrence_from(text@, pattern@, i as int),
        decreases last - i,
    {
        if matches_at(text, pattern, i) {
            return Some(i);
        }
        if i == last {
            assert(occurrence_from(text@, pattern@, i + 1) is None);
            return None;
        }
        i += 1;
    }
}

/// A text with `with` put in at every character boundary, both ends
/// included: what replacing the empty text yields.
pub open spec fn interleaved(text: Seq<u8>, with: Seq<u8>) -> Seq<u8>
    decreases text.len(),
{
    if text.len() == 0 {
        with
    } else if is_continuation_byte(text[0]) {
        seq![text[0]] + interleaved(text.drop_first(), with)
    } else {
        with + seq![text[0]] + interleaved(text.drop_first(), with)
    }
}

/// A text with every occurrence of `needle` replaced by `with`, the
/// occurrences taken from the left and not overlapping.
pub open spec fn replaced(text: Seq<u8>, needle: Seq<u8>, with: Seq<u8>) -> Seq<u8>
    decreases text.len(),
{
    if needle.len() == 0 {
        interleaved(text, with)
    } else if text.len() < needle.len() {
        text
    } else if text.subrange(0, needle.len() as int) == needle {
        with + replaced(text.subrange(needle.len() as int, text.len() as int), needle, with)
    } else {
        seq![text[0]] + replaced(text.drop_first(), needle, with)
    }
}

/// Putting nothing in at every character boundary leaves a text as it is.
proof fn lemma_interleave_nothing(text: Seq<u8>)
    ensures
        interleaved(text, Seq::empty()) == text,
    decreases text.len(),
{
    if text.len() > 0 {
        lemma_interleave_nothing(text.drop_first());
    }
}

/// Replacing a needle by itself leaves a text as it is.
pub proof fn lemma_replace_by_itself(text: Seq<u8>, needle: Seq<u8>)
    ensures
        replaced(text, needle, needle) == text,
    decreases text.len(),
{
    if needle.len() == 0 {
        lemma_interleave_nothing(text);
        assert(needle =~= Seq::<u8>::empty());
    } else if text.len() < needle.len() {
    } else if text.subrange(0, needle.len() as int) == needle {
        let rest = text.subrange(needle.len() as int, text.len() as int);
        lemma_replace_by_itself(rest, needle);
    } else {
        lemma_replace_by_itself(text.drop_first(), needle);
    }
}

/// An occurrence of a whole text inside another starts and ends on
/// character boundaries.
proof fn lemma_occurrence_boundaries(text: Seq<char>, needle: Seq<char>, at: int)
    requires
        bytes_of(needle).len() > 0,
        occurs_at(bytes_of(text), bytes_of(needle), at),
    ensures
        is_char_boundary(bytes_of(text), at),
        is_char_boundary(bytes_of(text), at + bytes_of(needle).len()),
{
    let t = bytes_of(text);
    let n = bytes_of(needle);
    encode_utf8_valid_utf8(text);
    encode_utf8_valid_utf8(needle);
    lemma_boundary_at(t, at);
    lemma_piece_boundaries(t, at, at + n.len());
}

fn interleave(text: &str, with: &str) -> (out: String)
    ensures
        bytes_of(out@) == interleaved(bytes_of(text@), bytes_of(with@)),
{
    let t = text.as_bytes();
    let len: usize = t.len();
    let mut out = String::new();
    let mut seg: usize = 0;
    let mut i: usize = 0;
    proof {
        encode_utf8_valid_utf8(text@);
        is_char_boundary_start_end_of_seq(t@);
        assert(t@.subrange(0, len as int) =~= t@);
    }
    while i < len
        invariant
            seg <= i <= len,
            len == t@.len(),
            t@ == bytes_of(text@),
            valid_utf8(t@),
            is_char_boundary(t@, seg as int),
            interleaved(t@, bytes_of(with@)) == bytes_of(out@) + t@.subrange(seg as int, i as int)
                + interleaved(t@.subrange(i as int, len as int), bytes_of(with@)),
        decreases len - i,
    {
        let ghost rest = t@.subrange(i as int, len as int);
        proof {
            assert(rest.drop_first() =~= t@.subrange(i + 1, len as int));
        }
        let b: u8 = t[i];
        if !(b >= 0x80 && b <= 0xbf) {
            proof {
                lemma_boundary_at(t@, i as int);
            }
            let piece = slice_text(text, seg, i);
            push_text(&mut out, piece);
            push_text(&mut out, with);
            seg = i;
        }
        i += 1;
    }
    proof {
        is_char_boundary_start_end_of_seq(t@);
    }
    let piece = slice_text(text, seg, len);
    push_text(&mut out, piece);
    push_text(&mut out, with);
    out
}

/// Replaces every occurrence of `needle` in `text` by `with`. An empty
/// needle is found at every character boundary.
pub fn replace_all(text: &str, needle: &str, with: &str) -> (out: String)
    ensures
        bytes_of(out@) == replaced(bytes_of(text@), bytes_of(needle@), bytes_of(with@)),
{
    let t = text.as_bytes();
    let n = needle.as_bytes();
    let len: usize = t.len();
    let width: usize = n.len();
    if width == 0 {
        return interleave(text, with);
    }
    let mut out = String::new();
    let mut seg: usize = 0;
    let mut i: usize = 0;
    proof {
        encode_utf8_valid_utf8(text@);
        is_char_boundary_start_end_of_seq(t@);
        assert(t@.subrange(0, len as int) =~= t@);
    }
    while i < len && width <= len - i
        invariant
            seg <= i <= len,
            len == t@.len(),
            width == n@.len(),
            width > 0,
            t@ == bytes_of(text@),
            n@ == bytes_of(needle@),
            is_char_boundary(t@, seg as int),
            replaced(t@, n@, bytes_of(with@)) == bytes_of(out@) + t@.subrange(seg as int, i as int)
                + replaced(t@.subrange(i as int, len as int), n@, bytes_of(with@)),
        decreases len - i,
    {
        let ghost rest = t@.subrange(i as int, len as int);
        proof {
            assert(rest.subrange(0, width as int) =~= t@.subrange(i as int, i + width));
        }
        if matches_at(t, n, i) {
            proof {
                lemma_occurrence_boundaries(text@, needle@, i as int);
                assert(rest.subrange(width as int, rest.len() as int) =~= t@.subrange(
                    i + width,
                    len as int,
                ));
            }
            let piece = slice_text(text, seg, i);
            push_text(&mut out, piece);
            push_text(&mut out, with);
            i += width;
            seg = i;
        } else {
            proof {
                assert(rest.drop_first() =~= t@.subrange(i + 1, len as int));
            }
            i += 1;
        }
    }
    proof {
        is_char_boundary_start_end_of_seq(t@);
    }
    let piece = slice_text(text, seg, len);
    push_text(&mut out, piece);
    out
}

/// A text with the bytes from `from` up to `to` replaced by `with`.
pub open spec fn spliced(text: Seq<u8>, from: int, to: int, with: Seq<u8>) -> Seq<u8> {
    text.subrange(0, from) + with + text.subrange(to, text.len() as int)
}

/// Replacing a piece by itself leaves a text as it is.
pub proof fn lemma_splice_by_itself(text: Seq<u8>, from: int, to: int)
    requires
        0 <= from <= to <= text.len(),
    ensures
        spliced(text, from, to, text.subrange(from, to)) == text,
{
}

/// Replaces the piece between two character boundaries by `with`.
pub(crate) fn splice(text: &str, from: usize, to: usize, with: &str) -> (out: String)
    requires
        from <= to <= bytes_of(text@).len(),
        is_char_boundary(bytes_of(text@), from as int),
        is_char_boundary(bytes_of(text@), to as int),
    ensures
        bytes_of(out@) == spliced(bytes_of(text@), from as int, to as int, bytes_of(with@)),
{
    proof {
        encode_utf8_valid_utf8(text@);
        is_char_boundary_start_end_of_seq(bytes_of(text@));
    }
    let mut out = String::new();
    let head = slice_text(text, 0, from);
    let tail = slice_text(text, to, text.as_bytes().len());
    push_text(&mut out, head);
    push_text(&mut out, with);
    push_text(&mut out, tail);
    out
}

} // verus!
