//! The highlight renderer: the pattern with each captured group in its
//! color, the match with each captured value in its color, and one line per
//! capture.

use crate::capture::Cap;
use crate::capture::CapModel;
use crate::palette::color_slot;
use crate::palette::ColorSlot;
use crate::palette::paint;
use crate::palette::slot_at;
use crate::palette::tinted;
use crate::span::fits;
use crate::span::group_span;
use crate::span::lemma_construct_fits;
use crate::span::locate_group;
use crate::span::LocateError;
use crate::span::Span;
use crate::span::span_fits;
use crate::span::TAG_CLOSE;
use crate::span::TAG_OPEN;
use crate::text::bytes_of;
use crate::text::push_text;
use crate::text::replace_all;
use crate::text::replaced;
use crate::text::slice_text;
use crate::text::splice;
use crate::text::spliced;
use vstd::prelude::*;
use vstd::utf8::is_ascii_chars_encode_utf8;

verus! {

/// The three products of the renderer.
#[derive(Clone, Debug, PartialEq, Eq)]
pub struct Rendered {
    /// The pattern's source text, annotated.
    pub pattern: String,
    /// The matched text, annotated.
    pub matched: String,
    /// One line per capture, in capture order.
    pub lines: Vec<String>,
}

/// The mathematical value of a `Rendered`: each text by its bytes.
pub struct RenderModel {
    pub pattern: Seq<u8>,
    pub matched: Seq<u8>,
    pub lines: Seq<Seq<u8>>,
}

/// The bytes of each of a list of texts.
pub open spec fn bytes_of_each(texts: Seq<String>) -> Seq<Seq<u8>> {
    Seq::new(texts.len(), |i: int| bytes_of(texts[i]@))
}

impl View for Rendered {
    type V = RenderModel;

    open spec fn view(&self) -> RenderModel {
        RenderModel {
            pattern: bytes_of(self.pattern@),
            matched: bytes_of(self.matched@),
            lines: bytes_of_each(self.lines@),
        }
    }
}

/// The mathematical value of what `render` returns.
pub open spec fn outcome_of(r: Result<Rendered, LocateError>) -> Result<RenderModel, LocateError> {
    match r {
        Ok(rendered) => Ok(rendered@),
        Err(cause) => Err(cause),
    }
}

/// For one capture, which of its three painted texts came back in color.
pub struct Tint {
    pub name: bool,
    pub value: bool,
    pub group: bool,
}

/// The line of one capture: `<name>: value`.
pub open spec fn line_of(name: Seq<u8>, value: Seq<u8>) -> Seq<u8> {
    seq![TAG_OPEN] + name + seq![TAG_CLOSE, 0x3au8, 0x20u8] + value
}

/// The rendering without colors: pattern and match as they are, and the
/// plain line of each capture.
pub open spec fn plain_rendering(
    pattern: Seq<u8>,
    matched: Seq<u8>,
    captures: Seq<CapModel>,
) -> RenderModel {
    RenderModel {
        pattern,
        matched,
        lines: Seq::new(
            captures.len(),
            |i: int| line_of(bytes_of(captures[i].name), bytes_of(captures[i].value)),
        ),
    }
}

/// The three texts of one capture as the painter handed them back: its
/// name, its value, and its group as it stood in the pattern text.
#[derive(Clone, Debug, PartialEq, Eq)]
pub struct Painted {
    pub name: String,
    pub value: String,
    pub group: String,
}

/// The mathematical value of a `Painted`: each text by its bytes.
pub struct PaintedModel {
    pub name: Seq<u8>,
    pub value: Seq<u8>,
    pub group: Seq<u8>,
}

impl View for Painted {
    type V = PaintedModel;

    open spec fn view(&self) -> PaintedModel {
        PaintedModel {
            name: bytes_of(self.name@),
            value: bytes_of(self.value@),
            group: bytes_of(self.group@),
        }
    }
}

/// What one capture adds to a rendering, given the span of its group and
/// its painted texts.
///
/// In the pattern text the span is replaced by the painted group. In the
/// match text every occurrence of the capture's value is replaced by the
/// painted value. The line is made of the painted name and the painted
/// value.
pub open spec fn annotated(
    state: RenderModel,
    value: Seq<u8>,
    span: Span,
    painted: PaintedModel,
) -> RenderModel {
    RenderModel {
        pattern: spliced(state.pattern, span.start as int, span.end as int, painted.group),
        matched: replaced(state.matched, value, painted.value),
        lines: state.lines.push(line_of(painted.name, painted.value)),
    }
}

/// The texts of a capture as the painter hands them back for a color.
pub open spec fn painted_texts(
    pattern: Seq<u8>,
    capture: CapModel,
    span: Span,
    slot: ColorSlot,
    tint: Tint,
) -> PaintedModel {
    PaintedModel {
        name: tinted(bytes_of(capture.name), slot, tint.name),
        value: tinted(bytes_of(capture.value), slot, tint.value),
        group: tinted(pattern.subrange(span.start as int, span.end as int), slot, tint.group),
    }
}

/// What one capture adds to a rendering in colors: its group is located in
/// the pattern text as annotated so far, and the rendering is annotated
/// with the capture's texts as painted in its color.
pub open spec fn painted_step(
    state: RenderModel,
    capture: CapModel,
    slot: ColorSlot,
    tint: Tint,
) -> Result<RenderModel, LocateError> {
    match group_span(state.pattern, bytes_of(capture.name)) {
        Err(cause) => Err(cause),
        Ok(span) => Ok(
            annotated(
                state,
                bytes_of(capture.value),
                span,
                painted_texts(state.pattern, capture, span, slot, tint),
            ),
        ),
    }
}

/// The rendering in colors: the captures taken one after another, each in
/// the color of its position, the first failure to locate a group ending
/// it.
pub open spec fn painted_rendering(
    pattern: Seq<u8>,
    matched: Seq<u8>,
    captures: Seq<CapModel>,
    tints: Seq<Tint>,
) -> Result<RenderModel, LocateError>
    decreases captures.len(),
{
    if captures.len() == 0 {
        Ok(RenderModel { pattern, matched, lines: Seq::empty() })
    } else {
        match painted_rendering(pattern, matched, captures.drop_last(), tints.drop_last()) {
            Err(cause) => Err(cause),
            Ok(state) => painted_step(
                state,
                captures.last(),
                slot_at(captures.len() - 1),
                tints.last(),
            ),
        }
    }
}

/// What `render` owes: without coloring the plain rendering; with coloring
/// the rendering in colors, for some outcome of each call of the painter.
pub open spec fn rendering(
    pattern: Seq<u8>,
    matched: Seq<u8>,
    captures: Seq<CapModel>,
    coloring: bool,
    outcome: Result<RenderModel, LocateError>,
) -> bool {
    if coloring {
        exists|tints: Seq<Tint>|
            tints.len() == captures.len() && outcome == #[trigger] painted_rendering(
                pattern,
                matched,
                captures,
                tints,
            )
    } else {
        outcome == Ok::<RenderModel, LocateError>(plain_rendering(pattern, matched, captures))
    }
}

/// Once a group is not found, the rendering in colors has failed, whatever
/// captures follow.
proof fn lemma_failure_ends_rendering(
    pattern: Seq<u8>,
    matched: Seq<u8>,
    captures: Seq<CapModel>,
    tints: Seq<Tint>,
    failed: int,
    upto: int,
    cause: LocateError,
)
    requires
        0 <= failed <= upto <= captures.len(),
        tints.len() == captures.len(),
        painted_rendering(pattern, matched, captures.take(failed), tints.take(failed)) == Err::<
            RenderModel,
            LocateError,
        >(cause),
    ensures
        painted_rendering(pattern, matched, captures.take(upto), tints.take(upto)) == Err::<
            RenderModel,
            LocateError,
        >(cause),
    decreases upto - failed,
{
    if upto > failed {
        lemma_failure_ends_rendering(pattern, matched, captures, tints, failed, upto - 1, cause);
        assert(captures.take(upto).drop_last() =~= captures.take(upto - 1));
        assert(tints.take(upto).drop_last() =~= tints.take(upto - 1));
    }
}

/// A rendering in colors holds one line for each capture, in capture
/// order, and the line of the capture at a position is made of its name
/// and its value as painted in the color of that position.
pub proof fn lemma_painted_lines(
    pattern: Seq<u8>,
    matched: Seq<u8>,
    captures: Seq<CapModel>,
    tints: Seq<Tint>,
)
    requires
        tints.len() == captures.len(),
        painted_rendering(pattern, matched, captures, tints) is Ok,
    ensures
        painted_rendering(pattern, matched, captures, tints)->Ok_0.lines.len() == captures.len(),
        forall|k: int|
            0 <= k < captures.len() ==> #[trigger] painted_rendering(
                pattern,
                matched,
                captures,
                tints,
            )->Ok_0.lines[k] == line_of(
                tinted(bytes_of(captures[k].name), slot_at(k), tints[k].name),
                tinted(bytes_of(captures[k].value), slot_at(k), tints[k].value),
            ),
    decreases captures.len(),
{
    if captures.len() > 0 {
        lemma_painted_lines(pattern, matched, captures.drop_last(), tints.drop_last());
    }
}

/// Where the painter hands every text back unchanged, a rendering in
/// colors that locates every group is the plain rendering.
pub proof fn lemma_unpainted_rendering_is_plain(
    pattern: Seq<u8>,
    matched: Seq<u8>,
    captures: Seq<CapModel>,
    tints: Seq<Tint>,
)
    requires
        pattern.len() <= usize::MAX,
        tints.len() == captures.len(),
        forall|k: int|
            0 <= k < tints.len() ==> !(#[trigger] tints[k]).name && !tints[k].value
                && !tints[k].group,
        painted_rendering(pattern, matched, captures, tints) is Ok,
    ensures
        painted_rendering(pattern, matched, captures, tints) == Ok::<RenderModel, LocateError>(
            plain_rendering(pattern, matched, captures),
        ),
    decreases captures.len(),
{
    let plain = plain_rendering(pattern, matched, captures);
    if captures.len() == 0 {
        assert(plain.lines =~= Seq::<Seq<u8>>::empty());
    } else {
        let before = captures.drop_last();
        lemma_unpainted_rendering_is_plain(pattern, matched, before, tints.drop_last());
        let state = plain_rendering(pattern, matched, before);
        let last = captures.last();
        let span = group_span(pattern, bytes_of(last.name))->Ok_0;
        crate::span::lemma_span_is_one_construct(pattern, bytes_of(last.name), span);
        crate::text::lemma_splice_by_itself(pattern, span.start as int, span.end as int);
        crate::text::lemma_replace_by_itself(matched, bytes_of(last.value));
        assert(state.lines.push(line_of(bytes_of(last.name), bytes_of(last.value)))
            =~= plain.lines);
    }
}

/// Writes the line of one capture: `<name>: value`.
pub fn capture_line(name: &str, value: &str) -> (line: String)
    ensures
        bytes_of(line@) == line_of(bytes_of(name@), bytes_of(value@)),
{
    let mut line = String::new();
    proof {
        reveal_strlit("<");
        reveal_strlit(">: ");
        is_ascii_chars_encode_utf8("<"@);
        is_ascii_chars_encode_utf8(">: "@);
    }
    push_text(&mut line, "<");
    push_text(&mut line, name);
    push_text(&mut line, ">: ");
    push_text(&mut line, value);
    line
}

fn render_plain(pattern: &str, matched: &str, captures: &Vec<Cap>) -> (r: Rendered)
    ensures
        r@ == plain_rendering(bytes_of(pattern@), bytes_of(matched@), captures.deep_view()),
{
    let mut lines: Vec<String> = Vec::new();
    let mut i: usize = 0;
    while i < captures.len()
        invariant
            i <= captures.len(),
            lines@.len() == i,
            forall|k: int|
                0 <= k < i ==> bytes_of(#[trigger] lines@[k]@) == line_of(
                    bytes_of(captures@[k].name@),
                    bytes_of(captures@[k].value@),
                ),
        decreases captures.len() - i,
    {
        let capture = &captures[i];
        lines.push(capture_line(capture.name.as_str(), capture.value.as_str()));
        i += 1;
    }
    let r = Rendered { pattern: pattern.to_owned(), matched: matched.to_owned(), lines };
    assert(r@.lines =~= plain_rendering(
        bytes_of(pattern@),
        bytes_of(matched@),
        captures.deep_view(),
    ).lines);
    r
}

fn annotate_span(state: Rendered, value: &str, span: Span, painted: &Painted) -> (next: Rendered)
    requires
        span_fits(state@.pattern, span),
    ensures
        next@ == annotated(state@, bytes_of(value@), span, painted@),
{
    let ghost before = state@.lines;
    let pattern = splice(state.pattern.as_str(), span.start, span.end, painted.group.as_str());
    let matched = replace_all(state.matched.as_str(), value, painted.value.as_str());
    let line = capture_line(painted.name.as_str(), painted.value.as_str());
    let mut lines = state.lines;
    lines.push(line);
    assert(bytes_of_each(lines@) =~= before.push(bytes_of(line@)));
    Rendered { pattern, matched, lines }
}

/// Annotates a rendering with one capture, given the span of its group in
/// the pattern text and its texts as the painter handed them back. A span
/// that does not fit the pattern text annotates nothing.
pub fn annotate(state: Rendered, value: &str, span: Span, painted: &Painted) -> (next: Option<
    Rendered,
>)
    ensures
        match next {
            Some(next) => span_fits(state@.pattern, span) && next@ == annotated(
                state@,
                bytes_of(value@),
                span,
                painted@,
            ),
            None => !span_fits(state@.pattern, span),
        },
{
    if fits(state.pattern.as_str(), span) {
        Some(annotate_span(state, value, span, painted))
    } else {
        None
    }
}

/// Has the painter paint the three texts of a capture.
fn paint_capture(capture: &Cap, group: &str, slot: ColorSlot) -> (r: (Painted, Ghost<Tint>))
    ensures
        r.0@ == (PaintedModel {
            name: tinted(bytes_of(capture.name@), slot, r.1@.name),
            value: tinted(bytes_of(capture.value@), slot, r.1@.value),
            group: tinted(bytes_of(group@), slot, r.1@.group),
        }),
{
    let painted = Painted {
        name: paint(capture.name.as_str(), slot),
        value: paint(capture.value.as_str(), slot),
        group: paint(group, slot),
    };
    let ghost tint = Tint {
        name: painted@.name != bytes_of(capture.name@),
        value: painted@.value != bytes_of(capture.value@),
        group: painted@.group != bytes_of(group@),
    };
    (painted, Ghost(tint))
}

fn render_painted(pattern: &str, matched: &str, captures: &Vec<Cap>) -> (r: Result<
    Rendered,
    LocateError,
>)
    ensures
        rendering(
            bytes_of(pattern@),
            bytes_of(matched@),
            captures.deep_view(),
            true,
            outcome_of(r),
        ),
{
    let ghost all = captures.deep_view();
    let ghost blank = Tint { name: false, value: false, group: false };
    let mut state = Rendered {
        pattern: pattern.to_owned(),
        matched: matched.to_owned(),
        lines: Vec::new(),
    };
    let ghost mut tints: Seq<Tint> = Seq::empty();
    let mut i: usize = 0;
    assert(state@.lines =~= Seq::<Seq<u8>>::empty());
    while i < captures.len()
        invariant
            i <= captures.len(),
            all == captures.deep_view(),
            tints.len() == i,
            painted_rendering(bytes_of(pattern@), bytes_of(matched@), all.take(i as int), tints)
                == Ok::<RenderModel, LocateError>(state@),
        decreases captures.len() - i,
    {
        let capture = &captures[i];
        proof {
            assert(all.take(i + 1).drop_last() =~= all.take(i as int));
        }
        let span = match locate_group(state.pattern.as_str(), capture.name.as_str()) {
            Err(cause) => {
                proof {
                    let full = tints + Seq::new((captures.len() - i) as nat, |k: int| blank);
                    assert(full.take(i + 1).drop_last() =~= tints);
                    lemma_failure_ends_rendering(
                        bytes_of(pattern@),
                        bytes_of(matched@),
                        all,
                        full,
                        i + 1,
                        all.len() as int,
                        cause,
                    );
                    assert(all.take(all.len() as int) =~= all);
                }
                return Err(cause);
            },
            Ok(span) => span,
        };
        proof {
            lemma_construct_fits(state.pattern@, span);
        }
        let group = slice_text(state.pattern.as_str(), span.start, span.end);
        let (painted, Ghost(tint)) = paint_capture(capture, group, color_slot(i));
        state = annotate_span(state, capture.value.as_str(), span, &painted);
        proof {
            assert(tints.push(tint).drop_last() =~= tints);
            tints = tints.push(tint);
        }
        i += 1;
    }
    proof {
        assert(all.take(i as int) =~= all);
    }
    Ok(state)
}

/// Renders a pattern, the text it matched and the captures of the match.
///
/// Without coloring the three products are plain: the pattern and the match
/// unchanged, and `<name>: value` for each capture; no group is looked for.
/// With coloring each capture is painted in the color of its position. Its
/// group is located in the pattern text as the captures before it left it,
/// so earlier annotations shift and may hide later groups; a group that is
/// not found ends the rendering with the reason.
pub fn render(pattern: &str, matched: &str, captures: &Vec<Cap>, coloring: bool) -> (r: Result<
    Rendered,
    LocateError,
>)
    ensures
        rendering(
            bytes_of(pattern@),
            bytes_of(matched@),
            captures.deep_view(),
            coloring,
            outcome_of(r),
        ),
{
    if coloring {
        render_painted(pattern, matched, captures)
    } else {
        Ok(render_plain(pattern, matched, captures))
    }
}

} // verus!
