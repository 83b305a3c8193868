use regex404::capture::Cap;
use regex404::render::annotate;
use regex404::render::capture_line;
use regex404::render::render;
use regex404::render::Painted;
use regex404::render::Rendered;
use regex404::span::LocateError;
use regex404::span::Span;

const BLUE: &str = "\x1b[34m";
const GREEN: &str = "\x1b[32m";
const RED: &str = "\x1b[31m";
const BLACK: &str = "\x1b[30m";
const OFF: &str = "\x1b[0m";

fn cap(name: &str, value: &str) -> Cap {
    Cap { name: name.to_string(), value: value.to_string() }
}

fn with_colors() {
    colored::control::set_override(true);
}

#[test]
fn capture_line_joins_name_and_value() {
    assert_eq!(capture_line("id", "42"), "<id>: 42");
    assert_eq!(capture_line("", ""), "<>: ");
    assert_eq!(capture_line("größe", "→"), "<größe>: →");
}

#[test]
fn without_coloring_the_products_are_plain() {
    let captures = vec![cap("id", "42"), cap("tail", "xy")];
    let rendered = render(r"(?<id>\d+)-(?<tail>\w+)", "42-xy", &captures, false).unwrap();
    assert_eq!(
        rendered,
        Rendered {
            pattern: r"(?<id>\d+)-(?<tail>\w+)".to_string(),
            matched: "42-xy".to_string(),
            lines: vec!["<id>: 42".to_string(), "<tail>: xy".to_string()],
        }
    );
}

#[test]
fn without_coloring_no_group_is_looked_for() {
    let captures = vec![cap("absent", "x")];
    let rendered = render("no groups here", "x", &captures, false).unwrap();
    assert_eq!(rendered.pattern, "no groups here");
    assert_eq!(rendered.matched, "x");
    assert_eq!(rendered.lines, vec!["<absent>: x".to_string()]);
}

#[test]
fn without_captures_nothing_is_annotated() {
    with_colors();
    let rendered = render("(a)", "a", &vec![], true).unwrap();
    assert_eq!(
        rendered,
        Rendered { pattern: "(a)".to_string(), matched: "a".to_string(), lines: vec![] }
    );
}

#[test]
fn one_capture_is_painted_in_the_first_color() {
    with_colors();
    let captures = vec![cap("id", "42")];
    let rendered = render(r"order-(?<id>\d+)", "order-42", &captures, true).unwrap();
    assert_eq!(rendered.pattern, format!(r"order-{BLUE}(?<id>\d+){OFF}"));
    assert_eq!(rendered.matched, format!("order-{BLUE}42{OFF}"));
    assert_eq!(rendered.lines, vec![format!("<{BLUE}id{OFF}>: {BLUE}42{OFF}")]);
}

#[test]
fn nested_groups_are_located_in_the_annotated_pattern() {
    with_colors();
    let captures = vec![cap("outer", "abc"), cap("inner", "b")];
    let rendered = render("(?<outer>a(?<inner>b)c)", "abc", &captures, true).unwrap();
    assert_eq!(
        rendered.pattern,
        format!("{BLUE}(?<outer>a{GREEN}(?<inner>b){OFF}c){OFF}")
    );
    assert_eq!(rendered.matched, format!("{BLUE}a{GREEN}b{OFF}c{OFF}"));
    assert_eq!(
        rendered.lines,
        vec![
            format!("<{BLUE}outer{OFF}>: {BLUE}abc{OFF}"),
            format!("<{GREEN}inner{OFF}>: {GREEN}b{OFF}"),
        ]
    );
}

#[test]
fn the_fifth_capture_has_the_color_of_the_first() {
    with_colors();
    let captures =
        vec![cap("a", "1"), cap("b", "2"), cap("c", "5"), cap("d", "6"), cap("e", "7")];
    let pattern = "(?<a>1)(?<b>2)(?<c>5)(?<d>6)(?<e>7)";
    let rendered = render(pattern, "12567", &captures, true).unwrap();
    assert_eq!(
        rendered.lines,
        vec![
            format!("<{BLUE}a{OFF}>: {BLUE}1{OFF}"),
            format!("<{GREEN}b{OFF}>: {GREEN}2{OFF}"),
            format!("<{RED}c{OFF}>: {RED}5{OFF}"),
            format!("<{BLACK}d{OFF}>: {BLACK}6{OFF}"),
            format!("<{BLUE}e{OFF}>: {BLUE}7{OFF}"),
        ]
    );
    let groups = [
        format!("{BLUE}(?<a>1){OFF}"),
        format!("{GREEN}(?<b>2){OFF}"),
        format!("{RED}(?<c>5){OFF}"),
        format!("{BLACK}(?<d>6){OFF}"),
        format!("{BLUE}(?<e>7){OFF}"),
    ];
    assert_eq!(rendered.pattern, groups.concat());
    assert_eq!(
        rendered.matched,
        format!("{BLUE}1{OFF}{GREEN}2{OFF}{RED}5{OFF}{BLACK}6{OFF}{BLUE}7{OFF}")
    );
}

#[test]
fn a_value_is_replaced_wherever_it_occurs() {
    with_colors();
    // The second value also stands in the markup that the first capture
    // left in the match text, and is replaced there too.
    let captures = vec![cap("a", "x"), cap("b", "4")];
    let rendered = render("(?<a>x)(?<b>4)", "x4", &captures, true).unwrap();
    let painted = format!("{GREEN}4{OFF}");
    assert_eq!(rendered.matched, format!("\x1b[3{painted}mx{OFF}{painted}"));
    assert_eq!(rendered.matched, format!("{BLUE}x{OFF}4").replace("4", &painted));
}

#[test]
fn equal_values_are_painted_alike() {
    with_colors();
    let captures = vec![cap("a", "ab"), cap("b", "ab")];
    let rendered = render("(?<a>ab)-(?<b>ab)", "ab-ab", &captures, true).unwrap();
    let first = format!("{BLUE}ab{OFF}-{BLUE}ab{OFF}");
    assert_eq!(rendered.matched, first.replace("ab", &format!("{GREEN}ab{OFF}")));
}

#[test]
fn an_empty_value_is_painted_between_all_characters() {
    with_colors();
    let captures = vec![cap("a", "")];
    let rendered = render("(?<a>x*)y", "y", &captures, true).unwrap();
    assert_eq!(rendered.matched, format!("{BLUE}{OFF}y{BLUE}{OFF}"));
    assert_eq!(rendered.lines, vec![format!("<{BLUE}a{OFF}>: {BLUE}{OFF}")]);
}

#[test]
fn the_color_is_switched_on_again_after_a_reset_inside_the_text() {
    with_colors();
    let value = format!("a{OFF}b");
    let captures = vec![cap("v", &value)];
    let rendered = render("(?<v>.*)", &value, &captures, true).unwrap();
    assert_eq!(rendered.matched, format!("{BLUE}a{OFF}{BLUE}b{OFF}"));
    assert_eq!(rendered.lines, vec![format!("<{BLUE}v{OFF}>: {BLUE}a{OFF}{BLUE}b{OFF}")]);
}

#[test]
fn texts_beyond_ascii_are_cut_on_character_boundaries() {
    with_colors();
    let captures = vec![cap("wort", "größe")];
    let rendered = render("é(?<wort>gr.ße)ü", "égrößeü", &captures, true).unwrap();
    assert_eq!(rendered.pattern, format!("é{BLUE}(?<wort>gr.ße){OFF}ü"));
    assert_eq!(rendered.matched, format!("é{BLUE}größe{OFF}ü"));
}

#[test]
fn a_group_that_is_not_in_the_pattern_ends_the_rendering() {
    with_colors();
    let captures = vec![cap("id", "42"), cap("absent", "x")];
    assert_eq!(
        render(r"(?<id>\d+)", "42", &captures, true),
        Err(LocateError::MissingTag)
    );
    assert_eq!(
        render("<id>(?<id>x)", "x", &vec![cap("id", "x")], true),
        Err(LocateError::MissingOpen)
    );
    assert_eq!(render("(?<id>x", "x", &vec![cap("id", "x")], true), Err(LocateError::Unclosed));
}

#[test]
fn with_the_painter_switched_off_the_products_stay_plain() {
    colored::control::set_override(false);
    let captures = vec![cap("id", "42")];
    let rendered = render(r"order-(?<id>\d+)", "order-42", &captures, true).unwrap();
    assert_eq!(rendered.pattern, r"order-(?<id>\d+)");
    assert_eq!(rendered.matched, "order-42");
    assert_eq!(rendered.lines, vec!["<id>: 42".to_string()]);
}

fn rendered(pattern: &str, matched: &str, lines: &[&str]) -> Rendered {
    Rendered {
        pattern: pattern.to_string(),
        matched: matched.to_string(),
        lines: lines.iter().map(|line| line.to_string()).collect(),
    }
}

fn painted(name: &str, value: &str, group: &str) -> Painted {
    Painted { name: name.to_string(), value: value.to_string(), group: group.to_string() }
}

#[test]
fn annotate_puts_the_painted_texts_in_their_places() {
    let state = rendered("a(?<n>b)c", "xbybz", &["<m>: q"]);
    let next = annotate(state, "b", Span { start: 1, end: 8 }, &painted("[n]", "[b]", "[(?<n>b)]"));
    assert_eq!(next, Some(rendered("a[(?<n>b)]c", "x[b]y[b]z", &["<m>: q", "<[n]>: [b]"])));
}

#[test]
fn annotate_takes_any_span_that_fits() {
    let state = rendered("abc", "", &[]);
    let next = annotate(state, "v", Span { start: 3, end: 3 }, &painted("n", "v", "+"));
    assert_eq!(next, Some(rendered("abc+", "", &["<n>: v"])));
    let state = rendered("abc", "v", &[]);
    let next = annotate(state, "v", Span { start: 0, end: 3 }, &painted("n", "w", ""));
    assert_eq!(next, Some(rendered("", "w", &["<n>: w"])));
}

#[test]
fn annotate_refuses_a_span_that_does_not_fit() {
    let refused = [
        Span { start: 2, end: 1 },
        Span { start: 0, end: 5 },
        Span { start: 5, end: 6 },
        Span { start: 1, end: 2 },
        Span { start: 0, end: 1 },
    ];
    for span in refused {
        assert_eq!(annotate(rendered("éab", "m", &[]), "m", span, &painted("n", "v", "g")), None);
    }
    let state = rendered("éab", "m", &[]);
    let next = annotate(state, "m", Span { start: 0, end: 2 }, &painted("n", "v", "g"));
    assert_eq!(next, Some(rendered("gab", "v", &["<n>: v"])));
}
