use todizzy::markdown::{find_marker, find_same_line, markdown_spans, MdSpan, MdSpanKind};

fn span(start: usize, end: usize, kind: MdSpanKind) -> MdSpan {
    MdSpan { start, end, kind }
}

#[test]
fn lines_are_styled_by_their_first_character() {
    let t = "# head\n#tag\n= strong\n> quote\nplain\n\n#";
    assert_eq!(
        markdown_spans(t),
        vec![
            span(0, 6, MdSpanKind::H1),
            span(7, 11, MdSpanKind::Bold),
            span(12, 20, MdSpanKind::Bold),
            span(21, 28, MdSpanKind::Quote),
            span(36, 37, MdSpanKind::Bold),
        ]
    );
}

#[test]
fn inline_styles() {
    assert_eq!(
        markdown_spans("a **b** *c* `d` ~~e~~"),
        vec![
            span(2, 7, MdSpanKind::Bold),
            span(8, 11, MdSpanKind::Italic),
            span(12, 15, MdSpanKind::Code),
            span(16, 21, MdSpanKind::Strike),
        ]
    );
    assert_eq!(markdown_spans("****"), vec![span(0, 4, MdSpanKind::Bold)]);
    assert_eq!(markdown_spans("**"), vec![]);
    assert_eq!(markdown_spans("*`x`"), vec![span(1, 4, MdSpanKind::Code)]);
    assert_eq!(markdown_spans(""), vec![]);
}

#[test]
fn line_style_comes_before_inline_style() {
    assert_eq!(
        markdown_spans("x\n> *é*"),
        vec![span(2, 8, MdSpanKind::Quote), span(4, 8, MdSpanKind::Italic)]
    );
}

#[test]
fn nothing_reaches_over_the_end_of_a_line() {
    for t in ["**a\nb**", "~~a\nb~~", "*a\nb*", "`a\nb`"] {
        assert_eq!(markdown_spans(t), vec![]);
    }
    assert_eq!(markdown_spans("**a\n**b**"), vec![span(4, 9, MdSpanKind::Bold)]);
}

#[test]
fn spans_keep_to_lines_and_boundaries() {
    let t = "# é*x*\n> **ü** `€`~~😀~~\n*a* *b*";
    for s in markdown_spans(t) {
        assert!(s.start < s.end);
        assert!(!t[s.start..s.end].contains('\n'));
    }
}

#[test]
fn markers_are_found_in_the_line() {
    assert_eq!(find_marker(b"a--b", 0, b"--"), Some(1));
    assert_eq!(find_marker(b"a--b", 2, b"--"), None);
    assert_eq!(find_marker(b"a\n--", 0, b"--"), None);
    assert_eq!(find_marker(b"ab", 7, b"--"), None);
    assert_eq!(find_same_line(b"abc", 1, b'c'), Some(2));
    assert_eq!(find_same_line(b"a\nc", 0, b'c'), None);
    assert_eq!(find_same_line(b"abc", 9, b'c'), None);
}
