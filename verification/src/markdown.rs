//! Live markdown: which parts of a text are shown in which style.
//!
//! A line that starts with `#`, `=` or `>` is styled as a whole. Inside a line, `**bold**`,
//! `*italic*`, `` `code` `` and `~~strike~~` are styled. Nothing reaches over the end of a line.
use vstd::prelude::*;
use vstd::utf8::*;

use crate::editor::model;
use crate::text;
use crate::text::NEWLINE;

verus! {

/// The byte of `#`.
pub const HASH: u8 = 35;

/// The byte of a space.
pub const SPACE: u8 = 32;

/// The byte of `=`.
pub const EQUALS: u8 = 61;

/// The byte of `>`.
pub const GREATER: u8 = 62;

/// The byte of `*`.
pub const STAR: u8 = 42;

/// The byte of a backtick.
pub const BACKTICK: u8 = 96;

/// The byte of `~`.
pub const TILDE: u8 = 126;

/// How a span is shown.
#[derive(Debug, Clone, Copy, PartialEq, Eq, Structural)]
pub enum MdSpanKind {
    /// `# heading`: bold and larger.
    H1,
    /// `= line`, `#line` or `**text**`.
    Bold,
    /// `*text*`.
    Italic,
    /// `` `text` ``.
    Code,
    /// `~~text~~`.
    Strike,
    /// `> text`: gray.
    Quote,
}

/// A styled part of a text, in byte offsets.
#[derive(Debug, Clone, Copy, PartialEq, Eq, Structural)]
pub struct MdSpan {
    pub start: usize,
    pub end: usize,
    pub kind: MdSpanKind,
}

/// A styled part of a text.
pub struct Span {
    pub start: int,
    pub end: int,
    pub kind: MdSpanKind,
}

impl View for MdSpan {
    type V = Span;

    open spec fn view(&self) -> Span {
        Span { start: self.start as int, end: self.end as int, kind: self.kind }
    }
}

/// The spans that a vector holds.
pub open spec fn views(v: Seq<MdSpan>) -> Seq<Span> {
    Seq::new(v.len(), |i: int| v[i]@)
}

// ── Where markers close ──────────────────────────────────────────────────────

/// `marker` stands in `b` at `i`.
pub open spec fn stands_at(b: Seq<u8>, i: int, marker: Seq<u8>) -> bool {
    &&& 0 <= i
    &&& i + marker.len() <= b.len()
    &&& b.subrange(i, i + marker.len()) == marker
}

/// Where `marker` first stands from `from` on, in the same line.
pub open spec fn marker_in_line(b: Seq<u8>, from: int, marker: Seq<u8>) -> Option<int>
    decreases b.len() - from,
{
    if stands_at(b, from, marker) {
        Some(from)
    } else if from < 0 || from >= b.len() || b[from] == NEWLINE {
        None
    } else {
        marker_in_line(b, from + 1, marker)
    }
}

/// Where byte `ch` first stands from `from` on, in the same line.
pub open spec fn byte_in_line(b: Seq<u8>, from: int, ch: u8) -> Option<int>
    decreases b.len() - from,
{
    if from < 0 || from >= b.len() || b[from] == NEWLINE {
        None
    } else if b[from] == ch {
        Some(from)
    } else {
        byte_in_line(b, from + 1, ch)
    }
}

/// What closes a marker stands in the line, at or behind the place where the search started.
pub proof fn lemma_marker_in_line(b: Seq<u8>, from: int, marker: Seq<u8>)
    requires
        0 <= from <= b.len(),
    ensures
        marker_in_line(b, from, marker) matches Some(i) ==> {
            &&& from <= i
            &&& stands_at(b, i, marker)
            &&& forall|j: int| from <= j < i ==> b[j] != NEWLINE
            &&& forall|j: int| from <= j < i ==> !stands_at(b, j, marker)
        },
        marker_in_line(b, from, marker) is None ==> forall|j: int|
            from <= j <= text::line_ceil(b, from) ==> !stands_at(b, j, marker),
    decreases b.len() - from,
{
    if !stands_at(b, from, marker) && from < b.len() && b[from] != NEWLINE {
        lemma_marker_in_line(b, from + 1, marker);
    }
}

pub proof fn lemma_byte_in_line(b: Seq<u8>, from: int, ch: u8)
    requires
        0 <= from <= b.len(),
    ensures
        byte_in_line(b, from, ch) matches Some(i) ==> {
            &&& from <= i < b.len()
            &&& b[i] == ch
            &&& forall|j: int| from <= j <= i ==> b[j] != NEWLINE
            &&& forall|j: int| from <= j < i ==> b[j] != ch
        },
        byte_in_line(b, from, ch) is None ==> forall|j: int|
            from <= j < text::line_ceil(b, from) ==> b[j] != ch,
    decreases b.len() - from,
{
    if from < b.len() && b[from] != NEWLINE && b[from] != ch {
        lemma_byte_in_line(b, from + 1, ch);
    }
}

/// Whether `marker` stands in `bytes` at `i`.
fn marker_stands_at(bytes: &[u8], i: usize, marker: &[u8]) -> (r: bool)
    ensures
        r == stands_at(bytes@, i as int, marker@),
{
    if i > bytes.len() || marker.len() > bytes.len() - i {
        return false;
    }
    let ghost part = bytes@.subrange(i as int, i + marker@.len());
    let mut k: usize = 0;
    while k < marker.len()
        invariant
            k <= marker@.len(),
            i + marker@.len() <= bytes@.len() <= usize::MAX,
            part == bytes@.subrange(i as int, i + marker@.len()),
            forall|j: int| 0 <= j < k ==> part[j] == #[trigger] marker@[j],
        decreases marker@.len() - k,
    {
        if bytes[i + k] != marker[k] {
            assert(part[k as int] != marker@[k as int]);
            return false;
        }
        k = k + 1;
    }
    assert(part =~= marker@);
    true
}

/// Where `marker` first stands from `from` on, in the same line.
pub fn find_marker(bytes: &[u8], from: usize, marker: &[u8]) -> (r: Option<usize>)
    ensures
        r is Some == marker_in_line(bytes@, from as int, marker@) is Some,
        r matches Some(i) ==> marker_in_line(bytes@, from as int, marker@) == Some(i as int),
{
    let mut i: usize = from;
    while i < bytes.len()
        invariant
            from <= i,
            i <= bytes@.len() || i == from,
            marker_in_line(bytes@, i as int, marker@) == marker_in_line(
                bytes@,
                from as int,
                marker@,
            ),
        decreases bytes@.len() - i,
    {
        if marker_stands_at(bytes, i, marker) {
            return Some(i);
        }
        if bytes[i] == NEWLINE {
            return None;
        }
        i = i + 1;
    }
    if marker_stands_at(bytes, i, marker) {
        Some(i)
    } else {
        None
    }
}

/// Where byte `ch` first stands from `from` on, in the same line.
pub fn find_same_line(bytes: &[u8], from: usize, ch: u8) -> (r: Option<usize>)
    ensures
        r is Some == byte_in_line(bytes@, from as int, ch) is Some,
        r matches Some(i) ==> byte_in_line(bytes@, from as int, ch) == Some(i as int),
{
    let mut i: usize = from;
    while i < bytes.len()
        invariant
            from <= i,
            i <= bytes@.len() || i == from,
            byte_in_line(bytes@, i as int, ch) == byte_in_line(bytes@, from as int, ch),
        decreases bytes@.len() - i,
    {
        if bytes[i] == NEWLINE {
            return None;
        }
        if bytes[i] == ch {
            return Some(i);
        }
        i = i + 1;
    }
    None
}

// ── Spans ────────────────────────────────────────────────────────────────────

/// The style of the line that starts at `s`.
pub open spec fn line_kind(b: Seq<u8>, s: int) -> Option<MdSpanKind> {
    if b[s] == HASH {
        if s + 1 < b.len() && b[s + 1] == SPACE {
            Some(MdSpanKind::H1)
        } else {
            Some(MdSpanKind::Bold)
        }
    } else if b[s] == EQUALS {
        Some(MdSpanKind::Bold)
    } else if b[s] == GREATER {
        Some(MdSpanKind::Quote)
    } else {
        None
    }
}

/// The span of the line from `s` to `e`, if it has a style.
pub open spec fn line_span(b: Seq<u8>, s: int, e: int) -> Seq<Span> {
    if s < e {
        match line_kind(b, s) {
            Some(kind) => seq![Span { start: s, end: e, kind }],
            None => seq![],
        }
    } else {
        seq![]
    }
}

/// The spans of whole lines, from the line that starts at `pos` on.
pub open spec fn line_spans(b: Seq<u8>, pos: int) -> Seq<Span>
    decreases b.len() + 1 - pos,
{
    if pos < 0 || pos >= b.len() {
        seq![]
    } else {
        proof {
            text::lemma_line_ceil(b, pos);
        }
        let e = text::line_ceil(b, pos);
        line_span(b, pos, e) + line_spans(b, e + 1)
    }
}

/// The span that closes at `close` with a marker of `width` bytes.
pub open spec fn closed_at(i: int, close: Option<int>, width: int, kind: MdSpanKind) -> Option<
    Span,
> {
    match close {
        Some(c) => Some(Span { start: i, end: c + width, kind }),
        None => None,
    }
}

/// The marker `**`.
pub open spec fn stars() -> Seq<u8> {
    seq![STAR, STAR]
}

/// The marker `~~`.
pub open spec fn tildes() -> Seq<u8> {
    seq![TILDE, TILDE]
}

/// The span that a marker at `i` opens, if it closes in the same line.
pub open spec fn inline_at(b: Seq<u8>, i: int) -> Option<Span> {
    if stands_at(b, i, stars()) {
        closed_at(i, marker_in_line(b, i + 2, stars()), 2, MdSpanKind::Bold)
    } else if b[i] == STAR {
        closed_at(i, byte_in_line(b, i + 1, STAR), 1, MdSpanKind::Italic)
    } else if b[i] == BACKTICK {
        closed_at(i, byte_in_line(b, i + 1, BACKTICK), 1, MdSpanKind::Code)
    } else if stands_at(b, i, tildes()) {
        closed_at(i, marker_in_line(b, i + 2, tildes()), 2, MdSpanKind::Strike)
    } else {
        None
    }
}

/// A span inside a line starts at its marker and keeps to the line.
pub proof fn lemma_inline_at(b: Seq<u8>, i: int)
    requires
        0 <= i < b.len(),
    ensures
        inline_at(b, i) matches Some(s) ==> {
            &&& s.start == i
            &&& i + 1 < s.end <= b.len()
            &&& b[i] < 0x80
            &&& b[s.end - 1] < 0x80
            &&& forall|j: int| i <= j < s.end ==> b[j] != NEWLINE
        },
{
    if stands_at(b, i, stars()) {
        lemma_pair(b, i, STAR);
        lemma_marker_in_line(b, i + 2, stars());
        if let Some(c) = marker_in_line(b, i + 2, stars()) {
            lemma_pair(b, c, STAR);
        }
    } else if b[i] == STAR {
        lemma_byte_in_line(b, i + 1, STAR);
    } else if b[i] == BACKTICK {
        lemma_byte_in_line(b, i + 1, BACKTICK);
    } else if stands_at(b, i, tildes()) {
        lemma_pair(b, i, TILDE);
        lemma_marker_in_line(b, i + 2, tildes());
        if let Some(c) = marker_in_line(b, i + 2, tildes()) {
            lemma_pair(b, c, TILDE);
        }
    }
}

/// What a marker of twice the same byte means byte for byte.
proof fn lemma_pair(b: Seq<u8>, i: int, ch: u8)
    requires
        0 <= i,
    ensures
        stands_at(b, i, seq![ch, ch]) <==> i + 1 < b.len() && b[i] == ch && b[i + 1] == ch,
{
    let m = seq![ch, ch];
    if i + 1 < b.len() {
        let part = b.subrange(i, i + 2);
        assert(part[0] == b[i] && part[1] == b[i + 1]);
        if b[i] == ch && b[i + 1] == ch {
            assert(part =~= m);
        } else if part == m {
            assert(part[0] == m[0] && part[1] == m[1]);
        }
    }
}

/// The spans inside lines, from `i` on: one that is found is passed over as a whole.
pub open spec fn inline_spans(b: Seq<u8>, i: int) -> Seq<Span>
    decreases b.len() - i,
{
    if i < 0 || i >= b.len() {
        seq![]
    } else {
        proof {
            lemma_inline_at(b, i);
        }
        match inline_at(b, i) {
            Some(span) => seq![span] + inline_spans(b, span.end),
            None => inline_spans(b, i + 1),
        }
    }
}

/// All spans of a text: those of whole lines first, then those inside lines.
pub open spec fn spans_of(b: Seq<u8>) -> Seq<Span> {
    line_spans(b, 0) + inline_spans(b, 0)
}

/// `s` is a part of one line of `b` that starts and ends on character boundaries and is not empty.
pub open spec fn well_placed(b: Seq<u8>, s: Span) -> bool {
    &&& 0 <= s.start < s.end <= b.len()
    &&& text::on_boundary(b, s.start)
    &&& text::on_boundary(b, s.end)
    &&& forall|j: int| s.start <= j < s.end ==> b[j] != NEWLINE
}

/// Every span keeps to one line and to character boundaries.
pub proof fn spans_are_well_placed(b: Seq<u8>, k: int)
    requires
        valid_utf8(b),
        0 <= k < spans_of(b).len(),
    ensures
        well_placed(b, spans_of(b)[k]),
{
    let n = line_spans(b, 0).len();
    text::lemma_boundary(b, 0);
    if k < n {
        lemma_line_spans_well_placed(b, 0, k);
    } else {
        lemma_inline_spans_well_placed(b, 0, k - n);
    }
}

proof fn lemma_line_spans_well_placed(b: Seq<u8>, pos: int, k: int)
    requires
        valid_utf8(b),
        0 <= pos,
        pos <= b.len() ==> text::on_boundary(b, pos),
        0 <= k < line_spans(b, pos).len(),
    ensures
        well_placed(b, line_spans(b, pos)[k]),
    decreases b.len() + 1 - pos,
{
    if pos < b.len() {
        text::lemma_line_ceil(b, pos);
        model::lemma_line_boundaries(b, pos);
        let e = text::line_ceil(b, pos);
        let here = line_span(b, pos, e);
        if k >= here.len() {
            lemma_line_spans_well_placed(b, e + 1, k - here.len());
        }
    }
}

proof fn lemma_inline_spans_well_placed(b: Seq<u8>, i: int, k: int)
    requires
        valid_utf8(b),
        0 <= i,
        0 <= k < inline_spans(b, i).len(),
    ensures
        well_placed(b, inline_spans(b, i)[k]),
        i <= inline_spans(b, i)[k].start,
    decreases b.len() - i,
{
    if i < b.len() {
        lemma_inline_at(b, i);
        match inline_at(b, i) {
            Some(span) => {
                text::lemma_after_ascii(b, i);
                text::lemma_after_ascii(b, span.end - 1);
                if k > 0 {
                    lemma_inline_spans_well_placed(b, span.end, k - 1);
                }
            },
            None => {
                lemma_inline_spans_well_placed(b, i + 1, k);
            },
        }
    }
}

/// Spans inside lines do not overlap and come in the order of the text.
pub proof fn inline_spans_do_not_overlap(b: Seq<u8>, i: int, j: int, k: int)
    requires
        valid_utf8(b),
        0 <= i,
        0 <= j < k < inline_spans(b, i).len(),
    ensures
        inline_spans(b, i)[j].end <= inline_spans(b, i)[k].start,
    decreases b.len() - i,
{
    if i < b.len() {
        lemma_inline_at(b, i);
        match inline_at(b, i) {
            Some(span) => {
                if j == 0 {
                    lemma_inline_spans_well_placed(b, span.end, k - 1);
                } else {
                    inline_spans_do_not_overlap(b, span.end, j - 1, k - 1);
                }
            },
            None => {
                inline_spans_do_not_overlap(b, i + 1, j, k);
            },
        }
    }
}

/// The span that starts in `bytes` at `i` with a marker, if there is one.
fn inline_span(bytes: &[u8], i: usize) -> (r: Option<MdSpan>)
    requires
        i < bytes@.len(),
    ensures
        r is Some == inline_at(bytes@, i as int) is Some,
        r matches Some(s) ==> inline_at(bytes@, i as int) == Some(s@),
{
    let len: usize = bytes.len();
    let star_pair: [u8; 2] = [STAR, STAR];
    let tilde_pair: [u8; 2] = [TILDE, TILDE];
    proof {
        assert(star_pair@ =~= stars());
        assert(tilde_pair@ =~= tildes());
        lemma_inline_at(bytes@, i as int);
        assert(bytes@.len() == len);
    }
    if marker_stands_at(bytes, i, &star_pair) {
        return match find_marker(bytes, i + 2, &star_pair) {
            Some(close) => Some(MdSpan { start: i, end: close + 2, kind: MdSpanKind::Bold }),
            None => None,
        };
    }
    if bytes[i] == STAR {
        return match find_same_line(bytes, i + 1, STAR) {
            Some(close) => Some(MdSpan { start: i, end: close + 1, kind: MdSpanKind::Italic }),
            None => None,
        };
    }
    if bytes[i] == BACKTICK {
        return match find_same_line(bytes, i + 1, BACKTICK) {
            Some(close) => Some(MdSpan { start: i, end: close + 1, kind: MdSpanKind::Code }),
            None => None,
        };
    }
    if marker_stands_at(bytes, i, &tilde_pair) {
        return match find_marker(bytes, i + 2, &tilde_pair) {
            Some(close) => Some(MdSpan { start: i, end: close + 2, kind: MdSpanKind::Strike }),
            None => None,
        };
    }
    None
}

/// The styled parts of `t`: whole lines first, then what stands inside lines.
pub fn markdown_spans(t: &str) -> (r: Vec<MdSpan>)
    ensures
        views(r@) == spans_of(encode_utf8(t@)),
{
    let bytes = t.as_bytes();
    let len: usize = bytes.len();
    let mut spans: Vec<MdSpan> = Vec::new();
    let ghost b = bytes@;
    assert(views(spans@) =~= Seq::<Span>::empty());
    assert(views(spans@) + line_spans(b, 0) =~= line_spans(b, 0));

    // Whole lines
    let mut pos: usize = 0;
    while pos < len
        invariant
            b == bytes@,
            b.len() == len,
            views(spans@) + line_spans(b, pos as int) == line_spans(b, 0),
        decreases b.len() + 1 - pos,
    {
        let end: usize = text::line_ceil_offset(bytes, pos);
        let ghost before = spans@;
        if pos < end {
            let kind: Option<MdSpanKind> = if bytes[pos] == HASH {
                if pos + 1 < len && bytes[pos + 1] == SPACE {
                    Some(MdSpanKind::H1)
                } else {
                    Some(MdSpanKind::Bold)
                }
            } else if bytes[pos] == EQUALS {
                Some(MdSpanKind::Bold)
            } else if bytes[pos] == GREATER {
                Some(MdSpanKind::Quote)
            } else {
                None
            };
            if let Some(kind) = kind {
                spans.push(MdSpan { start: pos, end, kind });
            }
        }
        assert(views(spans@) =~= views(before) + line_span(b, pos as int, end as int));
        assert(views(spans@) + line_spans(b, end + 1) =~= views(before) + line_spans(
            b,
            pos as int,
        ));
        if end == len {
            assert(line_spans(b, end + 1) =~= line_spans(b, end as int));
            pos = end;
        } else {
            pos = end + 1;
        }
    }
    assert(views(spans@) =~= line_spans(b, 0));

    // Inside lines
    let mut i: usize = 0;
    while i < len
        invariant
            b == bytes@,
            b.len() == len,
            i <= len,
            views(spans@) + inline_spans(b, i as int) == spans_of(b),
        decreases b.len() - i,
    {
        let ghost before = spans@;
        proof {
            lemma_inline_at(b, i as int);
        }
        match inline_span(bytes, i) {
            Some(span) => {
                spans.push(span);
                assert(views(spans@) =~= views(before).push(span@));
                assert(views(spans@) + inline_spans(b, span@.end) =~= views(before) + inline_spans(
                    b,
                    i as int,
                ));
                i = span.end;
            },
            None => {
                i = i + 1;
            },
        }
    }
    assert(views(spans@) =~= spans_of(b));
    spans
}

// ── Laws ─────────────────────────────────────────────────────────────────────

/// The bytes of the markers are those of their characters.
pub proof fn markers_are_their_characters()
    ensures
        STAR == '*' as u8,
        TILDE == '~' as u8,
        BACKTICK == '`' as u8,
        HASH == '#' as u8,
        SPACE == ' ' as u8,
        EQUALS == '=' as u8,
        GREATER == '>' as u8,
{
}

/// Byte `ch` stands twice at `i`.
pub open spec fn twice_at(b: Seq<u8>, i: int, ch: u8) -> bool {
    0 <= i && i + 1 < b.len() && b[i] == ch && b[i + 1] == ch
}

/// No newline stands from `i` up to `j`.
pub open spec fn in_one_line(b: Seq<u8>, i: int, j: int) -> bool {
    forall|k: int| i <= k < j ==> b[k] != '\n' as u8
}

/// A pair of `ch` at `i` closes with the pair at `c`: the first one behind it, in the same line.
pub open spec fn pair_closes_at(b: Seq<u8>, i: int, c: int, ch: u8) -> bool {
    &&& twice_at(b, i, ch)
    &&& i + 2 <= c
    &&& twice_at(b, c, ch)
    &&& in_one_line(b, i, c)
    &&& forall|j: int| i + 2 <= j < c ==> !twice_at(b, j, ch)
}

/// A byte `ch` at `i` closes with the one at `c`: the first one behind it, in the same line.
pub open spec fn byte_closes_at(b: Seq<u8>, i: int, c: int, ch: u8) -> bool {
    &&& 0 <= i < c < b.len()
    &&& b[i] == ch
    &&& b[c] == ch
    &&& in_one_line(b, i, c)
    &&& forall|j: int| i < j < c ==> b[j] != ch
}

/// Where a scan for spans stands at `i` and `**` there is closed by another `**` in the line, the
/// text has a bold span from the one to the other, both included, and the scan goes on behind it.
pub proof fn double_stars_make_bold(b: Seq<u8>, i: int, c: int)
    requires
        pair_closes_at(b, i, c, '*' as u8),
    ensures
        inline_spans(b, i) == seq![Span { start: i, end: c + 2, kind: MdSpanKind::Bold }]
            + inline_spans(b, c + 2),
{
    lemma_pair_closes(b, i, c, STAR);
}

/// The same of `~~`: it makes a struck span.
pub proof fn double_tildes_make_struck(b: Seq<u8>, i: int, c: int)
    requires
        pair_closes_at(b, i, c, '~' as u8),
    ensures
        inline_spans(b, i) == seq![Span { start: i, end: c + 2, kind: MdSpanKind::Strike }]
            + inline_spans(b, c + 2),
{
    lemma_pair(b, i, STAR);
    lemma_pair_closes(b, i, c, TILDE);
}

/// The same of a single `*`: it makes an italic span.
pub proof fn stars_make_italic(b: Seq<u8>, i: int, c: int)
    requires
        byte_closes_at(b, i, c, '*' as u8),
        !twice_at(b, i, '*' as u8),
    ensures
        inline_spans(b, i) == seq![Span { start: i, end: c + 1, kind: MdSpanKind::Italic }]
            + inline_spans(b, c + 1),
{
    lemma_pair(b, i, STAR);
    lemma_byte_closes(b, i, c, STAR);
}

/// The same of a backtick: it makes a code span.
pub proof fn backticks_make_code(b: Seq<u8>, i: int, c: int)
    requires
        byte_closes_at(b, i, c, '`' as u8),
    ensures
        inline_spans(b, i) == seq![Span { start: i, end: c + 1, kind: MdSpanKind::Code }]
            + inline_spans(b, c + 1),
{
    lemma_pair(b, i, STAR);
    lemma_byte_closes(b, i, c, BACKTICK);
}

/// Where nothing at `i` is closed in its line, no span starts there and the scan goes on with the
/// next byte; at the end of the text it ends.
pub proof fn unclosed_markers_make_nothing(b: Seq<u8>, i: int)
    requires
        0 <= i,
        forall|c: int| !pair_closes_at(b, i, c, STAR),
        forall|c: int| !pair_closes_at(b, i, c, TILDE),
        forall|c: int| !byte_closes_at(b, i, c, BACKTICK),
        twice_at(b, i, STAR) || forall|c: int| !byte_closes_at(b, i, c, STAR),
    ensures
        i < b.len() ==> inline_spans(b, i) == inline_spans(b, i + 1),
        i >= b.len() ==> inline_spans(b, i) == Seq::<Span>::empty(),
{
    if i < b.len() {
        lemma_pair(b, i, STAR);
        lemma_pair(b, i, TILDE);
        if stands_at(b, i, stars()) {
            lemma_pair_found(b, i, STAR);
        } else if b[i] == STAR {
            lemma_byte_found(b, i, STAR);
        } else if b[i] == BACKTICK {
            lemma_byte_found(b, i, BACKTICK);
        } else if stands_at(b, i, tildes()) {
            lemma_pair_found(b, i, TILDE);
        }
    }
}

/// The search for the pair that closes finds the one that does.
proof fn lemma_pair_closes(b: Seq<u8>, i: int, c: int, ch: u8)
    requires
        pair_closes_at(b, i, c, ch),
        ch != NEWLINE,
    ensures
        marker_in_line(b, i + 2, seq![ch, ch]) == Some(c),
        stands_at(b, i, seq![ch, ch]),
{
    lemma_pair(b, i, ch);
    lemma_pair(b, c, ch);
    lemma_marker_in_line(b, i + 2, seq![ch, ch]);
    match marker_in_line(b, i + 2, seq![ch, ch]) {
        Some(d) => {
            lemma_pair(b, d, ch);
            if d < c {
                assert(!twice_at(b, d, ch));
            }
            if c < d {
                assert(!stands_at(b, c, seq![ch, ch]));
            }
        },
        None => {
            text::lemma_line_ceil(b, i + 2);
            let e = text::line_ceil(b, i + 2);
            if e < c {
                assert(b[e] == NEWLINE);
            }
            assert(!stands_at(b, c, seq![ch, ch]));
        },
    }
}

/// What the search for a pair finds closes.
proof fn lemma_pair_found(b: Seq<u8>, i: int, ch: u8)
    requires
        twice_at(b, i, ch),
        ch != NEWLINE,
    ensures
        marker_in_line(b, i + 2, seq![ch, ch]) matches Some(c) ==> pair_closes_at(b, i, c, ch),
{
    lemma_marker_in_line(b, i + 2, seq![ch, ch]);
    if let Some(c) = marker_in_line(b, i + 2, seq![ch, ch]) {
        lemma_pair(b, c, ch);
        assert forall|j: int| i + 2 <= j < c implies !twice_at(b, j, ch) by {
            lemma_pair(b, j, ch);
            assert(!stands_at(b, j, seq![ch, ch]));
        }
    }
}

/// The search for the byte that closes finds the one that does.
proof fn lemma_byte_closes(b: Seq<u8>, i: int, c: int, ch: u8)
    requires
        byte_closes_at(b, i, c, ch),
        ch != NEWLINE,
    ensures
        byte_in_line(b, i + 1, ch) == Some(c),
{
    lemma_byte_in_line(b, i + 1, ch);
    if byte_in_line(b, i + 1, ch) is None {
        text::lemma_line_ceil(b, i + 1);
        let e = text::line_ceil(b, i + 1);
        if e < c {
            assert(b[e] == NEWLINE);
        }
    }
}

/// What the search for a byte finds closes.
proof fn lemma_byte_found(b: Seq<u8>, i: int, ch: u8)
    requires
        0 <= i < b.len(),
        b[i] == ch,
        ch != NEWLINE,
    ensures
        byte_in_line(b, i + 1, ch) matches Some(c) ==> byte_closes_at(b, i, c, ch),
{
    lemma_byte_in_line(b, i + 1, ch);
}

/// The spans of a text are those of its lines, from the first line on, and then those inside lines,
/// from the first byte on.
pub proof fn line_styles_come_first(b: Seq<u8>)
    ensures
        spans_of(b) == line_spans(b, 0) + inline_spans(b, 0),
{
}

/// How a line that starts with the byte `first`, followed by `second` if anything follows in the
/// text, is shown.
pub open spec fn style_of_line(first: u8, second: Option<u8>) -> Option<MdSpanKind> {
    if first == '#' as u8 && second == Some(' ' as u8) {
        Some(MdSpanKind::H1)
    } else if first == '#' as u8 || first == '=' as u8 {
        Some(MdSpanKind::Bold)
    } else if first == '>' as u8 {
        Some(MdSpanKind::Quote)
    } else {
        None
    }
}

/// A line that is not empty is styled as a whole by its first byte, and the lines behind it follow;
/// an empty line is not styled.
pub proof fn lines_are_styled_by_their_start(b: Seq<u8>, s: int, e: int)
    requires
        0 <= s <= e <= b.len(),
        s < b.len(),
        in_one_line(b, s, e),
        e == b.len() || b[e] == '\n' as u8,
    ensures
        ({
            let second = if s + 1 < b.len() {
                Some(b[s + 1])
            } else {
                None
            };
            line_spans(b, s) == match style_of_line(b[s], second) {
                Some(kind) => if s < e {
                    seq![Span { start: s, end: e, kind }]
                } else {
                    seq![]
                },
                None => seq![],
            } + line_spans(b, e + 1)
        }),
        line_spans(b, b.len() as int) == Seq::<Span>::empty(),
        line_spans(b, b.len() as int + 1) == Seq::<Span>::empty(),
{
    text::lemma_line_ceil(b, s);
    let c = text::line_ceil(b, s);
    if c < e {
        assert(b[c] == NEWLINE);
    }
    if e < c {
        assert(b[e] == NEWLINE);
    }
}

/// Every line of a text that is styled has its span among those of the text.
pub proof fn styled_lines_are_spans(b: Seq<u8>, s: int, e: int, kind: MdSpanKind)
    requires
        0 <= s < e <= b.len(),
        s == 0 || b[s - 1] == '\n' as u8,
        in_one_line(b, s, e),
        e == b.len() || b[e] == '\n' as u8,
        style_of_line(
            b[s],
            if s + 1 < b.len() {
                Some(b[s + 1])
            } else {
                None
            },
        ) == Some(kind),
    ensures
        spans_of(b).contains(Span { start: s, end: e, kind }),
{
    let span = Span { start: s, end: e, kind };
    lemma_line_is_reached(b, 0, s);
    let k = choose|k: int| 0 <= k && #[trigger] line_spans(b, 0).skip(k) == line_spans(b, s) && k
        <= line_spans(b, 0).len();
    lines_are_styled_by_their_start(b, s, e);
    assert(line_spans(b, s).len() > 0 && line_spans(b, s)[0] == span);
    assert(line_spans(b, 0).skip(k).len() == line_spans(b, 0).len() - k);
    assert(line_spans(b, 0).skip(k)[0] == line_spans(b, 0)[k]);
    assert(spans_of(b)[k] == span);
}

/// The spans from a later line on are the last ones of those from an earlier line on.
proof fn lemma_line_is_reached(b: Seq<u8>, pos: int, s: int)
    requires
        0 <= pos <= s < b.len(),
        s == pos || b[s - 1] == NEWLINE,
    ensures
        exists|k: int|
            0 <= k && #[trigger] line_spans(b, pos).skip(k) == line_spans(b, s) && k <= line_spans(
                b,
                pos,
            ).len(),
    decreases s - pos,
{
    if pos == s {
        assert(line_spans(b, pos).skip(0) =~= line_spans(b, s));
    } else {
        text::lemma_line_ceil(b, pos);
        let e = text::line_ceil(b, pos);
        assert(e <= s - 1);
        lemma_line_is_reached(b, e + 1, s);
        let j = choose|j: int|
            0 <= j && #[trigger] line_spans(b, e + 1).skip(j) == line_spans(b, s) && j
                <= line_spans(b, e + 1).len();
        let here = line_span(b, pos, e);
        let k = here.len() + j;
        assert(line_spans(b, pos) == here + line_spans(b, e + 1));
        assert(line_spans(b, pos).skip(k) =~= line_spans(b, e + 1).skip(j));
    }
}

/// A search in a line finds the first place from `from` on, and fails where the line has none.
pub proof fn searches_find_the_first_in_the_line(b: Seq<u8>, from: int, ch: u8)
    requires
        0 <= from <= b.len(),
    ensures
        marker_in_line(b, from, seq![ch, ch]) matches Some(i) ==> {
            &&& from <= i
            &&& twice_at(b, i, ch)
            &&& in_one_line(b, from, i)
            &&& forall|j: int| from <= j < i ==> !twice_at(b, j, ch)
        },
        marker_in_line(b, from, seq![ch, ch]) is None ==> forall|j: int|
            from <= j && in_one_line(b, from, j) ==> !twice_at(b, j, ch),
        byte_in_line(b, from, ch) matches Some(i) ==> {
            &&& from <= i < b.len()
            &&& b[i] == ch
            &&& in_one_line(b, from, i + 1)
            &&& forall|j: int| from <= j < i ==> b[j] != ch
        },
        byte_in_line(b, from, ch) is None ==> forall|j: int|
            from <= j < b.len() && in_one_line(b, from, j + 1) ==> b[j] != ch,
{
    lemma_marker_in_line(b, from, seq![ch, ch]);
    lemma_byte_in_line(b, from, ch);
    text::lemma_line_ceil(b, from);
    let e = text::line_ceil(b, from);
    match marker_in_line(b, from, seq![ch, ch]) {
        Some(i) => {
            lemma_pair(b, i, ch);
            assert forall|j: int| from <= j < i implies !twice_at(b, j, ch) by {
                lemma_pair(b, j, ch);
                assert(!stands_at(b, j, seq![ch, ch]));
            }
        },
        None => {
            assert forall|j: int| from <= j && in_one_line(b, from, j) implies !twice_at(
                b,
                j,
                ch,
            ) by {
                if twice_at(b, j, ch) {
                    if e < j {
                        assert(b[e] == NEWLINE);
                    }
                    lemma_pair(b, j, ch);
                    assert(!stands_at(b, j, seq![ch, ch]));
                }
            }
        },
    }
    if byte_in_line(b, from, ch) is None {
        assert forall|j: int| from <= j < b.len() && in_one_line(b, from, j + 1) implies b[j]
            != ch by {
            if e <= j {
                assert(b[e] == NEWLINE);
            }
        }
    }
}

} // verus!
