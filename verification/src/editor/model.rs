//! What a text with a cursor is, and where each motion leads.
use vstd::prelude::*;
use vstd::utf8::*;

use crate::text;
use crate::text::NEWLINE;
use crate::unicode;

verus! {

// ── Where motions lead ───────────────────────────────────────────────────────

/// `n` characters to the left of `c`, no further than the start of the text.
pub open spec fn left(b: Seq<u8>, c: int, n: nat) -> int
    decreases n,
{
    if n == 0 || c <= 0 {
        c
    } else {
        left(b, text::prev_char(b, c), (n - 1) as nat)
    }
}

/// `n` characters to the right of `c`. A step that would land on a newline is not taken.
pub open spec fn right(b: Seq<u8>, c: int, n: nat) -> int
    decreases n,
{
    if n == 0 || c >= b.len() {
        c
    } else {
        let next = text::next_char(b, c);
        if next < b.len() && b[next] == NEWLINE {
            c
        } else {
            right(b, next, (n - 1) as nat)
        }
    }
}

/// The place in line `k` that has the column of `c`, or the end of that line where it is shorter.
pub open spec fn same_column(b: Seq<u8>, c: int, k: nat) -> int {
    let start = text::line_start(b, k);
    let end = text::line_ceil(b, start);
    let wanted = start + (c - text::line_floor(b, c));
    text::floor_boundary(b, if wanted < end { wanted } else { end })
}

/// `n` lines up from `c`, no further than the first line.
pub open spec fn up(b: Seq<u8>, c: int, n: nat) -> int {
    let line = text::newlines(b, c);
    same_column(b, c, if n < line { (line - n) as nat } else { 0 })
}

/// `n` lines down from `c`, no further than the last line. A final newline ends the last line and
/// starts no other one, so from behind it this leads up, to the line that it ends.
pub open spec fn down(b: Seq<u8>, c: int, n: nat) -> int {
    let line = text::newlines(b, c);
    let last = (text::line_count(b) - 1) as nat;
    same_column(b, c, if line + n < last { line + n } else { last })
}

/// How many bytes the white space at the start of `s` takes.
pub open spec fn blank_prefix(s: Seq<char>) -> int
    decreases s.len(),
{
    if s.len() == 0 || !unicode::white_space(s[0]) {
        0
    } else {
        unicode::utf8_width(s[0]) + blank_prefix(s.drop_first())
    }
}

/// `s` holds nothing but white space.
pub open spec fn blank(s: Seq<char>) -> bool {
    forall|i: int| 0 <= i < s.len() ==> unicode::white_space(#[trigger] s[i])
}

/// The text of the line that holds `c`, without its newline.
pub open spec fn line_text(b: Seq<u8>, c: int) -> Seq<char> {
    decode_utf8(b.subrange(text::line_floor(b, c), text::line_ceil(b, c)))
}

/// The first character of the line of `c` that is no white space; the start of the line where
/// there is none.
pub open spec fn first_nonblank(b: Seq<u8>, c: int) -> int {
    let line = line_text(b, c);
    text::line_floor(b, c) + if blank(line) { 0 } else { blank_prefix(line) }
}

/// The lines from the one that holds `lo` to the one that holds `hi`, the newline of the last of
/// them included where it has one.
pub open spec fn whole_lines(b: Seq<u8>, lo: int, hi: int) -> (int, int) {
    let end = text::line_ceil(b, hi);
    (
        text::line_floor(b, lo),
        if end < b.len() {
            end + 1
        } else {
            end
        },
    )
}

/// The start of the last line.
pub open spec fn last_line(b: Seq<u8>) -> int {
    text::line_start(b, (text::line_count(b) - 1) as nat)
}

/// `n` words forward from `c`.
pub open spec fn words_forward(b: Seq<u8>, c: int, n: nat) -> int
    decreases n,
{
    if n == 0 || text::next_word(b, c) == c {
        c
    } else {
        words_forward(b, text::next_word(b, c), (n - 1) as nat)
    }
}

/// `n` words back from `c`.
pub open spec fn words_backward(b: Seq<u8>, c: int, n: nat) -> int
    decreases n,
{
    if n == 0 || text::prev_word(b, c) == c {
        c
    } else {
        words_backward(b, text::prev_word(b, c), (n - 1) as nat)
    }
}

/// `n` word ends forward from `c`.
pub open spec fn word_ends(b: Seq<u8>, c: int, n: nat) -> int
    decreases n,
{
    if n == 0 || text::word_end(b, c) == c {
        c
    } else {
        word_ends(b, text::word_end(b, c), (n - 1) as nat)
    }
}

// ── A text with a cursor ─────────────────────────────────────────────────────

/// A text in UTF-8 and a byte offset into it.
#[verifier::ext_equal]
pub struct TextState {
    pub bytes: Seq<u8>,
    pub cursor: int,
}

impl TextState {
    /// The bytes are UTF-8 and the cursor is on a character boundary.
    pub open spec fn wf(self) -> bool {
        &&& valid_utf8(self.bytes)
        &&& text::on_boundary(self.bytes, self.cursor)
    }

    pub open spec fn with_cursor(self, cursor: int) -> TextState {
        TextState { bytes: self.bytes, cursor }
    }

    /// The cursor put at `offset`, or at the nearest boundary before it.
    pub open spec fn at(self, offset: int) -> TextState {
        self.with_cursor(text::floor_boundary(self.bytes, offset))
    }

    /// `t` put in at the cursor, which then stands behind it.
    pub open spec fn insert(self, t: Seq<u8>) -> TextState {
        TextState {
            bytes: text::spliced(self.bytes, self.cursor, self.cursor, t),
            cursor: self.cursor + t.len(),
        }
    }

    /// The character before the cursor taken out.
    pub open spec fn delete_backward(self) -> TextState {
        let start = text::prev_char(self.bytes, self.cursor);
        TextState {
            bytes: text::spliced(self.bytes, start, self.cursor, Seq::empty()),
            cursor: start,
        }
    }

    /// The character at the cursor taken out.
    pub open spec fn delete_char_forward(self) -> TextState {
        let next = text::next_char(self.bytes, self.cursor);
        TextState {
            bytes: text::spliced(self.bytes, self.cursor, next, Seq::empty()),
            cursor: self.cursor,
        }
    }

    /// The bytes from `start` up to `end` replaced by `t`, with the cursor behind it. Both offsets
    /// are first taken down to character boundaries; an `end` before `start` counts as `start`.
    pub open spec fn replace_range(self, start: int, end: int, t: Seq<u8>) -> TextState {
        let lo = text::floor_boundary(self.bytes, start);
        let to = text::floor_boundary(self.bytes, end);
        let hi = if to < lo { lo } else { to };
        TextState { bytes: text::spliced(self.bytes, lo, hi, t), cursor: lo + t.len() }
    }

    /// The bytes from `start` up to `end` taken out, with the cursor where they stood. An empty
    /// range changes nothing. Both offsets are first taken down to character boundaries.
    pub open spec fn delete_range(self, start: int, end: int) -> TextState {
        let lo = text::floor_boundary(self.bytes, start);
        let hi = text::floor_boundary(self.bytes, end);
        if lo < hi {
            self.replace_range(start, end, Seq::empty())
        } else {
            self
        }
    }

    /// The line of the cursor, with its newline where it has one.
    pub open spec fn line_range(self) -> (int, int) {
        whole_lines(self.bytes, self.cursor, self.cursor)
    }
}

// ── Every motion keeps to character boundaries ───────────────────────────────

pub proof fn lemma_left(b: Seq<u8>, c: int, n: nat)
    requires
        valid_utf8(b),
        text::on_boundary(b, c),
    ensures
        text::on_boundary(b, left(b, c, n)),
        left(b, c, n) <= c,
    decreases n,
{
    if n > 0 && c > 0 {
        text::lemma_floor_boundary(b, c - 1);
        lemma_left(b, text::prev_char(b, c), (n - 1) as nat);
    }
}

pub proof fn lemma_right(b: Seq<u8>, c: int, n: nat)
    requires
        valid_utf8(b),
        text::on_boundary(b, c),
    ensures
        text::on_boundary(b, right(b, c, n)),
        c <= right(b, c, n),
    decreases n,
{
    if n > 0 && c < b.len() {
        text::lemma_ceil_boundary(b, c + 1);
        lemma_right(b, text::next_char(b, c), (n - 1) as nat);
    }
}

/// Lines start and end on character boundaries.
pub proof fn lemma_line_boundaries(b: Seq<u8>, c: int)
    requires
        valid_utf8(b),
        0 <= c <= b.len(),
    ensures
        text::on_boundary(b, text::line_floor(b, c)),
        text::on_boundary(b, text::line_ceil(b, c)),
        text::line_ceil(b, c) < b.len() ==> text::on_boundary(b, text::line_ceil(b, c) + 1),
        0 <= text::line_floor(b, c) <= c <= text::line_ceil(b, c) <= b.len(),
{
    text::lemma_boundary(b, 0);
    text::lemma_line_floor(b, c);
    text::lemma_line_ceil(b, c);
    let s = text::line_floor(b, c);
    if s > 0 {
        text::lemma_after_ascii(b, s - 1);
    }
    let e = text::line_ceil(b, c);
    if e < b.len() {
        text::lemma_after_ascii(b, e);
    }
}

pub proof fn lemma_line_start_boundary(b: Seq<u8>, k: nat)
    requires
        valid_utf8(b),
    ensures
        text::on_boundary(b, text::line_start(b, k)),
{
    text::lemma_boundary(b, 0);
    text::lemma_line_start(b, k);
    let s = text::line_start(b, k);
    if 0 < s < b.len() {
        text::lemma_after_ascii(b, s - 1);
    }
}

pub proof fn lemma_words(b: Seq<u8>, c: int, n: nat)
    requires
        valid_utf8(b),
        text::on_boundary(b, c),
    ensures
        text::on_boundary(b, words_forward(b, c, n)),
        text::on_boundary(b, words_backward(b, c, n)),
        text::on_boundary(b, word_ends(b, c, n)),
        words_backward(b, c, n) <= c <= words_forward(b, c, n),
        c <= word_ends(b, c, n),
    decreases n,
{
    text::lemma_word_steps(b, c);
    if n > 0 {
        lemma_words(b, text::next_word(b, c), (n - 1) as nat);
        lemma_words(b, text::prev_word(b, c), (n - 1) as nat);
        lemma_words(b, text::word_end(b, c), (n - 1) as nat);
    }
}

pub proof fn lemma_same_column(b: Seq<u8>, c: int, k: nat)
    requires
        valid_utf8(b),
        text::on_boundary(b, c),
    ensures
        text::on_boundary(b, same_column(b, c, k)),
        text::line_start(b, k) <= same_column(b, c, k) <= text::line_ceil(
            b,
            text::line_start(b, k),
        ),
{
    lemma_line_start_boundary(b, k);
    let start = text::line_start(b, k);
    lemma_line_boundaries(b, start);
    lemma_line_boundaries(b, c);
    let end = text::line_ceil(b, start);
    let wanted = start + (c - text::line_floor(b, c));
    let to = if wanted < end { wanted } else { end };
    text::lemma_floor_boundary(b, to);
    if text::floor_boundary(b, to) < start {
        assert(!text::on_boundary(b, start));
    }
}

/// What the white space at the start of a text that is not blank leads to.
pub proof fn lemma_blank_prefix(s: Seq<char>)
    ensures
        0 <= blank_prefix(s) <= encode_utf8(s).len(),
        text::on_boundary(encode_utf8(s), blank_prefix(s)),
    decreases s.len(),
{
    encode_utf8_valid_utf8(s);
    text::lemma_boundary(encode_utf8(s), 0);
    if s.len() > 0 && unicode::white_space(s[0]) {
        let rest = s.drop_first();
        lemma_blank_prefix(rest);
        unicode::lemma_utf8_width(s[0]);
        let w = unicode::utf8_width(s[0]);
        let p = blank_prefix(rest);
        assert(encode_utf8(s) == encode_scalar(s[0] as u32) + encode_utf8(rest));
        if p < encode_utf8(rest).len() {
            assert(encode_utf8(s)[w + p] == encode_utf8(rest)[p]);
        }
    }
}

pub proof fn lemma_first_nonblank(b: Seq<u8>, c: int)
    requires
        valid_utf8(b),
        text::on_boundary(b, c),
    ensures
        text::on_boundary(b, first_nonblank(b, c)),
        text::line_floor(b, c) <= first_nonblank(b, c) <= text::line_ceil(b, c),
        encode_utf8(line_text(b, c)) == b.subrange(text::line_floor(b, c), text::line_ceil(b, c)),
{
    lemma_line_boundaries(b, c);
    let s = text::line_floor(b, c);
    let e = text::line_ceil(b, c);
    lemma_subrange_valid(b, s, e);
    let mid = b.subrange(s, e);
    decode_utf8_encode_utf8(mid);
    let line = line_text(b, c);
    lemma_blank_prefix(line);
    let p = blank_prefix(line);
    if p < mid.len() {
        assert(mid[p] == b[s + p]);
    }
}

/// What stands between two boundaries is UTF-8.
pub proof fn lemma_subrange_valid(b: Seq<u8>, lo: int, hi: int)
    requires
        valid_utf8(b),
        text::on_boundary(b, lo),
        text::on_boundary(b, hi),
        lo <= hi,
    ensures
        valid_utf8(b.subrange(lo, hi)),
{
    text::lemma_boundary(b, hi);
    valid_utf8_split(b, hi);
    let head = b.subrange(0, hi);
    if lo < hi {
        assert(head[lo] == b[lo]);
    }
    text::lemma_boundary(head, lo);
    valid_utf8_split(head, lo);
    assert(head.subrange(lo, head.len() as int) =~= b.subrange(lo, hi));
}

/// Replacing what stands between two boundaries by UTF-8 keeps the text UTF-8, and the ends of
/// what was put in are boundaries.
pub proof fn lemma_spliced(b: Seq<u8>, lo: int, hi: int, t: Seq<u8>)
    requires
        valid_utf8(b),
        valid_utf8(t),
        text::on_boundary(b, lo),
        text::on_boundary(b, hi),
        lo <= hi,
    ensures
        valid_utf8(text::spliced(b, lo, hi, t)),
        text::on_boundary(text::spliced(b, lo, hi, t), lo),
        text::on_boundary(text::spliced(b, lo, hi, t), lo + t.len()),
        text::spliced(b, lo, hi, t).len() == b.len() - (hi - lo) + t.len(),
{
    text::lemma_boundary(b, lo);
    text::lemma_boundary(b, hi);
    valid_utf8_split(b, lo);
    valid_utf8_split(b, hi);
    let head = b.subrange(0, lo);
    let tail = b.subrange(hi, b.len() as int);
    valid_utf8_concat(head, t);
    valid_utf8_concat(head + t, tail);
    let r = text::spliced(b, lo, hi, t);
    if hi < b.len() {
        assert(r[lo + t.len()] == b[hi]);
    }
    if t.len() > 0 {
        text::lemma_boundary(t, 0);
        assert(r[lo] == t[0]);
    }
}

impl TextState {
    /// Every edit of a well-formed text gives a well-formed text.
    pub proof fn lemma_edits(self, start: int, end: int, t: Seq<u8>)
        requires
            self.wf(),
            valid_utf8(t),
        ensures
            self.at(start).wf(),
            self.insert(t).wf(),
            self.delete_backward().wf(),
            self.delete_char_forward().wf(),
            self.replace_range(start, end, t).wf(),
            self.delete_range(start, end).wf(),
    {
        let b = self.bytes;
        let c = self.cursor;
        assert(valid_utf8(Seq::<u8>::empty()));
        text::lemma_floor_boundary(b, start);
        text::lemma_floor_boundary(b, end);
        text::lemma_floor_boundary(b, c - 1);
        text::lemma_ceil_boundary(b, c + 1);
        lemma_spliced(b, c, c, t);
        lemma_spliced(b, text::prev_char(b, c), c, Seq::empty());
        lemma_spliced(b, c, text::next_char(b, c), Seq::empty());
        let lo = text::floor_boundary(b, start);
        let to = text::floor_boundary(b, end);
        let hi = if to < lo { lo } else { to };
        lemma_spliced(b, lo, hi, t);
        lemma_spliced(b, lo, hi, Seq::empty());
    }
}

} // verus!
