//! In-memory text buffer with a cursor.
//!
//! The text is one `String`. The cursor is a byte offset into it, always on a character boundary.
//! Every method takes the offsets it is given down to character boundaries and never panics.
use vstd::prelude::*;
use vstd::utf8::*;

use crate::editor::model;
use crate::editor::model::TextState;
use crate::text;
use crate::text::NEWLINE;
use crate::unicode;

verus! {

/// A text and a cursor in it.
#[derive(Debug)]
pub struct Buffer {
    content: String,
    /// Cursor byte offset. Always on a character boundary.
    cursor: usize,
}

impl View for Buffer {
    type V = TextState;

    closed spec fn view(&self) -> TextState {
        TextState { bytes: encode_utf8(self.content@), cursor: self.cursor as int }
    }
}

impl Clone for Buffer {
    fn clone(&self) -> (r: Self)
        ensures
            r@ == self@,
    {
        Buffer { content: self.content.clone(), cursor: self.cursor }
    }
}

impl Buffer {
    /// The text is UTF-8 and the cursor is on a character boundary.
    pub open spec fn wf(&self) -> bool {
        self@.wf()
    }

    pub fn new(content: String) -> (r: Self)
        ensures
            r.wf(),
            r@ == (TextState { bytes: encode_utf8(content@), cursor: 0 }),
    {
        let r = Buffer { content, cursor: 0 };
        proof {
            r.lemma_valid();
        }
        r
    }

    proof fn lemma_valid(&self)
        ensures
            valid_utf8(self@.bytes),
            text::on_boundary(self@.bytes, 0),
    {
        encode_utf8_valid_utf8(self.content@);
        text::lemma_boundary(self@.bytes, 0);
    }

    // ── Accessors ────────────────────────────────────────────────────────────

    pub fn as_str(&self) -> (r: &str)
        ensures
            encode_utf8(r@) == self@.bytes,
            r@ == decode_utf8(self@.bytes),
    {
        proof {
            encode_utf8_decode_utf8(self.content@);
        }
        self.content.as_str()
    }

    fn bytes(&self) -> (r: &[u8])
        ensures
            r@ == self@.bytes,
    {
        self.content.as_str().as_bytes()
    }

    /// Length of the text in bytes.
    pub fn len(&self) -> (r: usize)
        ensures
            r == self@.bytes.len(),
    {
        self.bytes().len()
    }

    pub fn cursor(&self) -> (r: usize)
        ensures
            r == self@.cursor,
    {
        self.cursor
    }

    /// Put the cursor at `byte_offset`, or at the nearest boundary before it.
    pub fn set_cursor(&mut self, byte_offset: usize)
        ensures
            final(self)@ == old(self)@.at(byte_offset as int),
            final(self).wf(),
    {
        proof {
            self.lemma_valid();
            text::lemma_floor_boundary(self@.bytes, byte_offset as int);
        }
        self.cursor = self.clamp(byte_offset);
    }

    /// Current (line, col), both from zero; the column counts bytes.
    pub fn cursor_lc(&self) -> (r: (usize, usize))
        requires
            self.wf(),
        ensures
            r.0 == text::newlines(self@.bytes, self@.cursor),
            r.1 == self@.cursor - text::line_floor(self@.bytes, self@.cursor),
    {
        self.byte_to_lc(self.cursor)
    }

    /// Number of lines, at least one. A newline at the very end opens no line of its own.
    pub fn line_count(&self) -> (r: usize)
        ensures
            r == text::line_count(self@.bytes),
            r >= 1,
    {
        let b = self.bytes();
        let n: usize = text::count_newlines(b, b.len());
        if b.len() == 0 || b[b.len() - 1] != NEWLINE {
            proof {
                lemma_some_byte_is_no_newline(b@);
            }
            n + 1
        } else {
            n
        }
    }

    /// Byte offset of the start of `line`, from zero; the length of the text where there is no
    /// such line.
    pub fn line_start(&self, line: usize) -> (r: usize)
        ensures
            r == text::line_start(self@.bytes, line as nat),
            r <= self@.bytes.len(),
    {
        text::line_start_offset(self.bytes(), line)
    }

    /// Byte offset just past the last character of `line` that is no newline.
    pub fn line_end(&self, line: usize) -> (r: usize)
        ensures
            r == text::line_ceil(self@.bytes, text::line_start(self@.bytes, line as nat)),
            r <= self@.bytes.len(),
    {
        let start: usize = self.line_start(line);
        text::line_ceil_offset(self.bytes(), start)
    }

    // ── Mutations ────────────────────────────────────────────────────────────

    /// Insert `t` at the cursor and advance the cursor past it.
    pub fn insert(&mut self, t: &str)
        requires
            old(self).wf(),
        ensures
            final(self)@ == old(self)@.insert(encode_utf8(t@)),
            final(self).wf(),
    {
        let pos: usize = self.cursor;
        self.put(pos, pos, t);
    }

    /// Replace the bytes from `start` up to `end` by `t` and stand behind it.
    fn put(&mut self, start: usize, end: usize, t: &str)
        requires
            old(self).wf(),
            start <= end,
            text::on_boundary(old(self)@.bytes, start as int),
            text::on_boundary(old(self)@.bytes, end as int),
        ensures
            final(self)@.bytes == text::spliced(
                old(self)@.bytes,
                start as int,
                end as int,
                encode_utf8(t@),
            ),
            final(self)@.cursor == start + encode_utf8(t@).len(),
            final(self).wf(),
    {
        let next = text::splice(self.content.as_str(), start, end, t);
        proof {
            encode_utf8_valid_utf8(t@);
            model::lemma_spliced(self@.bytes, start as int, end as int, encode_utf8(t@));
        }
        let total: usize = next.as_str().as_bytes().len();
        assert(start + encode_utf8(t@).len() <= total);
        self.content = next;
        self.cursor = start + t.as_bytes().len();
    }

    /// Delete the character to the left of the cursor (backspace).
    pub fn delete_backward(&mut self)
        requires
            old(self).wf(),
        ensures
            final(self)@ == old(self)@.delete_backward(),
            final(self).wf(),
    {
        let start: usize = text::prev_offset(self.bytes(), self.cursor);
        proof {
            text::lemma_floor_boundary(self@.bytes, self.cursor - 1);
            lemma_empty_text();
        }
        let end: usize = self.cursor;
        self.put(start, end, "");
    }

    /// Delete the character under the cursor (Vim `x`).
    pub fn delete_char_forward(&mut self)
        requires
            old(self).wf(),
        ensures
            final(self)@ == old(self)@.delete_char_forward(),
            final(self).wf(),
    {
        let end: usize = text::next_offset(self.bytes(), self.cursor);
        proof {
            text::lemma_ceil_boundary(self@.bytes, self.cursor + 1);
            lemma_empty_text();
        }
        let start: usize = self.cursor;
        self.put(start, end, "");
    }

    /// Delete from `start` up to `end`.
    pub fn delete_range(&mut self, start: usize, end: usize)
        requires
            old(self).wf(),
        ensures
            final(self)@ == old(self)@.delete_range(start as int, end as int),
            final(self).wf(),
    {
        let lo: usize = self.clamp(start);
        let hi: usize = self.clamp(end);
        if lo >= hi {
            return;
        }
        proof {
            lemma_empty_text();
        }
        self.put(lo, hi, "");
    }

    /// Replace the range from `start` up to `end` by `t`. An `end` before `start` counts as
    /// `start`.
    pub fn replace_range(&mut self, start: usize, end: usize, t: &str)
        requires
            old(self).wf(),
        ensures
            final(self)@ == old(self)@.replace_range(start as int, end as int, encode_utf8(t@)),
            final(self).wf(),
    {
        let lo: usize = self.clamp(start);
        let to: usize = self.clamp(end);
        let hi: usize = if to < lo {
            lo
        } else {
            to
        };
        self.put(lo, hi, t);
    }

    /// Replace the whole text and go to its start.
    pub fn set_content(&mut self, t: String)
        ensures
            final(self)@ == (TextState { bytes: encode_utf8(t@), cursor: 0 }),
            final(self).wf(),
    {
        self.content = t;
        self.cursor = 0;
        proof {
            self.lemma_valid();
        }
    }

    /// Append a newline at the very end without moving the cursor.
    pub fn push_newline_at_end(&mut self)
        requires
            old(self).wf(),
        ensures
            final(self)@.bytes == old(self)@.bytes.push(NEWLINE),
            final(self)@.cursor == old(self)@.cursor,
            final(self).wf(),
    {
        let ghost before = self.content@;
        let ghost b = self@.bytes;
        self.content.push('\n');
        proof {
            assert(before.push('\n') =~= before + seq!['\n']);
            text::lemma_encode_concat(before, seq!['\n']);
            unicode::lemma_utf8_width('\n');
            assert(encode_scalar('\n' as u32) =~= seq![NEWLINE]) by {
                assert(leading_byte_width_1(10u32) == 10u8) by (bit_vector);
            }
            assert(self@.bytes =~= b.push(NEWLINE));
            encode_utf8_valid_utf8(self.content@);
        }
    }

    // ── Cursor motions ───────────────────────────────────────────────────────

    /// Move `n` characters to the left.
    pub fn move_left(&mut self, n: usize)
        requires
            old(self).wf(),
        ensures
            final(self)@ == old(self)@.with_cursor(
                model::left(old(self)@.bytes, old(self)@.cursor, n as nat),
            ),
            final(self).wf(),
    {
        let ghost start = self@;
        let mut i: usize = 0;
        while i < n && 0 < self.cursor
            invariant
                i <= n,
                self.wf(),
                start == old(self)@,
                self@.bytes == start.bytes,
                model::left(start.bytes, self@.cursor, (n - i) as nat) == model::left(
                    start.bytes,
                    start.cursor,
                    n as nat,
                ),
            decreases n - i,
        {
            proof {
                text::lemma_floor_boundary(self@.bytes, self.cursor - 1);
            }
            self.cursor = text::prev_offset(self.bytes(), self.cursor);
            i = i + 1;
        }
    }

    /// Move `n` characters to the right. A step onto a newline is not taken.
    pub fn move_right(&mut self, n: usize)
        requires
            old(self).wf(),
        ensures
            final(self)@ == old(self)@.with_cursor(
                model::right(old(self)@.bytes, old(self)@.cursor, n as nat),
            ),
            final(self).wf(),
    {
        let ghost start = self@;
        let mut i: usize = 0;
        while i < n && self.cursor < self.len()
            invariant
                i <= n,
                self.wf(),
                start == old(self)@,
                self@.bytes == start.bytes,
                model::right(start.bytes, self@.cursor, (n - i) as nat) == model::right(
                    start.bytes,
                    start.cursor,
                    n as nat,
                ),
            decreases n - i,
        {
            let b = self.bytes();
            let next: usize = text::next_offset(b, self.cursor);
            if next < b.len() && b[next] == NEWLINE {
                return;
            }
            proof {
                text::lemma_ceil_boundary(self@.bytes, self.cursor + 1);
            }
            self.cursor = next;
            i = i + 1;
        }
    }

    /// Go to line `line`, to the column that the cursor has now or to the end of that line where
    /// it is shorter.
    fn move_to_line(&mut self, line: usize)
        requires
            old(self).wf(),
        ensures
            final(self)@ == old(self)@.with_cursor(
                model::same_column(old(self)@.bytes, old(self)@.cursor, line as nat),
            ),
            final(self).wf(),
    {
        proof {
            model::lemma_same_column(self@.bytes, self@.cursor, line as nat);
            model::lemma_line_boundaries(self@.bytes, self@.cursor);
            text::lemma_line_start(self@.bytes, line as nat);
            text::lemma_line_ceil(self@.bytes, text::line_start(self@.bytes, line as nat));
        }
        let (_line, col) = self.cursor_lc();
        let start: usize = self.line_start(line);
        let end: usize = self.line_end(line);
        let wanted: usize = if col < end - start {
            start + col
        } else {
            end
        };
        self.cursor = self.clamp(wanted);
    }

    /// Move up `n` lines.
    pub fn move_up(&mut self, n: usize)
        requires
            old(self).wf(),
        ensures
            final(self)@ == old(self)@.with_cursor(
                model::up(old(self)@.bytes, old(self)@.cursor, n as nat),
            ),
            final(self).wf(),
    {
        let (line, _col) = self.cursor_lc();
        self.move_to_line(line.saturating_sub(n));
    }

    /// Move down `n` lines, no further than the last one. From behind a final newline, which starts
    /// no line, this leads up to the line that the newline ends.
    pub fn move_down(&mut self, n: usize)
        requires
            old(self).wf(),
        ensures
            final(self)@ == old(self)@.with_cursor(
                model::down(old(self)@.bytes, old(self)@.cursor, n as nat),
            ),
            final(self).wf(),
    {
        let (line, _col) = self.cursor_lc();
        let last: usize = self.line_count() - 1;
        let wanted: usize = line.saturating_add(n);
        self.move_to_line(
            if wanted < last {
                wanted
            } else {
                last
            },
        );
    }

    /// Move to the start of the current line (Vim `0`).
    pub fn move_to_line_start(&mut self)
        requires
            old(self).wf(),
        ensures
            final(self)@ == old(self)@.with_cursor(
                text::line_floor(old(self)@.bytes, old(self)@.cursor),
            ),
            final(self).wf(),
    {
        proof {
            model::lemma_line_boundaries(self@.bytes, self@.cursor);
        }
        self.cursor = text::line_floor_offset(self.bytes(), self.cursor);
    }

    /// Move to the end of the current line (Vim `$`).
    pub fn move_to_line_end(&mut self)
        requires
            old(self).wf(),
        ensures
            final(self)@ == old(self)@.with_cursor(
                text::line_ceil(old(self)@.bytes, old(self)@.cursor),
            ),
            final(self).wf(),
    {
        proof {
            model::lemma_line_boundaries(self@.bytes, self@.cursor);
        }
        self.cursor = text::line_ceil_offset(self.bytes(), self.cursor);
    }

    /// Move to the first character of the current line that is no white space (Vim `^`).
    pub fn move_to_first_nonblank(&mut self)
        requires
            old(self).wf(),
        ensures
            final(self)@ == old(self)@.with_cursor(
                model::first_nonblank(old(self)@.bytes, old(self)@.cursor),
            ),
            final(self).wf(),
    {
        proof {
            model::lemma_line_boundaries(self@.bytes, self@.cursor);
            model::lemma_first_nonblank(self@.bytes, self@.cursor);
        }
        let start: usize = text::line_floor_offset(self.bytes(), self.cursor);
        let end: usize = text::line_ceil_offset(self.bytes(), self.cursor);
        let line = text::between(self.content.as_str(), start, end);
        proof {
            encode_utf8_decode_utf8(line@);
        }
        self.cursor = start + nonblank_offset(line);
    }

    /// Move to the first line (Vim `gg`).
    pub fn move_to_first_line(&mut self)
        ensures
            final(self)@ == old(self)@.with_cursor(0),
            final(self).wf(),
    {
        proof {
            self.lemma_valid();
        }
        self.cursor = 0;
    }

    /// Move to the last line (Vim `G`).
    pub fn move_to_last_line(&mut self)
        ensures
            final(self)@ == old(self)@.with_cursor(model::last_line(old(self)@.bytes)),
            final(self).wf(),
    {
        let last: usize = self.line_count() - 1;
        proof {
            self.lemma_valid();
            model::lemma_line_start_boundary(self@.bytes, last as nat);
        }
        self.cursor = self.line_start(last);
    }

    /// Move to the start of the next word, `n` times (Vim `w`).
    pub fn move_word_forward(&mut self, n: usize)
        requires
            old(self).wf(),
        ensures
            final(self)@ == old(self)@.with_cursor(
                model::words_forward(old(self)@.bytes, old(self)@.cursor, n as nat),
            ),
            final(self).wf(),
    {
        let ghost start = self@;
        let mut i: usize = 0;
        while i < n
            invariant
                i <= n,
                self.wf(),
                start == old(self)@,
                self@.bytes == start.bytes,
                model::words_forward(start.bytes, self@.cursor, (n - i) as nat)
                    == model::words_forward(start.bytes, start.cursor, n as nat),
            decreases n - i,
        {
            let next: usize = text::next_word_offset(self.bytes(), self.cursor);
            if next == self.cursor {
                return;
            }
            proof {
                text::lemma_word_steps(self@.bytes, self@.cursor);
            }
            self.cursor = next;
            i = i + 1;
        }
    }

    /// Move to the start of the previous word, `n` times (Vim `b`).
    pub fn move_word_backward(&mut self, n: usize)
        requires
            old(self).wf(),
        ensures
            final(self)@ == old(self)@.with_cursor(
                model::words_backward(old(self)@.bytes, old(self)@.cursor, n as nat),
            ),
            final(self).wf(),
    {
        let ghost start = self@;
        let mut i: usize = 0;
        while i < n
            invariant
                i <= n,
                self.wf(),
                start == old(self)@,
                self@.bytes == start.bytes,
                model::words_backward(start.bytes, self@.cursor, (n - i) as nat)
                    == model::words_backward(start.bytes, start.cursor, n as nat),
            decreases n - i,
        {
            let next: usize = text::prev_word_offset(self.bytes(), self.cursor);
            if next == self.cursor {
                return;
            }
            proof {
                text::lemma_word_steps(self@.bytes, self@.cursor);
            }
            self.cursor = next;
            i = i + 1;
        }
    }

    /// Move to the end of the word, `n` times (Vim `e`).
    pub fn move_word_end(&mut self, n: usize)
        requires
            old(self).wf(),
        ensures
            final(self)@ == old(self)@.with_cursor(
                model::word_ends(old(self)@.bytes, old(self)@.cursor, n as nat),
            ),
            final(self).wf(),
    {
        let ghost start = self@;
        let mut i: usize = 0;
        while i < n
            invariant
                i <= n,
                self.wf(),
                start == old(self)@,
                self@.bytes == start.bytes,
                model::word_ends(start.bytes, self@.cursor, (n - i) as nat) == model::word_ends(
                    start.bytes,
                    start.cursor,
                    n as nat,
                ),
            decreases n - i,
        {
            let next: usize = text::word_end_offset(self.bytes(), self.cursor);
            if next == self.cursor {
                return;
            }
            proof {
                text::lemma_word_steps(self@.bytes, self@.cursor);
            }
            self.cursor = next;
            i = i + 1;
        }
    }

    // ── Line-level helpers ───────────────────────────────────────────────────

    /// Byte range of the current line, its newline included where it has one.
    pub fn current_line_range(&self) -> (r: (usize, usize))
        requires
            self.wf(),
        ensures
            r.0 == self@.line_range().0,
            r.1 == self@.line_range().1,
            text::on_boundary(self@.bytes, r.0 as int),
            text::on_boundary(self@.bytes, r.1 as int),
            r.0 <= r.1,
    {
        self.lines_around(self.cursor, self.cursor)
    }

    /// Byte range of the lines from the one that holds `lo` to the one that holds `hi`, the last
    /// newline included if present.
    pub(crate) fn lines_around(&self, lo: usize, hi: usize) -> (r: (usize, usize))
        requires
            self.wf(),
            lo <= hi <= self@.bytes.len(),
        ensures
            r.0 == model::whole_lines(self@.bytes, lo as int, hi as int).0,
            r.1 == model::whole_lines(self@.bytes, lo as int, hi as int).1,
            text::on_boundary(self@.bytes, r.0 as int),
            text::on_boundary(self@.bytes, r.1 as int),
            r.0 <= r.1,
    {
        proof {
            model::lemma_line_boundaries(self@.bytes, lo as int);
            model::lemma_line_boundaries(self@.bytes, hi as int);
        }
        let b = self.bytes();
        let start: usize = text::line_floor_offset(b, lo);
        let end: usize = text::line_ceil_offset(b, hi);
        if end < b.len() {
            (start, end + 1)
        } else {
            (start, end)
        }
    }

    /// Where the character after the one at the cursor starts.
    pub(crate) fn after_cursor(&self) -> (r: usize)
        requires
            self.wf(),
        ensures
            r == text::next_char(self@.bytes, self@.cursor),
    {
        text::next_offset(self.bytes(), self.cursor)
    }

    /// A copy of the bytes from `start` up to `end`.
    pub(crate) fn slice(&self, start: usize, end: usize) -> (r: String)
        requires
            self.wf(),
            start <= end,
            text::on_boundary(self@.bytes, start as int),
            text::on_boundary(self@.bytes, end as int),
        ensures
            encode_utf8(r@) == self@.bytes.subrange(start as int, end as int),
    {
        text::between(self.content.as_str(), start, end).to_owned()
    }

    /// The greatest character boundary that is not above `offset`.
    pub(crate) fn clamp(&self, offset: usize) -> (r: usize)
        ensures
            r == text::floor_boundary(self@.bytes, offset as int),
            text::on_boundary(self@.bytes, r as int),
    {
        proof {
            self.lemma_valid();
            text::lemma_floor_boundary(self@.bytes, offset as int);
        }
        text::floor_offset(self.bytes(), offset)
    }

    fn byte_to_lc(&self, byte: usize) -> (r: (usize, usize))
        requires
            byte <= self@.bytes.len(),
        ensures
            r.0 == text::newlines(self@.bytes, byte as int),
            r.1 == byte - text::line_floor(self@.bytes, byte as int),
    {
        let b = self.bytes();
        let line: usize = text::count_newlines(b, byte);
        let start: usize = text::line_floor_offset(b, byte);
        (line, byte - start)
    }
}

proof fn lemma_empty_text()
    ensures
        encode_utf8(""@) == Seq::<u8>::empty(),
{
    reveal_strlit("");
    assert(""@ =~= Seq::<char>::empty());
}

/// A text whose last byte is no newline has fewer newlines than bytes.
proof fn lemma_some_byte_is_no_newline(b: Seq<u8>)
    requires
        b.len() == 0 || b.last() != NEWLINE,
    ensures
        b.len() > 0 ==> text::newlines(b, b.len() as int) < b.len(),
{
    if b.len() > 0 {
        text::lemma_newlines_bound(b, b.len() - 1);
    }
}

/// Byte offset of the first character of `s` that is no white space, or zero where there is none.
fn nonblank_offset(s: &str) -> (r: usize)
    ensures
        r == (if model::blank(s@) { 0 } else { model::blank_prefix(s@) }),
{
    let total: usize = s.as_bytes().len();
    let mut offset: usize = 0;
    proof {
        assert(s@.skip(0) =~= s@);
        assert(s@.take(0) =~= Seq::<char>::empty());
    }
    for c in it: s.chars()
        invariant
            it.seq() == s@,
            total == encode_utf8(s@).len(),
            offset == encode_utf8(s@.take(it.index() as int)).len(),
            forall|i: int| 0 <= i < it.index() ==> unicode::white_space(#[trigger] s@[i]),
            offset + model::blank_prefix(s@.skip(it.index() as int)) == model::blank_prefix(s@),
    {
        let ghost k = it.index() as int;
        assert(s@.skip(k)[0] == c);
        if !unicode::is_white_space(c) {
            assert(s@[k] == c);
            return offset;
        }
        proof {
            assert(s@.take(k + 1) =~= s@.take(k) + seq![c]);
            text::lemma_encode_concat(s@.take(k), seq![c]);
            unicode::lemma_utf8_width(c);
            assert(s@ =~= s@.take(k + 1) + s@.skip(k + 1));
            text::lemma_encode_concat(s@.take(k + 1), s@.skip(k + 1));
            assert(s@.skip(k).drop_first() =~= s@.skip(k + 1));
        }
        offset = offset + unicode::utf8_width_of(c);
    }
    0
}

} // verus!
