//! What motions and edits do, in characters and lines.
use vstd::prelude::*;
use vstd::utf8::*;

use crate::editor::model;
use crate::editor::model::TextState;
use crate::text;
use crate::text::NEWLINE;
use crate::unicode;

verus! {

// ── Along the characters ─────────────────────────────────────────────────────

/// A move to the left goes `n` characters back, or to the start of the text where there are not so
/// many.
pub proof fn left_counts_characters(b: Seq<u8>, c: int, n: nat)
    requires
        valid_utf8(b),
        text::on_boundary(b, c),
    ensures
        text::on_boundary(b, model::left(b, c, n)),
        unicode::chars_before(b, model::left(b, c, n)) == (if n <= unicode::chars_before(b, c) {
            (unicode::chars_before(b, c) - n) as nat
        } else {
            0
        }),
    decreases n,
{
    if c == 0 {
        assert(b.subrange(0, 0) =~= Seq::<u8>::empty());
    } else if n > 0 {
        let p = text::prev_char(b, c);
        text::character_steps_lead_to_the_nearest_boundaries(b, c);
        unicode::lemma_one_character(b, p, c);
        left_counts_characters(b, p, (n - 1) as nat);
    }
}

/// A move to the right goes `n` characters on. It passes over no newline and onto none: it stops
/// early only at the end of the text and in front of a character that a newline follows.
pub proof fn right_counts_characters_in_the_line(b: Seq<u8>, c: int, n: nat)
    requires
        valid_utf8(b),
        text::on_boundary(b, c),
    ensures
        ({
            let r = model::right(b, c, n);
            &&& text::on_boundary(b, r)
            &&& c <= r
            &&& unicode::chars_before(b, r) <= unicode::chars_before(b, c) + n
            &&& forall|j: int| c < j <= r && j < b.len() ==> b[j] != '\n' as u8
            &&& unicode::chars_before(b, r) == unicode::chars_before(b, c) + n || r == b.len() || {
                &&& text::next_char(b, r) < b.len()
                &&& b[text::next_char(b, r)] == '\n' as u8
            }
        }),
    decreases n,
{
    if n > 0 && c < b.len() {
        let next = text::next_char(b, c);
        text::character_steps_lead_to_the_nearest_boundaries(b, c);
        unicode::lemma_one_character(b, c, next);
        if !(next < b.len() && b[next] == NEWLINE) {
            right_counts_characters_in_the_line(b, next, (n - 1) as nat);
            assert forall|j: int| c < j <= model::right(b, c, n) && j < b.len() implies b[j]
                != '\n' as u8 by {
                if j < next && b[j] == NEWLINE {
                    text::lemma_after_ascii(b, j);
                }
            }
        }
    }
}

// ── Along the lines ──────────────────────────────────────────────────────────

/// `t` is the place for the column of `c` in the line of `t`: as many bytes into the line, or at
/// the end of a shorter line, or at the last boundary before.
pub open spec fn keeps_column(b: Seq<u8>, c: int, t: int) -> bool {
    let wanted = text::line_floor(b, t) + (c - text::line_floor(b, c));
    &&& text::on_boundary(b, t)
    &&& t <= wanted
    &&& forall|j: int| t < j <= wanted && j <= text::line_ceil(b, t) ==> !text::on_boundary(b, j)
}

proof fn lemma_column(b: Seq<u8>, c: int, k: nat)
    requires
        valid_utf8(b),
        text::on_boundary(b, c),
        k <= text::newlines(b, b.len() as int),
    ensures
        text::newlines(b, model::same_column(b, c, k)) == k,
        keeps_column(b, c, model::same_column(b, c, k)),
{
    let t = model::same_column(b, c, k);
    model::lemma_same_column(b, c, k);
    text::lemma_line_start(b, k);
    let start = text::line_start(b, k);
    model::lemma_line_boundaries(b, start);
    model::lemma_line_boundaries(b, c);
    text::lemma_line_ceil(b, start);
    let end = text::line_ceil(b, start);
    let wanted = start + (c - text::line_floor(b, c));
    text::lemma_floor_boundary(b, if wanted < end { wanted } else { end });
    text::lines_start_behind_their_newline(b, k);
    lemma_same_line(b, start, t);
    text::line_of_offset_starts_at_its_floor(b, start);
}

/// Two offsets with no newline between them are in the same line.
proof fn lemma_same_line(b: Seq<u8>, x: int, y: int)
    requires
        0 <= x <= y <= b.len(),
        forall|j: int| x <= j < y ==> b[j] != NEWLINE,
    ensures
        text::newlines(b, x) == text::newlines(b, y),
        text::line_floor(b, x) == text::line_floor(b, y),
        text::line_ceil(b, x) == text::line_ceil(b, y),
    decreases y - x,
{
    if x < y {
        lemma_same_line(b, x, y - 1);
    }
}

/// A move up goes `n` lines up, or to the first line where there are not so many, and keeps the
/// column.
pub proof fn up_counts_lines(b: Seq<u8>, c: int, n: nat)
    requires
        valid_utf8(b),
        text::on_boundary(b, c),
    ensures
        text::newlines(b, model::up(b, c, n)) == (if n <= text::newlines(b, c) {
            (text::newlines(b, c) - n) as nat
        } else {
            0
        }),
        keeps_column(b, c, model::up(b, c, n)),
{
    let line = text::newlines(b, c);
    text::lemma_newlines_monotonic(b, c, b.len() as int);
    lemma_column(b, c, if n < line { (line - n) as nat } else { 0 });
}

/// A move down goes `n` lines down, or to the last line where there are not so many, and keeps the
/// column.
pub proof fn down_counts_lines(b: Seq<u8>, c: int, n: nat)
    requires
        valid_utf8(b),
        text::on_boundary(b, c),
    ensures
        text::newlines(b, model::down(b, c, n)) == (if text::newlines(b, c) + n
            <= text::line_count(b) - 1 {
            text::newlines(b, c) + n
        } else {
            (text::line_count(b) - 1) as nat
        }),
        keeps_column(b, c, model::down(b, c, n)),
{
    let line = text::newlines(b, c);
    let last = (text::line_count(b) - 1) as nat;
    text::lines_are_counted(b);
    lemma_column(b, c, if line + n < last { line + n } else { last });
}

/// The last line starts at the start of the text or behind a newline, and no newline stands in it
/// but for one that ends the text.
pub proof fn last_line_is_the_last(b: Seq<u8>)
    requires
        valid_utf8(b),
    ensures
        ({
            let r = model::last_line(b);
            &&& 0 <= r <= b.len()
            &&& r == 0 || b[r - 1] == '\n' as u8
            &&& b.len() > 0 ==> r < b.len()
            &&& forall|j: int| r <= j < b.len() - 1 ==> b[j] != '\n' as u8
        }),
{
    let n = b.len() as int;
    let k = (text::line_count(b) - 1) as nat;
    let r = model::last_line(b);
    text::lines_are_counted(b);
    text::lines_start_behind_their_newline(b, k);
    text::lemma_line_start(b, k);
    if n > 0 {
        if r == n {
            // A newline in front of the end would end the text.
            assert(b.last() == NEWLINE);
        }
        assert forall|j: int| r <= j < n - 1 implies b[j] != '\n' as u8 by {
            if b[j] == NEWLINE {
                text::lemma_newlines_monotonic(b, r, j);
                text::lemma_newlines_monotonic(b, j + 1, n - 1);
                assert(text::newlines(b, j + 1) == text::newlines(b, j) + 1);
            }
        }
    }
}

/// In front of the first character of a line that is no white space there is nothing but white
/// space; a line of nothing else has its start in that place.
pub proof fn first_nonblank_is_the_first(b: Seq<u8>, c: int)
    requires
        valid_utf8(b),
        text::on_boundary(b, c),
    ensures
        ({
            let start = text::line_floor(b, c);
            let end = text::line_ceil(b, c);
            let r = model::first_nonblank(b, c);
            let front = decode_utf8(b.subrange(start, r));
            let rest = decode_utf8(b.subrange(r, end));
            &&& start <= r <= end
            &&& forall|i: int| 0 <= i < front.len() ==> unicode::white_space(#[trigger] front[i])
            &&& r > start ==> rest.len() > 0
            &&& rest.len() > 0 && unicode::white_space(rest[0]) ==> {
                &&& r == start
                &&& forall|i: int| 0 <= i < rest.len() ==> unicode::white_space(#[trigger] rest[i])
            }
        }),
{
    let start = text::line_floor(b, c);
    let end = text::line_ceil(b, c);
    let r = model::first_nonblank(b, c);
    model::lemma_line_boundaries(b, c);
    model::lemma_first_nonblank(b, c);
    model::lemma_subrange_valid(b, start, end);
    let line = decode_utf8(b.subrange(start, end));
    if model::blank(line) {
        assert(b.subrange(start, start) =~= Seq::<u8>::empty());
    } else {
        let k = lemma_blank_front(line);
        let front = line.take(k);
        let rest = line.skip(k);
        assert(line =~= front + rest);
        text::lemma_encode_concat(front, rest);
        let mid = b.subrange(start, end);
        assert(mid == encode_utf8(front) + encode_utf8(rest));
        assert(b.subrange(start, r) =~= mid.subrange(0, r - start));
        assert(mid.subrange(0, r - start) =~= encode_utf8(front));
        assert(b.subrange(r, end) =~= mid.subrange(r - start, mid.len() as int));
        assert(mid.subrange(r - start, mid.len() as int) =~= encode_utf8(rest));
        encode_utf8_decode_utf8(front);
        encode_utf8_decode_utf8(rest);
    }
}

/// How many characters the white space at the start of a text that is not blank has.
proof fn lemma_blank_front(s: Seq<char>) -> (k: int)
    requires
        !model::blank(s),
    ensures
        0 <= k < s.len(),
        forall|i: int| 0 <= i < k ==> unicode::white_space(#[trigger] s[i]),
        !unicode::white_space(s[k]),
        encode_utf8(s.take(k)).len() == model::blank_prefix(s),
    decreases s.len(),
{
    if !unicode::white_space(s[0]) {
        assert(s.len() > 0) by {
            if s.len() == 0 {
                assert(model::blank(s));
            }
        }
        assert(s.take(0) =~= Seq::<char>::empty());
        0
    } else {
        let rest = s.drop_first();
        if model::blank(rest) {
            assert forall|i: int| 0 <= i < s.len() implies unicode::white_space(
                #[trigger] s[i],
            ) by {
                if i > 0 {
                    assert(rest[i - 1] == s[i]);
                }
            }
        }
        let j = lemma_blank_front(rest);
        assert(rest[j] == s[j + 1]);
        assert forall|i: int| 0 <= i < j + 1 implies unicode::white_space(#[trigger] s[i]) by {
            if i > 0 {
                assert(rest[i - 1] == s[i]);
            }
        }
        assert(s.take(j + 1).drop_first() =~= rest.take(j));
        j + 1
    }
}

// ── Along the words ──────────────────────────────────────────────────────────

/// One word is a step to the next word, and words add up: `m` words and `n` more are `m + n`. The
/// same holds of words back and of word ends.
pub proof fn words_add_up(b: Seq<u8>, c: int, m: nat, n: nat)
    ensures
        model::words_forward(b, c, 0) == c,
        model::words_forward(b, c, 1) == text::next_word(b, c),
        model::words_forward(b, c, m + n) == model::words_forward(
            b,
            model::words_forward(b, c, m),
            n,
        ),
        model::words_backward(b, c, 0) == c,
        model::words_backward(b, c, 1) == text::prev_word(b, c),
        model::words_backward(b, c, m + n) == model::words_backward(
            b,
            model::words_backward(b, c, m),
            n,
        ),
        model::word_ends(b, c, 0) == c,
        model::word_ends(b, c, 1) == text::word_end(b, c),
        model::word_ends(b, c, m + n) == model::word_ends(b, model::word_ends(b, c, m), n),
    decreases m,
{
    reveal_with_fuel(model::words_forward, 2);
    reveal_with_fuel(model::words_backward, 2);
    reveal_with_fuel(model::word_ends, 2);
    if m > 0 {
        let k = (m - 1) as nat;
        assert((m + n - 1) as nat == k + n);
        words_add_up(b, text::next_word(b, c), k, n);
        words_add_up(b, text::prev_word(b, c), k, n);
        words_add_up(b, text::word_end(b, c), k, n);
    }
}

// ── Edits ────────────────────────────────────────────────────────────────────

/// The characters of a text.
pub open spec fn chars(t: TextState) -> Seq<char> {
    decode_utf8(t.bytes)
}

/// How many characters stand before the cursor.
pub open spec fn place(t: TextState) -> int {
    unicode::chars_before(t.bytes, t.cursor) as int
}

/// What is put in stands at the cursor, between the characters before and behind it, and the cursor
/// behind it.
pub proof fn insert_puts_in_at_the_cursor(t: TextState, x: Seq<u8>)
    requires
        t.wf(),
        valid_utf8(x),
    ensures
        chars(t.insert(x)) == chars(t).take(place(t)) + decode_utf8(x) + chars(t).skip(place(t)),
        place(t.insert(x)) == place(t) + decode_utf8(x).len(),
        t.insert(x).cursor == t.cursor + x.len(),
{
    lemma_replaced(t.bytes, t.cursor, t.cursor, x);
}

/// Backspace takes out the character before the cursor, and no other; at the start of the text it
/// does nothing.
pub proof fn backspace_takes_the_character_before(t: TextState)
    requires
        t.wf(),
    ensures
        t.cursor == 0 ==> t.delete_backward() == t,
        t.cursor > 0 ==> {
            &&& place(t) > 0
            &&& chars(t.delete_backward()) == chars(t).remove(place(t) - 1)
            &&& place(t.delete_backward()) == place(t) - 1
        },
{
    let b = t.bytes;
    let c = t.cursor;
    text::character_steps_lead_to_the_nearest_boundaries(b, c);
    if c == 0 {
        assert(t.delete_backward().bytes =~= b);
    } else {
        let p = text::prev_char(b, c);
        unicode::lemma_one_character(b, p, c);
        lemma_replaced(b, p, c, Seq::empty());
        let k = unicode::chars_before(b, p) as int;
        lemma_counted(b, c);
        let front = chars(t).take(k);
        assert(front + Seq::<char>::empty() + chars(t).skip(k + 1) =~= chars(t).remove(k));
    }
}

/// Delete takes out the character at the cursor, and no other, and leaves the cursor; at the end of
/// the text it does nothing.
pub proof fn delete_takes_the_character_at_the_cursor(t: TextState)
    requires
        t.wf(),
    ensures
        t.cursor == t.bytes.len() ==> t.delete_char_forward() == t,
        t.cursor < t.bytes.len() ==> {
            &&& place(t) < chars(t).len()
            &&& chars(t.delete_char_forward()) == chars(t).remove(place(t))
        },
        t.delete_char_forward().cursor == t.cursor,
{
    let b = t.bytes;
    let c = t.cursor;
    text::character_steps_lead_to_the_nearest_boundaries(b, c);
    if c == b.len() {
        assert(t.delete_char_forward().bytes =~= b);
    } else {
        let q = text::next_char(b, c);
        unicode::lemma_one_character(b, c, q);
        lemma_replaced(b, c, q, Seq::empty());
        let k = place(t);
        lemma_counted(b, q);
        let front = chars(t).take(k);
        assert(front + Seq::<char>::empty() + chars(t).skip(k + 1) =~= chars(t).remove(k));
    }
}

/// Replacing what stands between two boundaries replaces those characters, and leaves the cursor
/// behind what was put in. Offsets that are no boundaries count as the last boundary before, and an
/// end before the start as the start.
pub proof fn replacing_replaces_the_characters_between(
    t: TextState,
    start: int,
    end: int,
    x: Seq<u8>,
)
    requires
        t.wf(),
        valid_utf8(x),
    ensures
        ({
            let lo = text::floor_boundary(t.bytes, start);
            let to = text::floor_boundary(t.bytes, end);
            let hi = if lo <= to { to } else { lo };
            let r = t.replace_range(start, end, x);
            &&& chars(r) == chars(t).take(unicode::chars_before(t.bytes, lo) as int) + decode_utf8(
                x,
            ) + chars(t).skip(unicode::chars_before(t.bytes, hi) as int)
            &&& r.cursor == lo + x.len()
        }),
{
    text::lemma_floor_boundary(t.bytes, start);
    text::lemma_floor_boundary(t.bytes, end);
    let lo = text::floor_boundary(t.bytes, start);
    let to = text::floor_boundary(t.bytes, end);
    lemma_replaced(t.bytes, lo, if lo <= to { to } else { lo }, x);
}

/// Deleting what stands between two boundaries takes out those characters and leaves the cursor in
/// their place. Where nothing stands between, it changes nothing, the cursor included.
pub proof fn deleting_takes_out_the_characters_between(t: TextState, start: int, end: int)
    requires
        t.wf(),
    ensures
        ({
            let lo = text::floor_boundary(t.bytes, start);
            let hi = text::floor_boundary(t.bytes, end);
            let r = t.delete_range(start, end);
            &&& lo >= hi ==> r == t
            &&& lo < hi ==> {
                &&& chars(r) == chars(t).take(unicode::chars_before(t.bytes, lo) as int) + chars(
                    t,
                ).skip(unicode::chars_before(t.bytes, hi) as int)
                &&& r.cursor == lo
            }
        }),
{
    let lo = text::floor_boundary(t.bytes, start);
    let front = chars(t).take(unicode::chars_before(t.bytes, lo) as int);
    assert(valid_utf8(Seq::<u8>::empty()));
    replacing_replaces_the_characters_between(t, start, end, Seq::empty());
    assert(decode_utf8(Seq::<u8>::empty()) =~= Seq::<char>::empty());
    assert(front + Seq::<char>::empty() =~= front);
}

/// The characters before and behind a boundary, by their number.
proof fn lemma_counted(b: Seq<u8>, p: int)
    requires
        valid_utf8(b),
        text::on_boundary(b, p),
    ensures
        unicode::chars_before(b, p) <= decode_utf8(b).len(),
        decode_utf8(b.subrange(0, p)) == decode_utf8(b).take(unicode::chars_before(b, p) as int),
        decode_utf8(b.subrange(p, b.len() as int)) == decode_utf8(b).skip(
            unicode::chars_before(b, p) as int,
        ),
{
    unicode::lemma_decode_at(b, p);
    let k = unicode::chars_before(b, p) as int;
    assert(decode_utf8(b).take(k) =~= decode_utf8(b.subrange(0, p)));
    assert(decode_utf8(b).skip(k) =~= decode_utf8(b.subrange(p, b.len() as int)));
}

/// What a replacement does to the characters.
proof fn lemma_replaced(b: Seq<u8>, lo: int, hi: int, x: Seq<u8>)
    requires
        valid_utf8(b),
        valid_utf8(x),
        text::on_boundary(b, lo),
        text::on_boundary(b, hi),
        lo <= hi,
    ensures
        decode_utf8(text::spliced(b, lo, hi, x)) == decode_utf8(b).take(
            unicode::chars_before(b, lo) as int,
        ) + decode_utf8(x) + decode_utf8(b).skip(unicode::chars_before(b, hi) as int),
        unicode::chars_before(text::spliced(b, lo, hi, x), lo) == unicode::chars_before(b, lo),
        unicode::chars_before(text::spliced(b, lo, hi, x), lo + x.len()) == unicode::chars_before(
            b,
            lo,
        ) + decode_utf8(x).len(),
        unicode::chars_before(b, hi) <= decode_utf8(b).len(),
{
    lemma_counted(b, lo);
    lemma_counted(b, hi);
    unicode::lemma_decode_at(b, lo);
    unicode::lemma_decode_at(b, hi);
    let head = b.subrange(0, lo);
    let tail = b.subrange(hi, b.len() as int);
    unicode::lemma_decode_concat(head, x);
    unicode::lemma_decode_concat(head + x, tail);
    let r = text::spliced(b, lo, hi, x);
    assert(r.subrange(0, lo) =~= head);
    assert(r.subrange(0, lo + x.len()) =~= head + x);
}

// ── Lines ────────────────────────────────────────────────────────────────────

/// The current line reaches from its start to behind its newline, where it has one, and else to the
/// end of the text. That holds of an empty line too.
pub proof fn current_line_includes_its_newline(t: TextState)
    requires
        t.wf(),
    ensures
        t.line_range().0 == text::line_floor(t.bytes, t.cursor),
        text::line_ceil(t.bytes, t.cursor) < t.bytes.len() ==> {
            &&& t.line_range().1 == text::line_ceil(t.bytes, t.cursor) + 1
            &&& t.bytes[t.line_range().1 - 1] == '\n' as u8
        },
        text::line_ceil(t.bytes, t.cursor) == t.bytes.len() ==> t.line_range().1 == t.bytes.len(),
        t.line_range().0 <= t.cursor <= t.line_range().1,
{
    text::lines_reach_from_newline_to_newline(t.bytes, t.cursor);
}

/// Taking out the current line takes out one newline where the line has one, and none where it does
/// not; it leaves every other line as it is, with the cursor where the line stood.
pub proof fn deleting_the_line_takes_one_newline(t: TextState)
    requires
        t.wf(),
    ensures
        ({
            let start = text::line_floor(t.bytes, t.cursor);
            let end = text::line_ceil(t.bytes, t.cursor);
            let gone = t.delete_range(t.line_range().0, t.line_range().1);
            let before = text::newlines(t.bytes, t.bytes.len() as int);
            let after = text::newlines(gone.bytes, gone.bytes.len() as int);
            &&& end < t.bytes.len() ==> {
                &&& after + 1 == before
                &&& gone.bytes == t.bytes.subrange(0, start) + t.bytes.subrange(
                    end + 1,
                    t.bytes.len() as int,
                )
                &&& gone.cursor == start
            }
            &&& end == t.bytes.len() ==> {
                &&& after == before
                &&& gone.bytes == t.bytes.subrange(0, start)
                &&& gone.cursor == start
            }
        }),
{
    let b = t.bytes;
    let n = b.len() as int;
    let start = text::line_floor(b, t.cursor);
    let end = text::line_ceil(b, t.cursor);
    model::lemma_line_boundaries(b, t.cursor);
    text::lemma_line_floor(b, t.cursor);
    text::lemma_line_ceil(b, t.cursor);
    text::clamping_leads_to_the_last_boundary(b, start);
    text::clamping_leads_to_the_last_boundary(b, end);
    let upto = if end < n { end + 1 } else { end };
    text::clamping_leads_to_the_last_boundary(b, upto);
    let gone = t.delete_range(start, upto);
    let head = b.subrange(0, start);
    let tail = b.subrange(upto, n);
    assert(head + Seq::<u8>::empty() + tail =~= head + tail);
    if end == n {
        assert(head + tail =~= head);
    }
    if start == upto {
        assert(b =~= b.subrange(0, start));
    }
    lemma_newlines_concat(head, tail);
    lemma_newlines_concat(b.subrange(0, upto), tail);
    lemma_newlines_prefix(b, start);
    lemma_newlines_prefix(b, upto);
    assert(b =~= b.subrange(0, upto) + tail);
}

/// The newlines of two texts add up.
proof fn lemma_newlines_concat(x: Seq<u8>, y: Seq<u8>)
    ensures
        text::newlines(x + y, (x + y).len() as int) == text::newlines(x, x.len() as int)
            + text::newlines(y, y.len() as int),
    decreases y.len(),
{
    if y.len() == 0 {
        assert(x + y =~= x);
    } else {
        let z = y.drop_last();
        lemma_newlines_concat(x, z);
        lemma_newlines_prefix(x + y, (x + z).len() as int);
        assert((x + y).subrange(0, (x + z).len() as int) =~= x + z);
        lemma_newlines_prefix(y, z.len() as int);
        assert(y.subrange(0, z.len() as int) =~= z);
    }
}

/// The newlines before an offset are those of what stands before it.
proof fn lemma_newlines_prefix(b: Seq<u8>, i: int)
    requires
        0 <= i <= b.len(),
    ensures
        text::newlines(b.subrange(0, i), i) == text::newlines(b, i),
    decreases i,
{
    if i > 0 {
        lemma_newlines_prefix(b, i - 1);
        lemma_newlines_prefix(b.subrange(0, i), i - 1);
        assert(b.subrange(0, i).subrange(0, i - 1) =~= b.subrange(0, i - 1));
    }
}

/// Whole lines reach from the start of the first line to behind the newline of the last one, where
/// it has one.
pub proof fn whole_lines_include_the_last_newline(b: Seq<u8>, lo: int, hi: int)
    requires
        0 <= lo <= hi <= b.len(),
    ensures
        model::whole_lines(b, lo, hi).0 == text::line_floor(b, lo),
        text::line_ceil(b, hi) < b.len() ==> model::whole_lines(b, lo, hi).1 == text::line_ceil(
            b,
            hi,
        ) + 1,
        text::line_ceil(b, hi) == b.len() ==> model::whole_lines(b, lo, hi).1 == b.len(),
{
    text::lines_reach_from_newline_to_newline(b, hi);
}

/// Putting the cursor at an offset leaves the text, and the cursor at the last boundary that is not
/// behind the offset.
pub proof fn putting_the_cursor_keeps_the_text(t: TextState, i: int)
    requires
        t.wf(),
    ensures
        t.at(i).bytes == t.bytes,
        text::on_boundary(t.bytes, t.at(i).cursor),
        i >= 0 ==> t.at(i).cursor <= i,
        text::on_boundary(t.bytes, i) ==> t.at(i).cursor == i,
        forall|j: int| t.at(i).cursor < j <= i ==> !text::on_boundary(t.bytes, j),
        t.with_cursor(i).bytes == t.bytes && t.with_cursor(i).cursor == i,
{
    text::clamping_leads_to_the_last_boundary(t.bytes, i);
}

} // verus!
