//! Properties of single characters, and offsets in UTF-16 against offsets in UTF-8.
use vstd::prelude::*;
use vstd::utf8::*;

use crate::text;

verus! {

/// How many bytes the UTF-8 encoding of `c` has.
pub open spec fn utf8_width(c: char) -> int {
    encode_scalar(c as u32).len() as int
}

/// How many units the UTF-16 encoding of `c` has.
pub open spec fn utf16_width(c: char) -> int {
    if (c as u32) < 0x10000 {
        1
    } else {
        2
    }
}

/// How many units the UTF-16 encoding of `s` has.
pub open spec fn utf16_len(s: Seq<char>) -> int
    decreases s.len(),
{
    if s.len() == 0 {
        0
    } else {
        utf16_width(s[0]) + utf16_len(s.drop_first())
    }
}

/// The UTF-16 offset of byte offset `i` in the UTF-8 text `b`.
pub open spec fn utf16_offset(b: Seq<u8>, i: int) -> int {
    utf16_len(decode_utf8(b.subrange(0, i)))
}

/// The byte offset of the first character of `s` that starts `n` or more UTF-16 units in; the
/// byte length of `s` where there is none.
pub open spec fn utf8_offset(s: Seq<char>, n: int) -> int
    decreases s.len(),
{
    if s.len() == 0 || n <= 0 {
        0
    } else {
        utf8_width(s[0]) + utf8_offset(s.drop_first(), n - utf16_width(s[0]))
    }
}

/// The characters with the Unicode property `White_Space`.
pub open spec fn white_space(c: char) -> bool {
    let u = c as u32;
    ||| 0x09 <= u <= 0x0d
    ||| u == 0x20
    ||| u == 0x85
    ||| u == 0xa0
    ||| u == 0x1680
    ||| 0x2000 <= u <= 0x200a
    ||| u == 0x2028
    ||| u == 0x2029
    ||| u == 0x202f
    ||| u == 0x205f
    ||| u == 0x3000
}

/// The characters of the Unicode category `Cc`.
pub open spec fn control(c: char) -> bool {
    let u = c as u32;
    u <= 0x1f || 0x7f <= u <= 0x9f
}

/// Whether `c` has the Unicode property `White_Space`.
pub fn is_white_space(c: char) -> (r: bool)
    ensures
        r == white_space(c),
{
    let u: u32 = c as u32;
    (0x09 <= u && u <= 0x0d) || u == 0x20 || u == 0x85 || u == 0xa0 || u == 0x1680 || (0x2000 <= u
        && u <= 0x200a) || u == 0x2028 || u == 0x2029 || u == 0x202f || u == 0x205f || u == 0x3000
}

/// Whether `c` is a control character.
pub fn is_control(c: char) -> (r: bool)
    ensures
        r == control(c),
{
    let u: u32 = c as u32;
    u <= 0x1f || (0x7f <= u && u <= 0x9f)
}

/// How many bytes the UTF-8 encoding of `c` has.
pub fn utf8_width_of(c: char) -> (r: usize)
    ensures
        r == utf8_width(c),
        1 <= r <= 4,
{
    let u: u32 = c as u32;
    if u < 0x80 {
        1
    } else if u < 0x800 {
        2
    } else if u < 0x10000 {
        3
    } else {
        4
    }
}

/// How many units the UTF-16 encoding of `c` has.
pub fn utf16_width_of(c: char) -> (r: usize)
    ensures
        r == utf16_width(c),
{
    let u: u32 = c as u32;
    if u < 0x10000 {
        1
    } else {
        2
    }
}

/// A text has at least as many bytes as UTF-16 units.
pub proof fn lemma_utf16_len_bound(s: Seq<char>)
    ensures
        0 <= utf16_len(s) <= encode_utf8(s).len(),
        s.len() > 0 ==> utf16_len(s) > 0,
    decreases s.len(),
{
    if s.len() > 0 {
        lemma_utf16_len_bound(s.drop_first());
    }
}

pub proof fn lemma_utf16_len_concat(s: Seq<char>, t: Seq<char>)
    ensures
        utf16_len(s + t) == utf16_len(s) + utf16_len(t),
    decreases s.len(),
{
    if s.len() == 0 {
        assert(s + t =~= t);
    } else {
        assert((s + t).drop_first() =~= s.drop_first() + t);
        lemma_utf16_len_concat(s.drop_first(), t);
    }
}

/// Byte offset `byte`, or the length of `s` if that is less, as an offset in UTF-16 units.
pub fn utf8_to_utf16(s: &str, byte: usize) -> (r: usize)
    requires
        byte <= encode_utf8(s@).len() ==> text::on_boundary(encode_utf8(s@), byte as int),
    ensures
        byte <= encode_utf8(s@).len() ==> r == utf16_offset(encode_utf8(s@), byte as int),
        byte > encode_utf8(s@).len() ==> r == utf16_len(s@),
{
    let total: usize = s.as_bytes().len();
    let cut: usize = if byte < total {
        byte
    } else {
        total
    };
    proof {
        encode_utf8_valid_utf8(s@);
        text::lemma_boundary(encode_utf8(s@), cut as int);
    }
    let (head, _tail) = s.split_at(cut);
    let mut sum: usize = 0;
    let ghost b = encode_utf8(s@);
    proof {
        encode_utf8_decode_utf8(head@);
        assert(b.subrange(0, total as int) =~= b);
        encode_utf8_decode_utf8(s@);
        lemma_utf16_len_bound(head@);
    }
    for c in it: head.chars()
        invariant
            it.seq() == head@,
            sum == utf16_len(head@.take(it.index() as int)),
            utf16_len(head@) <= usize::MAX,
    {
        proof {
            let k = it.index() as int;
            assert(head@.take(k + 1) =~= head@.take(k) + seq![c]);
            lemma_utf16_len_concat(head@.take(k), seq![c]);
            reveal_with_fuel(utf16_len, 2);
            assert(head@ =~= head@.take(k + 1) + head@.skip(k + 1));
            lemma_utf16_len_concat(head@.take(k + 1), head@.skip(k + 1));
            lemma_utf16_len_bound(head@.skip(k + 1));
        }
        sum = sum + utf16_width_of(c);
    }
    proof {
        assert(head@.take(head@.len() as int) =~= head@);
    }
    sum
}

pub proof fn lemma_utf8_width(c: char)
    ensures
        encode_utf8(seq![c]).len() == utf8_width(c),
        encode_utf8(seq![c]) == encode_scalar(c as u32),
        1 <= utf8_width(c) <= 4,
{
    reveal_with_fuel(encode_utf8, 2);
    assert(seq![c].drop_first() =~= Seq::<char>::empty());
    assert(encode_utf8(seq![c]) =~= encode_scalar(c as u32));
}

/// UTF-16 offset `utf16` in `s` as a byte offset. An offset inside a character leads behind that
/// character, one behind the end to the end.
pub fn utf16_to_utf8(s: &str, utf16: usize) -> (r: usize)
    ensures
        r == utf8_offset(s@, utf16 as int),
        text::on_boundary(encode_utf8(s@), r as int),
{
    let total: usize = s.as_bytes().len();
    let mut left: usize = utf16;
    let mut bytes: usize = 0;
    proof {
        assert(s@.skip(0) =~= s@);
        assert(s@.take(0) =~= Seq::<char>::empty());
    }
    for c in it: s.chars()
        invariant
            it.seq() == s@,
            bytes == encode_utf8(s@.take(it.index() as int)).len(),
            total == encode_utf8(s@).len(),
            bytes + utf8_offset(s@.skip(it.index() as int), left as int) == utf8_offset(
                s@,
                utf16 as int,
            ),
    {
        let ghost k = it.index() as int;
        if left == 0 {
            proof {
                lemma_prefix_boundary(s@, k);
            }
            return bytes;
        }
        proof {
            assert(s@.take(k + 1) =~= s@.take(k) + seq![c]);
            text::lemma_encode_concat(s@.take(k), seq![c]);
            lemma_utf8_width(c);
            assert(s@ =~= s@.take(k + 1) + s@.skip(k + 1));
            text::lemma_encode_concat(s@.take(k + 1), s@.skip(k + 1));
            assert(s@.skip(k).drop_first() =~= s@.skip(k + 1));
        }
        let ghost before = left as int;
        left = left.saturating_sub(utf16_width_of(c));
        proof {
            let rest = s@.skip(k + 1);
            assert(s@.skip(k)[0] == c);
            assert(utf8_offset(s@.skip(k), before) == utf8_width(c) + utf8_offset(
                rest,
                before - utf16_width(c),
            ));
            assert(utf8_offset(rest, left as int) == utf8_offset(rest, before - utf16_width(c)));
        }
        bytes = bytes + utf8_width_of(c);
    }
    proof {
        lemma_prefix_boundary(s@, s@.len() as int);
    }
    bytes
}

/// The encoding of the first `k` characters ends at a character boundary.
pub proof fn lemma_prefix_boundary(s: Seq<char>, k: int)
    requires
        0 <= k <= s.len(),
    ensures
        text::on_boundary(encode_utf8(s), encode_utf8(s.take(k)).len() as int),
{
    let b = encode_utf8(s);
    let p = encode_utf8(s.take(k));
    assert(s =~= s.take(k) + s.skip(k));
    text::lemma_encode_concat(s.take(k), s.skip(k));
    let q = encode_utf8(s.skip(k));
    encode_utf8_valid_utf8(s.skip(k));
    if q.len() > 0 {
        text::lemma_boundary(q, 0);
        assert(b[p.len() as int] == q[0]);
    }
}

/// What stands before a boundary, and what the text is made of on its two sides.
pub proof fn lemma_split_at_boundary(s: Seq<char>, p: int) -> (parts: (Seq<char>, Seq<char>))
    requires
        text::on_boundary(encode_utf8(s), p),
    ensures
        s == parts.0 + parts.1,
        encode_utf8(parts.0) == encode_utf8(s).subrange(0, p),
        encode_utf8(parts.1) == encode_utf8(s).subrange(p, encode_utf8(s).len() as int),
        parts.0 == decode_utf8(encode_utf8(s).subrange(0, p)),
        parts.1 == decode_utf8(encode_utf8(s).subrange(p, encode_utf8(s).len() as int)),
{
    let b = encode_utf8(s);
    encode_utf8_valid_utf8(s);
    text::lemma_boundary(b, p);
    valid_utf8_split(b, p);
    decode_utf8_split(b, p);
    let head = b.subrange(0, p);
    let tail = b.subrange(p, b.len() as int);
    decode_utf8_encode_utf8(head);
    decode_utf8_encode_utf8(tail);
    encode_utf8_decode_utf8(s);
    (decode_utf8(head), decode_utf8(tail))
}

proof fn lemma_utf8_offset_of_prefix(q: Seq<char>, r: Seq<char>)
    ensures
        utf8_offset(q + r, utf16_len(q)) == encode_utf8(q).len(),
    decreases q.len(),
{
    if q.len() > 0 {
        assert((q + r).drop_first() =~= q.drop_first() + r);
        lemma_utf8_offset_of_prefix(q.drop_first(), r);
        lemma_utf16_len_bound(q.drop_first());
    }
}

/// A cursor position survives the way to UTF-16 and back.
pub proof fn utf16_round_trip(s: Seq<char>, p: int)
    requires
        text::on_boundary(encode_utf8(s), p),
    ensures
        utf8_offset(s, utf16_offset(encode_utf8(s), p)) == p,
{
    let parts = lemma_split_at_boundary(s, p);
    lemma_utf8_offset_of_prefix(parts.0, parts.1);
}

/// Later boundaries have greater UTF-16 offsets.
pub proof fn utf16_offset_is_monotonic(s: Seq<char>, lo: int, hi: int)
    requires
        text::on_boundary(encode_utf8(s), lo),
        text::on_boundary(encode_utf8(s), hi),
        lo < hi,
    ensures
        0 <= utf16_offset(encode_utf8(s), lo) < utf16_offset(encode_utf8(s), hi),
        utf16_offset(encode_utf8(s), hi) <= utf16_len(s),
{
    let b = encode_utf8(s);
    let parts = lemma_split_at_boundary(s, hi);
    let head = parts.0;
    assert(encode_utf8(head) =~= b.subrange(0, hi));
    let inner = lemma_split_at_boundary(head, lo);
    assert(b.subrange(0, hi).subrange(0, lo) =~= b.subrange(0, lo));
    lemma_utf16_len_concat(inner.0, inner.1);
    lemma_utf16_len_concat(parts.0, parts.1);
    lemma_utf16_len_bound(inner.0);
    lemma_utf16_len_bound(inner.1);
    lemma_utf16_len_bound(parts.1);
    assert(encode_utf8(inner.1).len() == hi - lo);
    assert(inner.1.len() > 0);
}

/// `String::push` of the standard library appends one character.
pub assume_specification[ String::push ](s: &mut String, c: char)
    ensures
        final(s)@ == old(s)@.push(c),
;

/// A text of the one character `c`.
pub fn char_text(c: char) -> (r: String)
    ensures
        r@ == seq![c],
        encode_utf8(r@) == encode_scalar(c as u32),
{
    let mut r = String::new();
    r.push(c);
    proof {
        lemma_utf8_width(c);
        assert(r@ =~= seq![c]);
    }
    r
}

// ── Laws ─────────────────────────────────────────────────────────────────────

/// A character takes two units of UTF-16 where it takes four bytes of UTF-8, and one unit where it
/// takes fewer. The units of a text add up.
pub proof fn utf16_units_add_up(s: Seq<char>, t: Seq<char>, c: char)
    ensures
        utf16_len(Seq::empty()) == 0,
        utf16_len(seq![c]) == (if encode_scalar(c as u32).len() == 4 {
            2int
        } else {
            1
        }),
        utf16_len(s + t) == utf16_len(s) + utf16_len(t),
{
    reveal_with_fuel(utf16_len, 2);
    assert(seq![c].drop_first() =~= Seq::<char>::empty());
    lemma_utf16_len_concat(s, t);
}

/// An offset in UTF-16 leads to the first character that starts there or behind: one inside the
/// character `c` leads behind it, one behind the end of the text to its end.
pub proof fn utf16_offsets_lead_to_characters(q: Seq<char>, c: char, r: Seq<char>, n: int)
    ensures
        n <= 0 ==> utf8_offset(q, n) == 0,
        n >= utf16_len(q) ==> utf8_offset(q, n) == encode_utf8(q).len(),
        utf16_len(q) < n <= utf16_len(q + seq![c]) ==> utf8_offset(q + seq![c] + r, n)
            == encode_utf8(q + seq![c]).len(),
{
    if n >= utf16_len(q) {
        lemma_utf8_offset_saturates(q, n);
    }
    if utf16_len(q) < n <= utf16_len(q + seq![c]) {
        lemma_utf8_offset_inside(q, c, r, n);
    }
}

proof fn lemma_utf8_offset_saturates(q: Seq<char>, n: int)
    requires
        n >= utf16_len(q),
    ensures
        utf8_offset(q, n) == encode_utf8(q).len(),
    decreases q.len(),
{
    if q.len() > 0 {
        lemma_utf16_len_bound(q.drop_first());
        lemma_utf8_offset_saturates(q.drop_first(), n - utf16_width(q[0]));
    }
}

proof fn lemma_utf8_offset_inside(q: Seq<char>, c: char, r: Seq<char>, n: int)
    requires
        utf16_len(q) < n <= utf16_len(q + seq![c]),
    ensures
        utf8_offset(q + seq![c] + r, n) == encode_utf8(q + seq![c]).len(),
    decreases q.len(),
{
    let s = q + seq![c] + r;
    utf16_units_add_up(q, seq![c], c);
    lemma_utf16_len_bound(q);
    text::lemma_encode_concat(q, seq![c]);
    lemma_utf8_width(c);
    if q.len() == 0 {
        assert(s[0] == c);
        assert(q =~= Seq::<char>::empty());
        assert(utf8_offset(s.drop_first(), n - utf16_width(c)) == 0);
    } else {
        let f = q.drop_first();
        assert(s.drop_first() =~= f + seq![c] + r);
        utf16_units_add_up(f, seq![c], c);
        lemma_utf8_offset_inside(f, c, r, n - utf16_width(q[0]));
        text::lemma_encode_concat(f, seq![c]);
    }
}

/// How many characters of `b` stand before offset `i`.
pub open spec fn chars_before(b: Seq<u8>, i: int) -> nat {
    decode_utf8(b.subrange(0, i)).len()
}

/// From one boundary to the next one there is one character.
pub proof fn lemma_one_character(b: Seq<u8>, p: int, q: int)
    requires
        valid_utf8(b),
        text::on_boundary(b, p),
        text::on_boundary(b, q),
        p < q,
        forall|j: int| p < j < q ==> !text::on_boundary(b, j),
    ensures
        chars_before(b, q) == chars_before(b, p) + 1,
        decode_utf8(b.subrange(p, q)).len() == 1,
        decode_utf8(b.subrange(0, q)) == decode_utf8(b.subrange(0, p)) + decode_utf8(
            b.subrange(p, q),
        ),
{
    text::lemma_boundary(b, q);
    valid_utf8_split(b, q);
    let head = b.subrange(0, q);
    assert(head[p] == b[p]);
    text::lemma_boundary(head, p);
    valid_utf8_split(head, p);
    decode_utf8_split(head, p);
    let mid = b.subrange(p, q);
    assert(head.subrange(0, p) =~= b.subrange(0, p));
    assert(head.subrange(p, head.len() as int) =~= mid);
    let s = decode_utf8(mid);
    decode_utf8_encode_utf8(mid);
    if s.len() == 0 {
        assert(mid.len() == 0);
    }
    if s.len() > 1 {
        lemma_prefix_boundary(s, 1);
        let k = encode_utf8(s.take(1)).len() as int;
        assert(s =~= s.take(1) + s.skip(1));
        text::lemma_encode_concat(s.take(1), s.skip(1));
        assert(s.take(1) =~= seq![s[0]]);
        lemma_utf8_width(s[0]);
        assert(encode_utf8(s.skip(1)).len() > 0) by {
            lemma_utf8_width(s.skip(1)[0]);
        }
        assert(mid[k] == b[p + k]);
        assert(text::on_boundary(b, p + k));
    }
}

/// What stands on the two sides of a boundary makes up the text.
pub proof fn lemma_decode_at(b: Seq<u8>, p: int)
    requires
        valid_utf8(b),
        text::on_boundary(b, p),
    ensures
        valid_utf8(b.subrange(0, p)),
        valid_utf8(b.subrange(p, b.len() as int)),
        decode_utf8(b) == decode_utf8(b.subrange(0, p)) + decode_utf8(
            b.subrange(p, b.len() as int),
        ),
{
    text::lemma_boundary(b, p);
    valid_utf8_split(b, p);
    decode_utf8_split(b, p);
}

/// Decoding distributes over concatenation.
pub proof fn lemma_decode_concat(x: Seq<u8>, y: Seq<u8>)
    requires
        valid_utf8(x),
        valid_utf8(y),
    ensures
        valid_utf8(x + y),
        decode_utf8(x + y) == decode_utf8(x) + decode_utf8(y),
{
    let s = decode_utf8(x);
    let t = decode_utf8(y);
    decode_utf8_encode_utf8(x);
    decode_utf8_encode_utf8(y);
    text::lemma_encode_concat(s, t);
    encode_utf8_decode_utf8(s + t);
    valid_utf8_concat(x, y);
}

} // verus!
