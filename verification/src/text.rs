//! UTF-8 text as a sequence of bytes: character boundaries, lines and words.
use vstd::prelude::*;
use vstd::utf8::*;

verus! {

/// The newline byte.
pub const NEWLINE: u8 = 10;

/// `i` is an offset at which a character of `b` starts, or the end of `b`.
pub open spec fn on_boundary(b: Seq<u8>, i: int) -> bool {
    &&& 0 <= i <= b.len()
    &&& i == b.len() || !is_continuation_byte(b[i])
}

/// The greatest character boundary of `b` that is not above `i`.
pub open spec fn floor_boundary(b: Seq<u8>, i: int) -> int
    decreases i,
{
    if i <= 0 {
        0
    } else if i >= b.len() {
        b.len() as int
    } else if on_boundary(b, i) {
        i
    } else {
        floor_boundary(b, i - 1)
    }
}

/// The least character boundary of `b` that is not below `i`.
pub open spec fn ceil_boundary(b: Seq<u8>, i: int) -> int
    decreases b.len() - i,
{
    if i >= b.len() {
        b.len() as int
    } else if on_boundary(b, i) {
        i
    } else {
        ceil_boundary(b, i + 1)
    }
}

/// In valid UTF-8 a boundary is what the standard library calls a character boundary.
pub proof fn lemma_boundary(b: Seq<u8>, i: int)
    requires
        valid_utf8(b),
    ensures
        on_boundary(b, i) <==> is_char_boundary(b, i),
        on_boundary(b, 0),
        on_boundary(b, b.len() as int),
{
    is_char_boundary_start_end_of_seq(b);
    if 0 <= i < b.len() {
        is_char_boundary_iff_not_is_continuation_byte(b, i);
    }
    if b.len() > 0 {
        is_char_boundary_iff_not_is_continuation_byte(b, 0);
    }
    if i > b.len() {
        assert(!is_char_boundary(b, i));
    }
}

pub proof fn lemma_floor_boundary(b: Seq<u8>, i: int)
    requires
        valid_utf8(b),
    ensures
        on_boundary(b, floor_boundary(b, i)),
        i >= 0 ==> floor_boundary(b, i) <= i,
        forall|j: int| floor_boundary(b, i) < j <= i ==> !on_boundary(b, j),
    decreases i,
{
    lemma_boundary(b, 0);
    if 0 < i < b.len() && !on_boundary(b, i) {
        lemma_floor_boundary(b, i - 1);
    }
}

pub proof fn lemma_ceil_boundary(b: Seq<u8>, i: int)
    requires
        valid_utf8(b),
    ensures
        on_boundary(b, ceil_boundary(b, i)),
        i <= b.len() ==> i <= ceil_boundary(b, i),
        forall|j: int| i <= j < ceil_boundary(b, i) ==> !on_boundary(b, j),
    decreases b.len() - i,
{
    if i < b.len() && !on_boundary(b, i) {
        lemma_ceil_boundary(b, i + 1);
    }
}

/// Where the character before offset `c` starts; `0` at the start of the text.
pub open spec fn prev_char(b: Seq<u8>, c: int) -> int {
    floor_boundary(b, c - 1)
}

/// Where the character after the one at offset `c` starts.
pub open spec fn next_char(b: Seq<u8>, c: int) -> int {
    ceil_boundary(b, c + 1)
}

/// The greatest character boundary that is not above `i`.
pub fn floor_offset(b: &[u8], i: usize) -> (r: usize)
    ensures
        r == floor_boundary(b@, i as int),
        r <= b@.len(),
{
    let mut o: usize = if i < b.len() {
        i
    } else {
        b.len()
    };
    while 0 < o && o < b.len() && 0x80 <= b[o] && b[o] <= 0xbf
        invariant
            o <= b@.len(),
            floor_boundary(b@, o as int) == floor_boundary(b@, i as int),
        decreases o,
    {
        o = o - 1;
    }
    o
}

/// Where the character before offset `c` starts.
pub fn prev_offset(b: &[u8], c: usize) -> (r: usize)
    ensures
        r == prev_char(b@, c as int),
        r <= b@.len(),
{
    if c == 0 {
        0
    } else {
        floor_offset(b, c - 1)
    }
}

/// Where the character after the one at offset `c` starts.
pub fn next_offset(b: &[u8], c: usize) -> (r: usize)
    requires
        c <= b@.len(),
    ensures
        r == next_char(b@, c as int),
        r <= b@.len(),
{
    if c == b.len() {
        return c;
    }
    let mut o: usize = c + 1;
    while o < b.len() && 0x80 <= b[o] && b[o] <= 0xbf
        invariant
            1 <= o <= b@.len(),
            ceil_boundary(b@, o as int) == next_char(b@, c as int),
        decreases b@.len() - o,
    {
        o = o + 1;
    }
    o
}

// ── Lines ────────────────────────────────────────────────────────────────────

/// How many newlines stand in the first `i` bytes of `b`.
pub open spec fn newlines(b: Seq<u8>, i: int) -> nat
    decreases i,
{
    if i <= 0 {
        0
    } else if b[i - 1] == NEWLINE {
        newlines(b, i - 1) + 1
    } else {
        newlines(b, i - 1)
    }
}

/// Where the line that holds offset `i` starts.
pub open spec fn line_floor(b: Seq<u8>, i: int) -> int
    decreases i,
{
    if i <= 0 {
        0
    } else if b[i - 1] == NEWLINE {
        i
    } else {
        line_floor(b, i - 1)
    }
}

/// Where the line that holds offset `i` ends: at its newline or at the end of `b`.
pub open spec fn line_ceil(b: Seq<u8>, i: int) -> int
    decreases b.len() - i,
{
    if i >= b.len() {
        b.len() as int
    } else if b[i] == NEWLINE {
        i
    } else {
        line_ceil(b, i + 1)
    }
}

/// Where line `k` starts, counting from zero; the end of `b` where there is no such line.
pub open spec fn line_start(b: Seq<u8>, k: nat) -> int
    decreases k,
{
    if k == 0 {
        0
    } else {
        let end = line_ceil(b, line_start(b, (k - 1) as nat));
        if end < b.len() {
            end + 1
        } else {
            b.len() as int
        }
    }
}

/// How many lines `b` has. A newline at the very end opens no line; an empty text has one line.
pub open spec fn line_count(b: Seq<u8>) -> nat {
    let n = newlines(b, b.len() as int);
    if b.len() == 0 || b.last() != NEWLINE {
        n + 1
    } else {
        n
    }
}

pub proof fn lemma_newlines_bound(b: Seq<u8>, i: int)
    requires
        0 <= i <= b.len(),
    ensures
        newlines(b, i) <= i,
    decreases i,
{
    if i > 0 {
        lemma_newlines_bound(b, i - 1);
    }
}

pub proof fn lemma_newlines_monotonic(b: Seq<u8>, i: int, j: int)
    requires
        i <= j,
    ensures
        newlines(b, i) <= newlines(b, j),
    decreases j - i,
{
    if i < j {
        lemma_newlines_monotonic(b, i, j - 1);
    }
}

pub proof fn lemma_line_floor(b: Seq<u8>, i: int)
    requires
        0 <= i <= b.len(),
    ensures
        0 <= line_floor(b, i) <= i,
        line_floor(b, i) == 0 || b[line_floor(b, i) - 1] == NEWLINE,
        forall|j: int| line_floor(b, i) <= j < i ==> b[j] != NEWLINE,
        newlines(b, line_floor(b, i)) == newlines(b, i),
    decreases i,
{
    if i > 0 && b[i - 1] != NEWLINE {
        lemma_line_floor(b, i - 1);
    }
}

pub proof fn lemma_line_ceil(b: Seq<u8>, i: int)
    requires
        0 <= i <= b.len(),
    ensures
        i <= line_ceil(b, i) <= b.len(),
        line_ceil(b, i) == b.len() || b[line_ceil(b, i)] == NEWLINE,
        forall|j: int| i <= j < line_ceil(b, i) ==> b[j] != NEWLINE,
        newlines(b, line_ceil(b, i)) == newlines(b, i),
    decreases b.len() - i,
{
    if i < b.len() && b[i] != NEWLINE {
        lemma_line_ceil(b, i + 1);
    }
}

pub proof fn lemma_line_start(b: Seq<u8>, k: nat)
    ensures
        0 <= line_start(b, k) <= b.len(),
        line_start(b, k) == 0 || line_start(b, k) == b.len() || b[line_start(b, k) - 1] == NEWLINE,
        k <= newlines(b, b.len() as int) ==> newlines(b, line_start(b, k)) == k,
        k > newlines(b, b.len() as int) ==> line_start(b, k) == b.len(),
    decreases k,
{
    if k > 0 {
        let p = (k - 1) as nat;
        lemma_line_start(b, p);
        let s = line_start(b, p);
        lemma_line_ceil(b, s);
        let e = line_ceil(b, s);
        if p <= newlines(b, b.len() as int) {
            if e < b.len() {
                assert(newlines(b, e + 1) == k);
                lemma_newlines_monotonic(b, e + 1, b.len() as int);
            }
        }
    }
}

/// The line that an offset stands in, asked for by its number, starts where the offset's own
/// line starts.
pub proof fn line_of_offset_starts_at_its_floor(b: Seq<u8>, i: int)
    requires
        0 <= i <= b.len(),
    ensures
        line_start(b, newlines(b, i)) == line_floor(b, i),
{
    let k = newlines(b, i);
    lemma_newlines_monotonic(b, i, b.len() as int);
    lemma_line_start(b, k);
    lemma_line_floor(b, i);
    let s = line_start(b, k);
    let f = line_floor(b, i);
    if s < f {
        if f > 0 {
            lemma_newlines_monotonic(b, s, f - 1);
            assert(newlines(b, f) == newlines(b, f - 1) + 1);
        }
    } else if f < s {
        if s == b.len() && b[s - 1] != NEWLINE {
            lemma_line_start_is_fresh(b, k);
        } else {
            lemma_newlines_monotonic(b, f, s - 1);
            assert(newlines(b, s) == newlines(b, s - 1) + 1);
        }
    }
}

/// A line that exists starts at the very start or right behind a newline.
proof fn lemma_line_start_is_fresh(b: Seq<u8>, k: nat)
    requires
        k <= newlines(b, b.len() as int),
    ensures
        line_start(b, k) == 0 || b[line_start(b, k) - 1] == NEWLINE,
    decreases k,
{
    if k > 0 {
        let p = (k - 1) as nat;
        lemma_line_start(b, p);
        let s = line_start(b, p);
        lemma_line_ceil(b, s);
    }
}

/// How many newlines stand before offset `i`.
pub fn count_newlines(b: &[u8], i: usize) -> (r: usize)
    requires
        i <= b@.len(),
    ensures
        r == newlines(b@, i as int),
        r <= i,
{
    let mut n: usize = 0;
    let mut j: usize = 0;
    while j < i
        invariant
            j <= i <= b@.len(),
            n == newlines(b@, j as int),
            n <= j,
        decreases i - j,
    {
        if b[j] == NEWLINE {
            n = n + 1;
        }
        j = j + 1;
    }
    n
}

/// Where the line that holds offset `i` starts.
pub fn line_floor_offset(b: &[u8], i: usize) -> (r: usize)
    requires
        i <= b@.len(),
    ensures
        r == line_floor(b@, i as int),
        r <= i,
{
    let mut o: usize = i;
    while 0 < o && b[o - 1] != NEWLINE
        invariant
            o <= i <= b@.len(),
            line_floor(b@, o as int) == line_floor(b@, i as int),
        decreases o,
    {
        o = o - 1;
    }
    o
}

/// Where the line that holds offset `i` ends.
pub fn line_ceil_offset(b: &[u8], i: usize) -> (r: usize)
    requires
        i <= b@.len(),
    ensures
        r == line_ceil(b@, i as int),
        i <= r <= b@.len(),
{
    let mut o: usize = i;
    while o < b.len() && b[o] != NEWLINE
        invariant
            i <= o <= b@.len(),
            line_ceil(b@, o as int) == line_ceil(b@, i as int),
        decreases b@.len() - o,
    {
        o = o + 1;
    }
    o
}

/// Where line `k` starts.
pub fn line_start_offset(b: &[u8], k: usize) -> (r: usize)
    ensures
        r == line_start(b@, k as nat),
        r <= b@.len(),
{
    let mut start: usize = 0;
    let mut j: usize = 0;
    while j < k && start < b.len()
        invariant
            j <= k,
            start <= b@.len(),
            start == line_start(b@, j as nat),
        decreases k - j,
    {
        let end: usize = line_ceil_offset(b, start);
        if end < b.len() {
            start = end + 1;
        } else {
            start = end;
        }
        j = j + 1;
    }
    if j < k {
        proof {
            lemma_line_start_saturates(b@, j as nat, k as nat);
        }
    }
    start
}

proof fn lemma_line_start_saturates(b: Seq<u8>, j: nat, k: nat)
    requires
        j <= k,
        line_start(b, j) == b.len(),
    ensures
        line_start(b, k) == b.len(),
    decreases k,
{
    if j < k {
        lemma_line_start_saturates(b, j, (k - 1) as nat);
    }
}

// ── Words ────────────────────────────────────────────────────────────────────

/// An ASCII letter, an ASCII digit or an underscore.
pub open spec fn word_byte(x: u8) -> bool {
    ||| '0' as u8 <= x <= '9' as u8
    ||| 'A' as u8 <= x <= 'Z' as u8
    ||| 'a' as u8 <= x <= 'z' as u8
    ||| x == '_' as u8
}

/// The first offset from `i` on that holds no word byte.
pub open spec fn skip_word(b: Seq<u8>, i: int) -> int
    decreases b.len() - i,
{
    if 0 <= i < b.len() && word_byte(b[i]) {
        skip_word(b, i + 1)
    } else {
        i
    }
}

/// The first offset from `i` on that holds a word byte, or the end of `b`.
pub open spec fn skip_gap(b: Seq<u8>, i: int) -> int
    decreases b.len() - i,
{
    if 0 <= i < b.len() && !word_byte(b[i]) {
        skip_gap(b, i + 1)
    } else {
        i
    }
}

/// The last offset down from `i` that holds a word byte, or `0`.
pub open spec fn skip_gap_back(b: Seq<u8>, i: int) -> int
    decreases i,
{
    if i <= 0 || word_byte(b[i]) {
        i
    } else {
        skip_gap_back(b, i - 1)
    }
}

/// Where the run of word bytes that ends just before `i` starts.
pub open spec fn skip_word_back(b: Seq<u8>, i: int) -> int
    decreases i,
{
    if i <= 0 || !word_byte(b[i - 1]) {
        i
    } else {
        skip_word_back(b, i - 1)
    }
}

/// The last offset of the run of word bytes that follows `i`, or `i` itself.
pub open spec fn run_end(b: Seq<u8>, i: int) -> int
    decreases b.len() - i,
{
    if 0 <= i && i + 1 < b.len() && word_byte(b[i + 1]) {
        run_end(b, i + 1)
    } else {
        i
    }
}

/// Where the next word after offset `c` starts.
pub open spec fn next_word(b: Seq<u8>, c: int) -> int {
    skip_gap(b, skip_word(b, c))
}

/// Where the word at or before the byte in front of offset `c` starts.
pub open spec fn prev_word(b: Seq<u8>, c: int) -> int {
    if c <= 0 {
        0
    } else {
        skip_word_back(b, skip_gap_back(b, c - 1))
    }
}

/// The last byte of the next word that ends behind offset `c`.
pub open spec fn word_end(b: Seq<u8>, c: int) -> int {
    if c + 1 >= b.len() {
        c
    } else {
        run_end(b, skip_gap(b, c + 1))
    }
}

proof fn lemma_skip_word(b: Seq<u8>, i: int)
    requires
        valid_utf8(b),
        on_boundary(b, i),
    ensures
        i <= skip_word(b, i) <= b.len(),
        on_boundary(b, skip_word(b, i)),
    decreases b.len() - i,
{
    if i < b.len() && word_byte(b[i]) {
        lemma_after_word_byte(b, i);
        lemma_skip_word(b, i + 1);
    }
}

/// Behind a word byte a character starts.
proof fn lemma_after_word_byte(b: Seq<u8>, i: int)
    requires
        valid_utf8(b),
        0 <= i < b.len(),
        word_byte(b[i]),
    ensures
        on_boundary(b, i),
        on_boundary(b, i + 1),
{
    lemma_after_ascii(b, i);
}

/// An ASCII byte of valid UTF-8 is a character of its own.
pub proof fn lemma_after_ascii(b: Seq<u8>, i: int)
    requires
        valid_utf8(b),
        0 <= i < b.len(),
        b[i] < 0x80,
    ensures
        on_boundary(b, i),
        on_boundary(b, i + 1),
    decreases b.len(),
{
    let n = length_of_first_scalar(b);
    let rest = pop_first_scalar(b);
    if i < n {
        assert(i == 0 && n == 1);
        if b.len() > 1 {
            lemma_boundary(rest, 0);
            assert(rest[0] == b[1]);
        }
    } else {
        lemma_after_ascii(rest, i - n);
        assert(rest[i - n] == b[i]);
        if i + 1 < b.len() {
            assert(rest[i - n + 1] == b[i + 1]);
        }
    }
}

proof fn lemma_skip_gap(b: Seq<u8>, i: int)
    requires
        valid_utf8(b),
        0 <= i <= b.len(),
    ensures
        i <= skip_gap(b, i) <= b.len(),
        on_boundary(b, skip_gap(b, i)),
    decreases b.len() - i,
{
    if i < b.len() && !word_byte(b[i]) {
        lemma_skip_gap(b, i + 1);
    }
}

proof fn lemma_skip_gap_back(b: Seq<u8>, i: int)
    requires
        valid_utf8(b),
        0 <= i < b.len(),
    ensures
        0 <= skip_gap_back(b, i) <= i,
        on_boundary(b, skip_gap_back(b, i)),
    decreases i,
{
    lemma_boundary(b, 0);
    if 0 < i && !word_byte(b[i]) {
        lemma_skip_gap_back(b, i - 1);
    }
}

proof fn lemma_skip_word_back(b: Seq<u8>, i: int)
    requires
        valid_utf8(b),
        on_boundary(b, i),
    ensures
        0 <= skip_word_back(b, i) <= i,
        on_boundary(b, skip_word_back(b, i)),
    decreases i,
{
    if 0 < i && word_byte(b[i - 1]) {
        lemma_skip_word_back(b, i - 1);
    }
}

proof fn lemma_run_end(b: Seq<u8>, i: int)
    requires
        valid_utf8(b),
        on_boundary(b, i),
    ensures
        i <= run_end(b, i) <= b.len(),
        on_boundary(b, run_end(b, i)),
    decreases b.len() - i,
{
    if i + 1 < b.len() && word_byte(b[i + 1]) {
        lemma_run_end(b, i + 1);
    }
}

/// Every word step leads from a character boundary to a character boundary.
pub proof fn lemma_word_steps(b: Seq<u8>, c: int)
    requires
        valid_utf8(b),
        on_boundary(b, c),
    ensures
        on_boundary(b, next_word(b, c)),
        on_boundary(b, prev_word(b, c)),
        on_boundary(b, word_end(b, c)),
        c <= next_word(b, c),
        prev_word(b, c) <= c,
        c <= word_end(b, c),
{
    lemma_boundary(b, 0);
    lemma_skip_word(b, c);
    lemma_skip_gap(b, skip_word(b, c));
    if c > 0 {
        lemma_skip_gap_back(b, c - 1);
        lemma_skip_word_back(b, skip_gap_back(b, c - 1));
    }
    if c + 1 < b.len() {
        lemma_skip_gap(b, c + 1);
        lemma_run_end(b, skip_gap(b, c + 1));
    }
}

/// Whether `x` is an ASCII letter, an ASCII digit or an underscore.
pub fn is_word_byte(x: u8) -> (r: bool)
    ensures
        r == word_byte(x),
{
    ('0' as u8 <= x && x <= '9' as u8) || ('A' as u8 <= x && x <= 'Z' as u8) || ('a' as u8 <= x
        && x <= 'z' as u8) || x == '_' as u8
}

/// Where the next word after offset `from` starts.
pub fn next_word_offset(b: &[u8], from: usize) -> (r: usize)
    requires
        from <= b@.len(),
    ensures
        r == next_word(b@, from as int),
        r <= b@.len(),
{
    let mut i: usize = from;
    while i < b.len() && is_word_byte(b[i])
        invariant
            i <= b@.len(),
            skip_word(b@, i as int) == skip_word(b@, from as int),
        decreases b@.len() - i,
    {
        i = i + 1;
    }
    let ghost mid = i as int;
    while i < b.len() && !is_word_byte(b[i])
        invariant
            i <= b@.len(),
            skip_gap(b@, i as int) == skip_gap(b@, mid),
        decreases b@.len() - i,
    {
        i = i + 1;
    }
    i
}

/// Where the word at or before the byte in front of offset `from` starts.
pub fn prev_word_offset(b: &[u8], from: usize) -> (r: usize)
    requires
        from <= b@.len(),
    ensures
        r == prev_word(b@, from as int),
        r <= from,
{
    if from == 0 {
        return 0;
    }
    let mut i: usize = from - 1;
    while 0 < i && !is_word_byte(b[i])
        invariant
            i < from <= b@.len(),
            skip_gap_back(b@, i as int) == skip_gap_back(b@, from - 1),
        decreases i,
    {
        i = i - 1;
    }
    let ghost mid = i as int;
    while 0 < i && is_word_byte(b[i - 1])
        invariant
            i < from <= b@.len(),
            skip_word_back(b@, i as int) == skip_word_back(b@, mid),
        decreases i,
    {
        i = i - 1;
    }
    i
}

/// The last byte of the next word that ends behind offset `from`.
pub fn word_end_offset(b: &[u8], from: usize) -> (r: usize)
    requires
        from <= b@.len(),
    ensures
        r == word_end(b@, from as int),
        from <= r <= b@.len(),
{
    if from >= b.len() || from + 1 >= b.len() {
        return from;
    }
    let mut i: usize = from + 1;
    while i < b.len() && !is_word_byte(b[i])
        invariant
            from < i <= b@.len(),
            skip_gap(b@, i as int) == skip_gap(b@, from + 1),
        decreases b@.len() - i,
    {
        i = i + 1;
    }
    let ghost mid = i as int;
    while i < b.len() && i + 1 < b.len() && is_word_byte(b[i + 1])
        invariant
            from < i <= b@.len(),
            run_end(b@, i as int) == run_end(b@, mid),
        decreases b@.len() - i,
    {
        i = i + 1;
    }
    i
}

// ── Strings ──────────────────────────────────────────────────────────────────

/// Encoding distributes over concatenation.
pub proof fn lemma_encode_concat(s: Seq<char>, t: Seq<char>)
    ensures
        encode_utf8(s + t) == encode_utf8(s) + encode_utf8(t),
    decreases s.len(),
{
    if s.len() == 0 {
        assert(s + t =~= t);
        assert(encode_utf8(s) + encode_utf8(t) =~= encode_utf8(t));
    } else {
        assert((s + t).drop_first() =~= s.drop_first() + t);
        lemma_encode_concat(s.drop_first(), t);
        assert(encode_utf8(s + t) =~= encode_utf8(s) + encode_utf8(t));
    }
}

/// `b` with the bytes from `start` up to `end` replaced by `t`.
pub open spec fn spliced(b: Seq<u8>, start: int, end: int, t: Seq<u8>) -> Seq<u8> {
    b.subrange(0, start) + t + b.subrange(end, b.len() as int)
}

/// A copy of `s` with the bytes from `start` up to `end` replaced by `t`.
pub fn splice(s: &str, start: usize, end: usize, t: &str) -> (r: String)
    requires
        start <= end,
        on_boundary(encode_utf8(s@), start as int),
        on_boundary(encode_utf8(s@), end as int),
    ensures
        encode_utf8(r@) == spliced(encode_utf8(s@), start as int, end as int, encode_utf8(t@)),
{
    proof {
        encode_utf8_valid_utf8(s@);
        lemma_boundary(encode_utf8(s@), start as int);
        lemma_boundary(encode_utf8(s@), end as int);
    }
    let (head, _rest) = s.split_at(start);
    let (_front, tail) = s.split_at(end);
    let mut r = head.to_owned();
    r.append(t);
    r.append(tail);
    proof {
        lemma_encode_concat(head@, t@);
        lemma_encode_concat(head@ + t@, tail@);
    }
    r
}

/// What stands in `s` from `start` up to `end`.
pub fn between(s: &str, start: usize, end: usize) -> (r: &str)
    requires
        start <= end,
        on_boundary(encode_utf8(s@), start as int),
        on_boundary(encode_utf8(s@), end as int),
    ensures
        encode_utf8(r@) == encode_utf8(s@).subrange(start as int, end as int),
{
    let ghost b = encode_utf8(s@);
    proof {
        encode_utf8_valid_utf8(s@);
        lemma_boundary(b, end as int);
    }
    let (head, _tail) = s.split_at(end);
    proof {
        encode_utf8_valid_utf8(head@);
        if start < end {
            assert(encode_utf8(head@)[start as int] == b[start as int]);
        }
        lemma_boundary(encode_utf8(head@), start as int);
    }
    let (_front, r) = head.split_at(start);
    assert(b.subrange(0, end as int).subrange(start as int, end as int) =~= b.subrange(
        start as int,
        end as int,
    ));
    r
}

// ── Laws ─────────────────────────────────────────────────────────────────────

/// The newline byte is the encoding of the newline character.
pub proof fn newline_is_the_newline()
    ensures
        NEWLINE == '\n' as u8,
        encode_scalar('\n' as u32) == seq![NEWLINE],
{
    assert(encode_scalar('\n' as u32) =~= seq![NEWLINE]) by {
        assert(leading_byte_width_1(10u32) == 10u8) by (bit_vector);
    }
}

/// A step to the next character leads to the next boundary, and at the end of the text nowhere. A
/// step to the character before leads to the last boundary before, and at the start nowhere.
pub proof fn character_steps_lead_to_the_nearest_boundaries(b: Seq<u8>, c: int)
    requires
        valid_utf8(b),
        on_boundary(b, c),
    ensures
        c == 0 ==> prev_char(b, c) == 0,
        c > 0 ==> on_boundary(b, prev_char(b, c)) && prev_char(b, c) < c,
        forall|j: int| prev_char(b, c) < j < c ==> !on_boundary(b, j),
        c == b.len() ==> next_char(b, c) == c,
        c < b.len() ==> on_boundary(b, next_char(b, c)) && c < next_char(b, c),
        forall|j: int| c < j < next_char(b, c) ==> !on_boundary(b, j),
{
    lemma_floor_boundary(b, c - 1);
    lemma_ceil_boundary(b, c + 1);
}

/// An offset is taken down to the last boundary that is not behind it.
pub proof fn clamping_leads_to_the_last_boundary(b: Seq<u8>, i: int)
    requires
        valid_utf8(b),
    ensures
        on_boundary(b, floor_boundary(b, i)),
        on_boundary(b, i) ==> floor_boundary(b, i) == i,
        i < 0 ==> floor_boundary(b, i) == 0,
        i > b.len() ==> floor_boundary(b, i) == b.len(),
        i >= 0 ==> floor_boundary(b, i) <= i,
        forall|j: int| floor_boundary(b, i) < j <= i ==> !on_boundary(b, j),
{
    lemma_floor_boundary(b, i);
}

/// Newlines are counted one by one.
pub proof fn newlines_are_counted(b: Seq<u8>, i: int)
    requires
        0 <= i <= b.len(),
    ensures
        newlines(b, i) == b.take(i).filter(|x: u8| x == '\n' as u8).len(),
    decreases i,
{
    reveal(Seq::filter);
    if i > 0 {
        newlines_are_counted(b, i - 1);
        assert(b.take(i).drop_last() =~= b.take(i - 1));
    }
}

/// The line of an offset reaches from the last newline before it to the first one that is not
/// before it.
pub proof fn lines_reach_from_newline_to_newline(b: Seq<u8>, i: int)
    requires
        0 <= i <= b.len(),
    ensures
        0 <= line_floor(b, i) <= i <= line_ceil(b, i) <= b.len(),
        line_floor(b, i) > 0 ==> b[line_floor(b, i) - 1] == '\n' as u8,
        line_ceil(b, i) < b.len() ==> b[line_ceil(b, i)] == '\n' as u8,
        forall|j: int| line_floor(b, i) <= j < line_ceil(b, i) ==> b[j] != '\n' as u8,
{
    lemma_line_floor(b, i);
    lemma_line_ceil(b, i);
}

/// Line `k` starts behind newline `k`, or at the start of the text where `k` is zero; a line that
/// does not exist starts at the end of the text.
pub proof fn lines_start_behind_their_newline(b: Seq<u8>, k: nat)
    ensures
        k == 0 ==> line_start(b, k) == 0,
        0 < k <= newlines(b, b.len() as int) ==> {
            &&& 0 < line_start(b, k) <= b.len()
            &&& b[line_start(b, k) - 1] == '\n' as u8
            &&& newlines(b, line_start(b, k)) == k
        },
        k > newlines(b, b.len() as int) ==> line_start(b, k) == b.len(),
{
    lemma_line_start(b, k);
    if k <= newlines(b, b.len() as int) {
        lemma_line_start_is_fresh(b, k);
    }
}

/// There is a line for the start of the text and one behind every newline, but none behind a
/// newline that ends the text.
pub proof fn lines_are_counted(b: Seq<u8>)
    ensures
        b.len() == 0 ==> line_count(b) == 1,
        b.len() > 0 && b.last() != '\n' as u8 ==> line_count(b) == newlines(b, b.len() as int) + 1,
        b.len() > 0 && b.last() == '\n' as u8 ==> line_count(b) == newlines(b, b.len() as int),
        line_count(b) >= 1,
{
    if b.len() > 0 {
        assert(newlines(b, b.len() as int) >= (if b.last() == NEWLINE {
            1nat
        } else {
            0
        }));
    }
}

/// Letters and digits of ASCII and the underscore make words, and nothing else does.
pub proof fn words_are_made_of_letters_digits_and_underscores(x: u8)
    ensures
        word_byte(x) <==> 48 <= x <= 57 || 65 <= x <= 90 || 97 <= x <= 122 || x == 95,
{
}

/// `i` is where a word starts: a word byte with none in front of it.
pub open spec fn word_starts_at(b: Seq<u8>, i: int) -> bool {
    &&& 0 <= i < b.len()
    &&& word_byte(b[i])
    &&& i == 0 || !word_byte(b[i - 1])
}

/// `i` is where a word ends: a word byte with none behind it.
pub open spec fn word_ends_at(b: Seq<u8>, i: int) -> bool {
    &&& 0 <= i < b.len()
    &&& word_byte(b[i])
    &&& i + 1 == b.len() || !word_byte(b[i + 1])
}

/// The next word is the first one that starts behind the offset, in this line or a later one; where
/// none does, it is the end of the text.
pub proof fn next_word_is_the_first_start_behind(b: Seq<u8>, c: int)
    requires
        0 <= c <= b.len(),
    ensures
        c < b.len() ==> c < next_word(b, c) <= b.len(),
        c == b.len() ==> next_word(b, c) == c,
        next_word(b, c) < b.len() ==> word_starts_at(b, next_word(b, c)),
        forall|i: int| c < i < next_word(b, c) ==> !word_starts_at(b, i),
{
    lemma_skip_word_bytes(b, c);
    lemma_skip_gap_bytes(b, skip_word(b, c));
}

/// The word before is the last one that starts before the offset; where none does, it is the start
/// of the text.
pub proof fn prev_word_is_the_last_start_before(b: Seq<u8>, c: int)
    requires
        0 <= c <= b.len(),
    ensures
        c > 0 ==> 0 <= prev_word(b, c) < c,
        c == 0 ==> prev_word(b, c) == 0,
        prev_word(b, c) > 0 ==> word_starts_at(b, prev_word(b, c)),
        forall|i: int| prev_word(b, c) < i < c ==> !word_starts_at(b, i),
{
    if c > 0 {
        lemma_skip_gap_back_bytes(b, c - 1);
        lemma_skip_word_back_bytes(b, skip_gap_back(b, c - 1));
    }
}

/// The word end is the first one behind the offset; where there is none, it is the end of the text,
/// and the offset itself where no byte stands behind the one at it.
pub proof fn word_end_is_the_first_end_behind(b: Seq<u8>, c: int)
    requires
        0 <= c <= b.len(),
    ensures
        c + 1 >= b.len() ==> word_end(b, c) == c,
        c + 1 < b.len() ==> c < word_end(b, c) <= b.len(),
        c < word_end(b, c) < b.len() ==> word_ends_at(b, word_end(b, c)),
        forall|i: int| c < i < word_end(b, c) ==> !word_ends_at(b, i),
{
    if c + 1 < b.len() {
        lemma_skip_gap_bytes(b, c + 1);
        lemma_run_end_bytes(b, skip_gap(b, c + 1));
    }
}

proof fn lemma_skip_word_bytes(b: Seq<u8>, i: int)
    requires
        0 <= i <= b.len(),
    ensures
        i <= skip_word(b, i) <= b.len(),
        skip_word(b, i) < b.len() ==> !word_byte(b[skip_word(b, i)]),
        forall|j: int| i <= j < skip_word(b, i) ==> word_byte(b[j]),
    decreases b.len() - i,
{
    if i < b.len() && word_byte(b[i]) {
        lemma_skip_word_bytes(b, i + 1);
    }
}

proof fn lemma_skip_gap_bytes(b: Seq<u8>, i: int)
    requires
        0 <= i <= b.len(),
    ensures
        i <= skip_gap(b, i) <= b.len(),
        skip_gap(b, i) < b.len() ==> word_byte(b[skip_gap(b, i)]),
        forall|j: int| i <= j < skip_gap(b, i) ==> !word_byte(b[j]),
    decreases b.len() - i,
{
    if i < b.len() && !word_byte(b[i]) {
        lemma_skip_gap_bytes(b, i + 1);
    }
}

proof fn lemma_skip_gap_back_bytes(b: Seq<u8>, i: int)
    requires
        0 <= i < b.len(),
    ensures
        0 <= skip_gap_back(b, i) <= i,
        skip_gap_back(b, i) > 0 ==> word_byte(b[skip_gap_back(b, i)]),
        forall|j: int| skip_gap_back(b, i) < j <= i ==> !word_byte(b[j]),
    decreases i,
{
    if 0 < i && !word_byte(b[i]) {
        lemma_skip_gap_back_bytes(b, i - 1);
    }
}

proof fn lemma_skip_word_back_bytes(b: Seq<u8>, i: int)
    requires
        0 <= i < b.len(),
        i == 0 || word_byte(b[i]),
    ensures
        0 <= skip_word_back(b, i) <= i,
        skip_word_back(b, i) > 0 ==> word_starts_at(b, skip_word_back(b, i)),
        forall|j: int| skip_word_back(b, i) <= j < i ==> word_byte(b[j]),
    decreases i,
{
    if 0 < i && word_byte(b[i - 1]) {
        lemma_skip_word_back_bytes(b, i - 1);
    }
}

proof fn lemma_run_end_bytes(b: Seq<u8>, i: int)
    requires
        0 <= i <= b.len(),
    ensures
        i <= run_end(b, i) <= b.len(),
        i < b.len() ==> run_end(b, i) < b.len(),
        run_end(b, i) + 1 < b.len() ==> !word_byte(b[run_end(b, i) + 1]),
        forall|j: int| i < j <= run_end(b, i) ==> word_byte(b[j]),
    decreases b.len() - i,
{
    if i + 1 < b.len() && word_byte(b[i + 1]) {
        lemma_run_end_bytes(b, i + 1);
    }
}

/// Replacing a part leaves what stands before it and behind it as it is.
pub proof fn replacing_touches_only_the_part(
    b: Seq<u8>,
    start: int,
    end: int,
    t: Seq<u8>,
    i: int,
)
    requires
        0 <= start <= end <= b.len(),
    ensures
        spliced(b, start, end, t).len() == b.len() - (end - start) + t.len(),
        0 <= i < start ==> spliced(b, start, end, t)[i] == b[i],
        0 <= i < t.len() ==> spliced(b, start, end, t)[start + i] == t[i],
        end <= i < b.len() ==> spliced(b, start, end, t)[i - (end - start) + t.len()] == b[i],
{
}

} // verus!
