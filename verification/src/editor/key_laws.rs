//! What each key does, named one by one.
use vstd::prelude::*;
use vstd::utf8::*;

use crate::decimal;
use crate::editor::action::{EditorAction, Key, Mode, Motion};
use crate::editor::engine;
use crate::editor::engine::EngineState;
use crate::editor::helix;
use crate::editor::laws;
use crate::editor::model;
use crate::editor::model::TextState;
use crate::editor::motion_laws;
use crate::editor::vim;
use crate::editor::vim::PendingState;
use crate::settings::MotionMode;
use crate::text;
use crate::text::NEWLINE;
use crate::unicode;

verus! {

/// The state with the cursor at `c`.
pub open spec fn at_cursor(e: EngineState, c: int) -> EngineState {
    e.with_text(e.text.with_cursor(c))
}

/// What lies between two offsets, either way.
pub open spec fn between(x: int, y: int) -> (int, int) {
    if x <= y {
        (x, y)
    } else {
        (y, x)
    }
}

/// Behind the newline of the line of `c`, where it has one, and else at the end of the text.
pub open spec fn behind_line(b: Seq<u8>, c: int) -> int {
    if text::line_ceil(b, c) < b.len() {
        text::line_ceil(b, c) + 1
    } else {
        b.len() as int
    }
}

/// Normal mode of the Vim dialect with no key pending.
pub open spec fn vim_at_rest(e: EngineState) -> bool {
    e.memory.motion_mode == MotionMode::Vim && laws::at_rest(e)
}

/// Normal mode of the Helix dialect with no key pending.
pub open spec fn helix_at_rest(e: EngineState) -> bool {
    e.memory.motion_mode == MotionMode::Helix && laws::at_rest(e)
}

/// Where the motion keys of the Vim dialect lead from `c`, with count `n`.
pub open spec fn vim_target(key: Key, b: Seq<u8>, c: int, n: nat) -> Option<int> {
    if key == Key::Char('h') || key == Key::Left {
        Some(model::left(b, c, n))
    } else if key == Key::Char('l') || key == Key::Right {
        Some(model::right(b, c, n))
    } else if key == Key::Char('j') || key == Key::Down {
        Some(model::down(b, c, n))
    } else if key == Key::Char('k') || key == Key::Up {
        Some(model::up(b, c, n))
    } else if key == Key::Char('w') {
        Some(model::words_forward(b, c, n))
    } else if key == Key::Char('b') {
        Some(model::words_backward(b, c, n))
    } else if key == Key::Char('e') {
        Some(model::word_ends(b, c, n))
    } else if key == Key::Char('0') {
        Some(text::line_floor(b, c))
    } else if key == Key::Char('^') {
        Some(model::first_nonblank(b, c))
    } else if key == Key::Char('$') {
        Some(text::line_ceil(b, c))
    } else if key == Key::Char('G') {
        Some(model::last_line(b))
    } else {
        None
    }
}

/// The motion of a key leads where the key does.
proof fn lemma_vim_target(t: TextState, key: Key, n: usize)
    ensures
        vim::motion_of(key, n) is Some <==> vim_target(key, t.bytes, t.cursor, n as nat) is Some,
        vim::motion_of(key, n) matches Some(m) ==> vim_target(key, t.bytes, t.cursor, n as nat)
            == Some(engine::motion_target(t, m)),
{
}

// ── One key ──────────────────────────────────────────────────────────────────

/// What is left of `e` by a key that asks for `actions`.
proof fn lemma_key(e: EngineState, key: Key, actions: Seq<EditorAction>)
    requires
        laws::modal(e),
        e.key_step(key).1 == actions,
    ensures
        ({
            let r = e.with_pending(e.key_step(key).0).run(actions);
            &&& e.key(key).text == r.text
            &&& e.key(key).mode == r.mode
            &&& e.key(key).memory.yank == r.memory.yank
            &&& e.key(key).memory.pending == e.key_step(key).0
            &&& e.key(key).memory.motion_mode == e.memory.motion_mode
            &&& e.key(key).anchor == r.anchored().anchor
            &&& r.text.bytes == e.text.bytes ==> e.key(key) == r.anchored()
        }),
{
    laws::lemma_run_keeps_dialect(e.with_pending(e.key_step(key).0), actions);
}

// ── Vim: motions ─────────────────────────────────────────────────────────────

/// A motion key in Normal mode of the Vim dialect moves the cursor and does nothing else.
proof fn lemma_vim_motion(e: EngineState, key: Key, motion: Motion)
    requires
        e.memory.motion_mode == MotionMode::Vim,
        e.mode == Mode::Normal,
        e.memory.pending.operator is None,
        !e.memory.pending.g_prefix,
        !e.memory.pending.takes_digit(key),
        vim::motion_of(key, e.memory.pending.repeat() as usize) == Some(motion),
    ensures
        e.key(key) == e.with_text(engine::moved(e.text, motion)).with_pending(
            PendingState::empty(),
        ),
{
    let (pending, actions) = e.key_step(key);
    assert(actions =~= seq![EditorAction::Move(motion)]);
    laws::lemma_single_action(e.with_pending(pending), EditorAction::Move(motion));
}

/// At rest in the Vim dialect `h j k l w b e 0 ^ $ G` and the arrow keys move the cursor where
/// their names say and change nothing else.
pub proof fn vim_motion_keys_move(e: EngineState, key: Key)
    requires
        vim_at_rest(e),
    ensures
        vim_target(key, e.text.bytes, e.text.cursor, 1) matches Some(c) ==> e.key(key) == at_cursor(
            e,
            c,
        ),
{
    laws::lemma_no_count(e.memory.pending);
    lemma_vim_target(e.text, key, 1);
    if let Some(motion) = vim::motion_of(key, 1) {
        lemma_vim_motion(e, key, motion);
    }
}

/// A count in front of a motion key of the Vim dialect moves that often: `3w` leads three words on.
/// A count that no machine word holds counts as one.
pub proof fn vim_counts_repeat_motions(e: EngineState, s: Seq<char>, key: Key)
    requires
        vim_at_rest(e),
        laws::count_digits(s),
        key != Key::Char('0'),
    ensures
        ({
            let value = decimal::digits_value(s);
            let n = if 1 <= value <= usize::MAX {
                value as nat
            } else {
                1
            };
            vim_target(key, e.text.bytes, e.text.cursor, n) matches Some(c) ==> laws::keys(
                e,
                laws::typed(s),
            ).key(key) == at_cursor(e, c)
        }),
{
    laws::lemma_digits_collect(e, s);
    let p = laws::counting(e.memory.pending, s);
    let n = p.repeat() as usize;
    lemma_vim_target(e.text, key, n);
    if let Some(motion) = vim::motion_of(key, n) {
        lemma_vim_motion(e.with_pending(p), key, motion);
    }
}

/// `gg` leads to the start of the text and `ge` to the end of a word, and change nothing else; `g`
/// and any other key do nothing.
#[verifier::rlimit(60)]
pub proof fn vim_g_leads(e: EngineState, key: Key)
    requires
        vim_at_rest(e),
        !PendingState::empty().takes_digit(key),
    ensures
        e.key(Key::Char('g')).key(key) == (if key == Key::Char('g') {
            at_cursor(e, 0)
        } else if key == Key::Char('e') {
            at_cursor(e, text::word_end(e.text.bytes, e.text.cursor))
        } else {
            e
        }),
{
    let g = Key::Char('g');
    laws::lemma_no_action(e, g);
    let w = e.with_pending(PendingState::empty().with_g());
    assert(e.key(g) == w);
    laws::lemma_no_count(w.memory.pending);
    let (pending, actions) = w.key_step(key);
    let b = w.with_pending(pending);
    laws::lemma_single_action(b, EditorAction::Move(Motion::FirstLine));
    laws::lemma_single_action(b, EditorAction::Move(Motion::WordEnd(1)));
    motion_laws::words_add_up(e.text.bytes, e.text.cursor, 0, 0);
    if key == g {
        assert(actions =~= seq![EditorAction::Move(Motion::FirstLine)]);
    } else if key == Key::Char('e') {
        assert(actions =~= seq![EditorAction::Move(Motion::WordEnd(1))]);
    } else {
        laws::lemma_no_actions(b, actions);
    }
}

/// A count in front of `ge` leads that many word ends on.
#[verifier::rlimit(60)]
pub proof fn vim_counts_repeat_ge(e: EngineState, s: Seq<char>)
    requires
        vim_at_rest(e),
        laws::count_digits(s),
        1 <= decimal::digits_value(s) <= usize::MAX,
    ensures
        laws::keys(e, laws::typed(s)).key(Key::Char('g')).key(Key::Char('e')) == at_cursor(
            e,
            model::word_ends(e.text.bytes, e.text.cursor, decimal::digits_value(s) as nat),
        ),
{
    laws::lemma_digits_collect(e, s);
    let p = laws::counting(e.memory.pending, s);
    let n = decimal::digits_value(s) as nat;
    let g = Key::Char('g');
    laws::lemma_no_action(e.with_pending(p), g);
    let w = e.with_pending(p.with_g());
    let (pending, actions) = w.key_step(Key::Char('e'));
    assert(actions == Seq::new(n, |i: int| EditorAction::Move(Motion::WordEnd(1))));
    lemma_word_end_moves(w.with_pending(pending), n);
}

proof fn lemma_word_end_moves(b: EngineState, n: nat)
    ensures
        b.run(Seq::new(n, |i: int| EditorAction::Move(Motion::WordEnd(1)))) == at_cursor(
            b,
            model::word_ends(b.text.bytes, b.text.cursor, n),
        ),
    decreases n,
{
    let actions = Seq::new(n, |i: int| EditorAction::Move(Motion::WordEnd(1)));
    if n > 0 {
        let m = (n - 1) as nat;
        lemma_word_end_moves(b, m);
        assert(actions.drop_last() =~= Seq::new(
            m,
            |i: int| EditorAction::Move(Motion::WordEnd(1)),
        ));
        motion_laws::words_add_up(b.text.bytes, b.text.cursor, m, 1);
    }
}

// ── Vim: operators ───────────────────────────────────────────────────────────

/// `d`, `c` and `y` with a motion key take what lies between the cursor and where the key leads,
/// and with a count, before the operator or after it, where the counted key leads.
#[verifier::rlimit(60)]
pub proof fn vim_operators_take_up_to_the_target(e: EngineState, op: char, s: Seq<char>, key: Key)
    requires
        vim_at_rest(e),
        laws::is_operator(op),
    ensures
        vim_target(key, e.text.bytes, e.text.cursor, 1) matches Some(c) ==> laws::operated(
            e,
            op,
            between(e.text.cursor, c),
            e.key(Key::Char(op)).key(key),
        ),
        laws::count_digits(s) && 1 <= decimal::digits_value(s) <= usize::MAX && key != Key::Char(
            '0',
        ) ==> (vim_target(
            key,
            e.text.bytes,
            e.text.cursor,
            decimal::digits_value(s) as nat,
        ) matches Some(c) ==> {
            &&& laws::operated(
                e,
                op,
                between(e.text.cursor, c),
                laws::keys(e, laws::typed(s)).key(Key::Char(op)).key(key),
            )
            &&& laws::operated(
                e,
                op,
                between(e.text.cursor, c),
                laws::keys(e.key(Key::Char(op)), laws::typed(s)).key(key),
            )
        }),
{
    lemma_vim_target(e.text, key, 1);
    if vim::motion_of(key, 1) is Some {
        laws::operator_takes_what_the_motion_covers(e, op, key);
    }
    if laws::count_digits(s) && 1 <= decimal::digits_value(s) <= usize::MAX && key != Key::Char(
        '0',
    ) {
        lemma_vim_target(e.text, key, decimal::digits_value(s) as usize);
        if vim::motion_of(key, decimal::digits_value(s) as usize) is Some {
            laws::counted_operator_takes_what_the_motion_covers(e, op, s, key);
        }
    }
}

/// `dd`, `cc` and `yy` take the current line with its newline, where it has one; with `gg` an
/// operator takes everything before the cursor.
#[verifier::rlimit(60)]
pub proof fn vim_operators_take_lines(e: EngineState, op: char)
    requires
        e.wf(),
        vim_at_rest(e),
        laws::is_operator(op),
    ensures
        laws::operated(
            e,
            op,
            (
                text::line_floor(e.text.bytes, e.text.cursor),
                behind_line(e.text.bytes, e.text.cursor),
            ),
            e.key(Key::Char(op)).key(Key::Char(op)),
        ),
        laws::operated(
            e,
            op,
            (0, e.text.cursor),
            e.key(Key::Char(op)).key(Key::Char('g')).key(Key::Char('g')),
        ),
{
    laws::doubled_operator_takes_the_line(e, op);
    laws::operator_takes_what_gg_covers(e, op);
    motion_laws::current_line_includes_its_newline(e.text);
    text::lines_reach_from_newline_to_newline(e.text.bytes, e.text.cursor);
}

/// `dd` on a line with a newline leaves one newline less, with the line and its newline in the
/// register.
#[verifier::rlimit(60)]
pub proof fn dd_takes_one_newline(e: EngineState)
    requires
        e.wf(),
        vim_at_rest(e),
        text::line_ceil(e.text.bytes, e.text.cursor) < e.text.bytes.len(),
    ensures
        ({
            let after = e.key(Key::Char('d')).key(Key::Char('d'));
            let b = e.text.bytes;
            let start = text::line_floor(b, e.text.cursor);
            let end = text::line_ceil(b, e.text.cursor);
            &&& text::newlines(after.text.bytes, after.text.bytes.len() as int) + 1
                == text::newlines(b, b.len() as int)
            &&& after.text.bytes == b.subrange(0, start) + b.subrange(end + 1, b.len() as int)
            &&& after.text.cursor == start
            &&& after.memory.yank == b.subrange(start, end + 1)
        }),
{
    laws::doubled_operator_takes_the_line(e, 'd');
    motion_laws::deleting_the_line_takes_one_newline(e.text);
    motion_laws::current_line_includes_its_newline(e.text);
}

/// A key that is no motion, not the operator again and not `g` calls the operator off and does
/// nothing. After an operator and `g`, a key other than `g` does what it does at rest.
#[verifier::rlimit(60)]
pub proof fn vim_operators_are_called_off(e: EngineState, op: char, key: Key)
    requires
        vim_at_rest(e),
        laws::is_operator(op),
    ensures
        vim_target(key, e.text.bytes, e.text.cursor, 1) is None && key != Key::Char(op) && key
            != Key::Char('g') && !PendingState::empty().takes_digit(key) ==> e.key(
            Key::Char(op),
        ).key(key) == e,
        key != Key::Char('g') ==> e.key(Key::Char(op)).key(Key::Char('g')).key(key) == e.key(key),
{
    let g = Key::Char('g');
    let p = PendingState::empty().with_operator(op);
    laws::lemma_operator_waits(e, op);
    let w = e.with_pending(p);
    lemma_vim_target(e.text, key, 1);
    laws::lemma_no_count(p);
    if vim_target(key, e.text.bytes, e.text.cursor, 1) is None && key != Key::Char(op) && key != g
        && !PendingState::empty().takes_digit(key) {
        laws::lemma_no_action(w, key);
    }
    if key != g {
        laws::lemma_no_action(w, g);
        assert(w.key(g) == e.with_pending(p.with_g()));
        assert(w.key(g).key_step(key) == e.key_step(key));
        assert(e.with_pending(p.with_g()).with_pending(e.key_step(key).0) == e.with_pending(
            e.key_step(key).0,
        ));
    }
}

// ── Vim: ways into Insert mode ───────────────────────────────────────────────

/// `e` with the text `s` typed in Insert mode, and Escape.
#[verifier::opaque]
pub open spec fn typed_and_escaped(e: EngineState, s: Seq<char>) -> EngineState {
    laws::keys(e, laws::typed(s)).key(Key::Escape)
}

/// What is typed in Insert mode before Escape is put in at the cursor.
proof fn lemma_typed_and_escaped(e: EngineState, s: Seq<char>)
    requires
        e.wf(),
        laws::modal(e),
        e.mode == Mode::Insert,
    ensures
        typed_and_escaped(e, s).text == e.text.insert(encode_utf8(s)),
        typed_and_escaped(e, s).mode == Mode::Normal,
{
    reveal(typed_and_escaped);
    laws::typing_inserts_what_is_typed(e, s);
    laws::lemma_keys_keep_wf(e, laws::typed(s));
    laws::escape_leads_to_normal(laws::keys(e, laws::typed(s)));
}

/// At rest in the Vim dialect, some text and Escape after `i`, `a`, `I` or `A` put the text in: at
/// the cursor, one character on, at the first character of the line that is no white space, and at
/// the end of the line. They end up in Normal mode.
#[verifier::rlimit(60)]
pub proof fn vim_ways_into_insert_mode(e: EngineState, key: Key, s: Seq<char>)
    requires
        e.wf(),
        vim_at_rest(e),
    ensures
        ({
            let b = e.text.bytes;
            let c = e.text.cursor;
            let at = if key == Key::Char('i') {
                Some(c)
            } else if key == Key::Char('a') {
                Some(model::right(b, c, 1))
            } else if key == Key::Char('I') {
                Some(model::first_nonblank(b, c))
            } else if key == Key::Char('A') {
                Some(text::line_ceil(b, c))
            } else {
                None
            };
            at matches Some(p) ==> {
                let after = typed_and_escaped(e.key(key), s);
                &&& e.key(key).mode == Mode::Insert
                &&& e.key(key).anchor is None
                &&& e.key(key).memory.yank == e.memory.yank
                &&& after.mode == Mode::Normal
                &&& after.text.bytes == b.subrange(0, p) + encode_utf8(s) + b.subrange(
                    p,
                    b.len() as int,
                )
                &&& after.text.cursor == p + encode_utf8(s).len()
            }
        }),
{
    if key == Key::Char('i') {
        lemma_way_in(e, key);
    } else if key == Key::Char('a') {
        lemma_way_in_by(e, key, Motion::Right(1));
    } else if key == Key::Char('I') {
        lemma_way_in_by(e, key, Motion::FirstNonBlank);
    } else if key == Key::Char('A') {
        lemma_way_in_by(e, key, Motion::LineEnd);
    }
    if key == Key::Char('i') || key == Key::Char('a') || key == Key::Char('I') || key == Key::Char(
        'A',
    ) {
        lemma_typed_and_escaped(e.key(key), s);
    }
}

/// A key that only switches to Insert mode.
proof fn lemma_way_in(e: EngineState, key: Key)
    requires
        e.wf(),
        vim_at_rest(e),
        key == Key::Char('i'),
    ensures
        entered(e, e.text, e.key(key)),
{
    let insert = EditorAction::SetMode(Mode::Insert);
    let (pending, actions) = e.key_step(key);
    assert(actions =~= seq![insert]);
    laws::lemma_single_action(e.with_pending(pending), insert);
    lemma_key(e, key, actions);
    engine::key_keeps_wf(e, key);
}

/// A key that moves and switches to Insert mode.
#[verifier::rlimit(60)]
proof fn lemma_way_in_by(e: EngineState, key: Key, motion: Motion)
    requires
        e.wf(),
        vim_at_rest(e),
        key == Key::Char('a') && motion == Motion::Right(1) || key == Key::Char('I') && motion
            == Motion::FirstNonBlank || key == Key::Char('A') && motion == Motion::LineEnd,
    ensures
        entered(e, engine::moved(e.text, motion), e.key(key)),
{
    let insert = EditorAction::SetMode(Mode::Insert);
    let (pending, actions) = e.key_step(key);
    assert(actions =~= seq![EditorAction::Move(motion), insert]);
    laws::lemma_two_actions(e.with_pending(pending), EditorAction::Move(motion), insert);
    lemma_key(e, key, actions);
    engine::key_keeps_wf(e, key);
}

/// `after` is `e` in Insert mode, with the text and cursor of `t`.
spec fn entered(e: EngineState, t: TextState, after: EngineState) -> bool {
    &&& after.wf()
    &&& after.memory.motion_mode == e.memory.motion_mode
    &&& after.mode == Mode::Insert
    &&& after.anchor is None
    &&& after.memory.yank == e.memory.yank
    &&& after.text == t
}

/// Three actions and nothing else.
proof fn lemma_three_actions(b: EngineState, x: EditorAction, y: EditorAction, z: EditorAction)
    ensures
        b.run(seq![x, y, z]) == b.step(x).step(y).step(z),
{
    laws::lemma_two_actions(b, x, y);
    assert(seq![x, y, z].drop_last() =~= seq![x, y]);
}

/// `o`, some text and Escape put the text in as a new line below the current one, in either
/// dialect.
#[verifier::rlimit(60)]
pub proof fn o_opens_a_line_below(e: EngineState, s: Seq<char>)
    requires
        e.wf(),
        laws::modal(e),
        laws::at_rest(e),
    ensures
        ({
            let b = e.text.bytes;
            let p = text::line_ceil(b, e.text.cursor);
            let after = typed_and_escaped(e.key(Key::Char('o')), s);
            &&& e.key(Key::Char('o')).mode == Mode::Insert
            &&& e.key(Key::Char('o')).anchor is None
            &&& e.key(Key::Char('o')).memory.yank == e.memory.yank
            &&& after.mode == Mode::Normal
            &&& after.text.bytes == b.subrange(0, p) + seq!['\n' as u8] + encode_utf8(s)
                + b.subrange(p, b.len() as int)
            &&& after.text.cursor == p + 1 + encode_utf8(s).len()
        }),
{
    let b = e.text.bytes;
    let p = text::line_ceil(b, e.text.cursor);
    let t = e.text.with_cursor(p);
    lemma_opens_below(e);
    lemma_typed_and_escaped(e.key(Key::Char('o')), s);
    model::lemma_line_boundaries(b, e.text.cursor);
    laws::lemma_insert_twice(t, seq![NEWLINE], encode_utf8(s));
    assert(b.subrange(0, p) + (seq![NEWLINE] + encode_utf8(s)) =~= b.subrange(0, p) + seq![NEWLINE]
        + encode_utf8(s));
}

#[verifier::rlimit(60)]
proof fn lemma_opens_below(e: EngineState)
    requires
        e.wf(),
        laws::modal(e),
        laws::at_rest(e),
    ensures
        entered(
            e,
            e.text.with_cursor(text::line_ceil(e.text.bytes, e.text.cursor)).insert(seq![NEWLINE]),
            e.key(Key::Char('o')),
        ),
{
    let o = Key::Char('o');
    let go = EditorAction::Move(Motion::LineEnd);
    let put = EditorAction::InsertChar('\n');
    let insert = EditorAction::SetMode(Mode::Insert);
    let (pending, actions) = e.key_step(o);
    assert(actions =~= seq![go, put, insert]);
    lemma_three_actions(e.with_pending(pending), go, put, insert);
    lemma_key(e, o, actions);
    engine::key_keeps_wf(e, o);
    text::newline_is_the_newline();
}

/// `O`, some text and Escape put the text in as a new line above the current one.
#[verifier::rlimit(60)]
pub proof fn vim_shift_o_opens_a_line_above(e: EngineState, s: Seq<char>)
    requires
        e.wf(),
        vim_at_rest(e),
    ensures
        ({
            let b = e.text.bytes;
            let p = text::line_floor(b, e.text.cursor);
            let after = typed_and_escaped(e.key(Key::Char('O')), s);
            &&& e.key(Key::Char('O')).mode == Mode::Insert
            &&& e.key(Key::Char('O')).anchor is None
            &&& e.key(Key::Char('O')).memory.yank == e.memory.yank
            &&& after.mode == Mode::Normal
            &&& after.text.bytes == b.subrange(0, p) + encode_utf8(s) + seq!['\n' as u8]
                + b.subrange(p, b.len() as int)
            &&& after.text.cursor == p + encode_utf8(s).len()
        }),
{
    let b = e.text.bytes;
    let p = text::line_floor(b, e.text.cursor);
    lemma_opens_above(e);
    lemma_typed_and_escaped(e.key(Key::Char('O')), s);
    model::lemma_line_boundaries(b, e.text.cursor);
    text::lemma_line_floor(b, e.text.cursor);
    let head = b.subrange(0, p);
    let tail = b.subrange(p, b.len() as int);
    let n = e.text.with_cursor(p).insert(seq![NEWLINE]);
    assert(n.bytes =~= head + seq![NEWLINE] + tail);
    text::newline_is_the_newline();
    unicode::lemma_utf8_width('\n');
    encode_utf8_valid_utf8(seq!['\n']);
    model::lemma_spliced(b, p, p, seq![NEWLINE]);
    lemma_up_to_an_empty_line(n.bytes, p);
    assert(n.bytes.subrange(0, p) =~= head);
    assert(n.bytes.subrange(p, n.bytes.len() as int) =~= seq![NEWLINE] + tail);
    assert(head + encode_utf8(s) + (seq![NEWLINE] + tail) =~= head + encode_utf8(s) + seq![NEWLINE]
        + tail);
}

#[verifier::rlimit(60)]
proof fn lemma_opens_above(e: EngineState)
    requires
        e.wf(),
        vim_at_rest(e),
    ensures
        ({
            let p = text::line_floor(e.text.bytes, e.text.cursor);
            let n = e.text.with_cursor(p).insert(seq![NEWLINE]);
            entered(e, n.with_cursor(model::up(n.bytes, p + 1, 1)), e.key(Key::Char('O')))
        }),
{
    let o = Key::Char('O');
    let go = EditorAction::Move(Motion::LineStart);
    let put = EditorAction::InsertChar('\n');
    let back = EditorAction::Move(Motion::Up(1));
    let insert = EditorAction::SetMode(Mode::Insert);
    let (pending, actions) = e.key_step(o);
    assert(actions =~= seq![go, put, back, insert]);
    let start = e.with_pending(pending);
    lemma_three_actions(start, go, put, back);
    assert(actions.drop_last() =~= seq![go, put, back]);
    assert(start.run(actions) == start.run(actions.drop_last()).step(insert));
    lemma_key(e, o, actions);
    engine::key_keeps_wf(e, o);
    text::newline_is_the_newline();
}

/// From behind the newline of an empty line a move up leads to that line.
proof fn lemma_up_to_an_empty_line(b: Seq<u8>, p: int)
    requires
        valid_utf8(b),
        text::on_boundary(b, p),
        p < b.len(),
        b[p] == NEWLINE,
        p == 0 || b[p - 1] == NEWLINE,
    ensures
        model::up(b, p + 1, 1) == p,
{
    let k = text::newlines(b, p);
    assert(text::newlines(b, p + 1) == k + 1);
    assert(text::line_floor(b, p + 1) == p + 1);
    assert(text::line_floor(b, p) == p);
    text::line_of_offset_starts_at_its_floor(b, p);
    text::lemma_line_ceil(b, p);
    assert(text::line_ceil(b, p) == p);
    text::clamping_leads_to_the_last_boundary(b, p);
}

// ── Edits in Normal mode ─────────────────────────────────────────────────────

/// `after` is `e` with the text and cursor of `t`: mode and register are as they were, and nothing
/// is pending.
pub open spec fn edited(e: EngineState, t: TextState, after: EngineState) -> bool {
    &&& after.text == t
    &&& after.mode == e.mode
    &&& after.memory.yank == e.memory.yank
    &&& after.memory.pending == PendingState::empty()
}

/// At rest in the Vim dialect `x` takes out the character at the cursor and `X` the one before it;
/// Enter opens an empty line below and stays in Normal mode.
#[verifier::rlimit(60)]
pub proof fn vim_edits_in_normal_mode(e: EngineState, key: Key)
    requires
        vim_at_rest(e),
    ensures
        key == Key::Char('x') ==> edited(e, e.text.delete_char_forward(), e.key(key)),
        key == Key::Char('X') ==> edited(e, e.text.delete_backward(), e.key(key)),
        key == Key::Char('x') || key == Key::Char('X') || key == Key::Enter ==> e.key(key).anchor
            == e.anchor,
        key == Key::Enter ==> edited(
            e,
            e.text.with_cursor(text::line_ceil(e.text.bytes, e.text.cursor)).insert(
                seq!['\n' as u8],
            ),
            e.key(key),
        ),
{
    let forward = EditorAction::DeleteCharForward;
    let backward = EditorAction::DeleteBackward;
    let go = EditorAction::Move(Motion::LineEnd);
    let put = EditorAction::InsertChar('\n');
    let (pending, actions) = e.key_step(key);
    let b = e.with_pending(pending);
    lemma_key(e, key, actions);
    if key == Key::Char('x') {
        assert(actions =~= seq![forward]);
        laws::lemma_single_action(b, forward);
    } else if key == Key::Char('X') {
        assert(actions =~= seq![backward]);
        laws::lemma_single_action(b, backward);
    } else if key == Key::Enter {
        assert(actions =~= seq![go, put]);
        laws::lemma_two_actions(b, go, put);
        text::newline_is_the_newline();
    }
}

/// At rest `p` puts the register in behind the character at the cursor and `P` in front of it, in
/// either dialect.
#[verifier::rlimit(60)]
pub proof fn pasting_puts_the_register_in(e: EngineState)
    requires
        e.wf(),
        laws::modal(e),
        laws::at_rest(e),
    ensures
        edited(
            e,
            e.text.with_cursor(text::next_char(e.text.bytes, e.text.cursor)).insert(e.memory.yank),
            e.key(Key::Char('p')),
        ),
        edited(e, e.text.insert(e.memory.yank), e.key(Key::Char('P'))),
        e.anchor is Some ==> e.key(Key::Char('p')).anchor == e.anchor && e.key(
            Key::Char('P'),
        ).anchor == e.anchor,
{
    let b = e.with_pending(PendingState::empty());
    let after = EditorAction::PasteAfter;
    let before = EditorAction::PasteBefore;
    laws::lemma_single_action(b, after);
    laws::lemma_single_action(b, before);
    assert(e.key_step(Key::Char('p')).1 =~= seq![after]);
    assert(e.key_step(Key::Char('P')).1 =~= seq![before]);
    lemma_key(e, Key::Char('p'), seq![after]);
    lemma_key(e, Key::Char('P'), seq![before]);
    text::lemma_ceil_boundary(e.text.bytes, e.text.cursor + 1);
    text::clamping_leads_to_the_last_boundary(e.text.bytes, e.text.cursor);
    text::clamping_leads_to_the_last_boundary(
        e.text.bytes,
        text::next_char(e.text.bytes, e.text.cursor),
    );
}

/// `v` starts a selection of characters at the cursor and `V` one of lines; an anchor that is there
/// already stays. They touch nothing else.
#[verifier::rlimit(60)]
pub proof fn vim_visual_mode_starts_at_the_cursor(e: EngineState)
    requires
        vim_at_rest(e),
    ensures
        e.key(Key::Char('v')) == e.with_mode(Mode::Visual { line: false }).with_anchor(
            anchor_or(e, e.text.cursor),
        ),
        e.key(Key::Char('V')) == e.with_mode(Mode::Visual { line: true }).with_anchor(
            anchor_or(e, e.text.cursor),
        ),
{
    let b = e.with_pending(PendingState::empty());
    let chars = EditorAction::SetMode(Mode::Visual { line: false });
    let lines = EditorAction::SetMode(Mode::Visual { line: true });
    laws::lemma_single_action(b, chars);
    laws::lemma_single_action(b, lines);
    assert(e.key_step(Key::Char('v')).1 =~= seq![chars]);
    assert(e.key_step(Key::Char('V')).1 =~= seq![lines]);
    lemma_key(e, Key::Char('v'), seq![chars]);
    lemma_key(e, Key::Char('V'), seq![lines]);
}

/// The keys that mean something at rest in the Vim dialect besides the motions.
pub open spec fn vim_command(key: Key) -> bool {
    ||| key == Key::Enter
    ||| key matches Key::Char(c) && (c == 'i' || c == 'I' || c == 'a' || c == 'A' || c == 'o' || c
        == 'O' || c == 'x' || c == 'X' || c == 'p' || c == 'P' || c == 'v' || c == 'V' || c == 'u'
        || c == 'g' || c == 'd' || c == 'c' || c == 'y' || '1' <= c <= '9')
}

/// Every other key does nothing at rest in the Vim dialect, Escape included.
pub proof fn vim_other_keys_do_nothing(e: EngineState, key: Key)
    requires
        vim_at_rest(e),
        !vim_command(key),
        vim_target(key, e.text.bytes, e.text.cursor, 1) is None,
    ensures
        e.key(key) == e,
{
    lemma_vim_target(e.text, key, 1);
    laws::lemma_no_count(e.memory.pending);
    laws::lemma_no_action(e, key);
}

/// A digit at rest only starts a count, in either dialect; a zero does not.
pub proof fn digits_start_a_count(e: EngineState, c: char)
    requires
        laws::modal(e),
        laws::at_rest(e),
        e.anchor is Some || e.memory.motion_mode == MotionMode::Vim,
        '1' <= c <= '9',
    ensures
        e.key(Key::Char(c)) == e.with_pending(
            PendingState { count: seq![c], operator: None, g_prefix: false },
        ),
{
    laws::lemma_no_action(e, Key::Char(c));
    assert(Seq::<char>::empty().push(c) =~= seq![c]);
}

// ── Insert mode ──────────────────────────────────────────────────────────────

/// In Insert mode of either dialect a character and Enter are put in at the cursor, Backspace takes
/// the character before it, the arrow keys move it, and other keys but Escape do nothing.
#[verifier::rlimit(60)]
pub proof fn keys_of_insert_mode(e: EngineState, key: Key)
    requires
        laws::modal(e),
        e.mode == Mode::Insert,
        key != Key::Escape,
    ensures
        e.key(key).mode == Mode::Insert,
        e.key(key).anchor == e.anchor,
        e.key(key).memory.yank == e.memory.yank,
        e.key(key).memory.pending == e.memory.pending,
        e.key(key).text == insert_mode_text(e.text, key),
{
    let b = e.with_pending(e.memory.pending);
    let (pending, actions) = e.key_step(key);
    lemma_key(e, key, actions);
    text::newline_is_the_newline();
    if actions.len() == 0 {
        laws::lemma_no_actions(b, actions);
    } else {
        assert(actions =~= seq![actions[0]]);
        laws::lemma_single_action(b, actions[0]);
    }
    if let Key::Char(c) = key {
        unicode::lemma_utf8_width(c);
    }
}

/// What typing `key` makes of a text.
pub open spec fn insert_mode_text(t: TextState, key: Key) -> TextState {
    match key {
        Key::Char(c) => t.insert(encode_utf8(seq![c])),
        Key::Enter => t.insert(seq!['\n' as u8]),
        Key::Backspace => t.delete_backward(),
        Key::Left => t.with_cursor(model::left(t.bytes, t.cursor, 1)),
        Key::Right => t.with_cursor(model::right(t.bytes, t.cursor, 1)),
        Key::Up => t.with_cursor(model::up(t.bytes, t.cursor, 1)),
        Key::Down => t.with_cursor(model::down(t.bytes, t.cursor, 1)),
        _ => t,
    }
}

/// Escape leaves Insert and Visual mode of the Vim dialect, and Insert mode of the Helix dialect,
/// with the text and the register as they are. The Vim dialect is left without a selection, the
/// Helix dialect with an empty one at the cursor.
#[verifier::rlimit(60)]
pub proof fn escape_ends_the_selection(e: EngineState)
    requires
        laws::modal(e),
        e.mode == Mode::Insert || e.memory.motion_mode == MotionMode::Vim && e.mode is Visual,
    ensures
        ({
            let after = e.key(Key::Escape);
            &&& after.text == e.text
            &&& after.mode == Mode::Normal
            &&& after.memory.yank == e.memory.yank
            &&& after.anchor == (if e.memory.motion_mode == MotionMode::Helix {
                Some(e.text.cursor)
            } else {
                None
            })
        }),
{
    let (pending, actions) = e.key_step(Key::Escape);
    let normal = EditorAction::SetMode(Mode::Normal);
    assert(actions =~= seq![normal]);
    laws::lemma_single_action(e.with_pending(pending), normal);
    lemma_key(e, Key::Escape, actions);
}

/// Without a dialect keys do what they do in Insert mode, Escape nothing.
pub proof fn keys_without_a_dialect(e: EngineState, key: Key)
    requires
        e.memory.motion_mode == MotionMode::Plain,
    ensures
        e.key(key) == e.with_text(insert_mode_text(e.text, key)),
{
    text::newline_is_the_newline();
    if let Key::Char(c) = key {
        unicode::lemma_utf8_width(c);
    }
}

// ── Visual mode ──────────────────────────────────────────────────────────────

/// In Visual mode of the Vim dialect the motion keys move the cursor where their names say, with a
/// count that often, and change nothing else.
#[verifier::rlimit(60)]
pub proof fn vim_motion_keys_select(e: EngineState, s: Seq<char>, key: Key)
    requires
        e.memory.motion_mode == MotionMode::Vim,
        e.mode is Visual,
        e.memory.pending == PendingState::empty(),
    ensures
        vim_target(key, e.text.bytes, e.text.cursor, 1) matches Some(c) ==> e.key(key) == at_cursor(
            e,
            c,
        ),
        laws::count_digits(s) && 1 <= decimal::digits_value(s) <= usize::MAX && key != Key::Char(
            '0',
        ) ==> (vim_target(
            key,
            e.text.bytes,
            e.text.cursor,
            decimal::digits_value(s) as nat,
        ) matches Some(c) ==> laws::keys(e, laws::typed(s)).key(key) == at_cursor(e, c)),
        e.key(Key::Char('g')).key(Key::Char('g')) == at_cursor(e, 0),
{
    laws::lemma_no_count(e.memory.pending);
    lemma_vim_target(e.text, key, 1);
    if vim::motion_of(key, 1) is Some {
        laws::visual_mode_takes_every_motion(e, key);
    }
    if laws::count_digits(s) && 1 <= decimal::digits_value(s) <= usize::MAX && key != Key::Char(
        '0',
    ) {
        let n = decimal::digits_value(s) as usize;
        lemma_vim_target(e.text, key, n);
        lemma_visual_digits_collect(e, s);
        if let Some(motion) = vim::motion_of(key, n) {
            let w = e.with_pending(laws::counting(e.memory.pending, s));
            let (pending, actions) = w.key_step(key);
            assert(actions =~= seq![EditorAction::Move(motion)]);
            laws::lemma_single_action(w.with_pending(pending), EditorAction::Move(motion));
        }
    }
    lemma_visual_gg(e);
}

proof fn lemma_visual_gg(e: EngineState)
    requires
        e.memory.motion_mode == MotionMode::Vim,
        e.mode is Visual,
        e.memory.pending == PendingState::empty(),
    ensures
        e.key(Key::Char('g')).key(Key::Char('g')) == at_cursor(e, 0),
{
    let g = Key::Char('g');
    laws::lemma_no_action(e, g);
    let w = e.with_pending(PendingState::empty().with_g());
    assert(e.key(g) == w);
    let (pending, actions) = w.key_step(g);
    assert(actions =~= seq![EditorAction::Move(Motion::FirstLine)]);
    laws::lemma_single_action(w.with_pending(pending), EditorAction::Move(Motion::FirstLine));
}

/// Digits typed in Visual mode of the Vim dialect, where none is pending yet, only collect.
proof fn lemma_visual_digits_collect(e: EngineState, s: Seq<char>)
    requires
        e.memory.motion_mode == MotionMode::Vim,
        e.mode is Visual,
        e.memory.pending == PendingState::empty(),
        s.len() == 0 || laws::count_digits(s),
    ensures
        laws::keys(e, laws::typed(s)) == e.with_pending(laws::counting(e.memory.pending, s)),
    decreases s.len(),
{
    let p = e.memory.pending;
    if s.len() == 0 {
        assert(laws::counting(p, s) =~= p);
    } else {
        let front = s.drop_last();
        let c = s.last();
        assert(s[s.len() - 1] == c);
        assert(forall|i: int| 0 <= i < front.len() ==> #[trigger] front[i] == s[i]);
        lemma_visual_digits_collect(e, front);
        laws::lemma_typed_last(s);
        let before = e.with_pending(laws::counting(p, front));
        assert(before.memory.pending.takes_digit(Key::Char(c)));
        laws::lemma_no_action(before, Key::Char(c));
        assert(front.push(c) =~= s);
    }
}

/// The keys that mean something in Visual mode of the Vim dialect besides the motions.
pub open spec fn visual_command(key: Key) -> bool {
    ||| key == Key::Escape
    ||| key matches Key::Char(c) && (c == 'd' || c == 'c' || c == 'y' || c == 'g' || '1' <= c
        <= '9')
}

/// Every other key does nothing in Visual mode of the Vim dialect. After `g`, a key other than `g`
/// does what it does without it.
#[verifier::rlimit(60)]
pub proof fn visual_other_keys_do_nothing(e: EngineState, key: Key)
    requires
        e.memory.motion_mode == MotionMode::Vim,
        e.mode is Visual,
        e.memory.pending == PendingState::empty(),
    ensures
        !visual_command(key) && vim_target(key, e.text.bytes, e.text.cursor, 1) is None ==> e.key(
            key,
        ) == e,
        key != Key::Char('g') ==> e.key(Key::Char('g')).key(key) == e.key(key),
{
    let g = Key::Char('g');
    lemma_vim_target(e.text, key, 1);
    laws::lemma_no_count(e.memory.pending);
    laws::lemma_no_action(e, g);
    let w = e.with_pending(PendingState::empty().with_g());
    assert(e.key(g) == w);
    if !visual_command(key) && vim_target(key, e.text.bytes, e.text.cursor, 1) is None {
        laws::lemma_no_action(e, key);
    }
    if key != g {
        assert(w.key_step(key) == e.key_step(key));
        assert(w.with_pending(e.key_step(key).0) == e.with_pending(e.key_step(key).0));
    }
}

/// An operator in Visual mode of the Vim dialect takes what lies between the anchor and the cursor,
/// or the lines of both ends and all between, and leaves nothing selected.
#[verifier::rlimit(60)]
pub proof fn vim_visual_operators_take_the_selection(e: EngineState, op: char, a: int)
    requires
        e.wf(),
        e.memory.motion_mode == MotionMode::Vim,
        e.mode is Visual,
        e.memory.pending == PendingState::empty(),
        e.anchor == Some(a),
        laws::is_operator(op),
    ensures
        ({
            let (lo, hi) = between(text::floor_boundary(e.text.bytes, a), e.text.cursor);
            &&& e.mode == (Mode::Visual { line: false }) ==> laws::operated(
                e,
                op,
                (lo, hi),
                e.key(Key::Char(op)),
            )
            &&& e.mode == (Mode::Visual { line: true }) ==> laws::operated(
                e,
                op,
                (text::line_floor(e.text.bytes, lo), behind_line(e.text.bytes, hi)),
                e.key(Key::Char(op)),
            )
            &&& e.key(Key::Char(op)).anchor is None
        }),
{
    laws::visual_operators_take_the_selection(e, op);
    the_selection_lies_between_anchor_and_cursor(e);
    let (pending, actions) = e.key_step(Key::Char(op));
    let b = e.with_pending(pending);
    lemma_key(e, Key::Char(op), actions);
    if op == 'd' {
        assert(actions =~= seq![EditorAction::DeleteSelection]);
        laws::lemma_single_action(b, EditorAction::DeleteSelection);
    } else if op == 'c' {
        let insert = EditorAction::SetMode(Mode::Insert);
        assert(actions =~= seq![EditorAction::DeleteSelection, insert]);
        laws::lemma_two_actions(b, EditorAction::DeleteSelection, insert);
    } else {
        assert(actions =~= seq![EditorAction::YankSelection]);
        laws::lemma_single_action(b, EditorAction::YankSelection);
    }
}

/// The selection lies between the anchor, taken down to a boundary, and the cursor. Line visual
/// mode selects the lines of both ends and all between, with the newline of the last one.
pub proof fn the_selection_lies_between_anchor_and_cursor(e: EngineState)
    requires
        e.wf(),
    ensures
        e.anchor matches Some(a) ==> {
            let (lo, hi) = between(text::floor_boundary(e.text.bytes, a), e.text.cursor);
            e.selection() == (if e.mode == (Mode::Visual { line: true }) {
                (text::line_floor(e.text.bytes, lo), behind_line(e.text.bytes, hi))
            } else {
                (lo, hi)
            })
        },
        e.anchor is None ==> e.selection() == (e.text.cursor, e.text.cursor),
{
    if let Some(a) = e.anchor {
        text::clamping_leads_to_the_last_boundary(e.text.bytes, a);
        let hi = between(text::floor_boundary(e.text.bytes, a), e.text.cursor).1;
        text::lines_reach_from_newline_to_newline(e.text.bytes, hi);
    }
}

// ── Undo ─────────────────────────────────────────────────────────────────────

/// A change in a dialect puts the text and the cursor from before it on top of the undo stack, and
/// the stack keeps its latest snapshots: all of them, or the latest 128 in all.
pub proof fn the_undo_stack_keeps_the_latest(e: EngineState, key: Key, i: int)
    requires
        e.wf(),
        laws::modal(e),
        e.key(key).text.bytes != e.text.bytes,
    ensures
        ({
            let old = e.memory.undo;
            let new = e.key(key).memory.undo;
            &&& new.len() == (if old.len() < 128 {
                old.len() + 1
            } else {
                128
            })
            &&& new.last() == e.text
            &&& e.key(key).memory.undo_pos == new.len()
            &&& 1 <= i < new.len() ==> new[new.len() - 1 - i] == old[old.len() - i]
        }),
{
    laws::changes_are_reported(e, key);
}

/// At rest `u` does nothing where there is nothing to take back.
pub proof fn undo_without_history_does_nothing(e: EngineState)
    requires
        laws::modal(e),
        laws::at_rest(e),
        e.memory.undo_pos == 0,
        e.anchor is Some || e.memory.motion_mode == MotionMode::Vim,
    ensures
        e.key(Key::Char('u')) == e,
{
    let u = Key::Char('u');
    let (pending, actions) = e.key_step(u);
    assert(actions =~= seq![EditorAction::Undo]);
    laws::lemma_single_action(e.with_pending(pending), EditorAction::Undo);
    lemma_key(e, u, actions);
}

// ── Helix ────────────────────────────────────────────────────────────────────

/// Where the keys of the Helix dialect that only move lead from `c`, with count `n`.
pub open spec fn helix_target(key: Key, b: Seq<u8>, c: int, n: nat) -> Option<int> {
    if key == Key::Char('h') || key == Key::Left {
        Some(model::left(b, c, n))
    } else if key == Key::Char('l') || key == Key::Right {
        Some(model::right(b, c, n))
    } else if key == Key::Char('j') || key == Key::Down {
        Some(model::down(b, c, n))
    } else if key == Key::Char('k') || key == Key::Up {
        Some(model::up(b, c, n))
    } else if key == Key::Char('0') {
        Some(text::line_floor(b, c))
    } else if key == Key::Char('$') {
        Some(text::line_ceil(b, c))
    } else if key == Key::Char('G') {
        Some(model::last_line(b))
    } else {
        None
    }
}

/// Where the word keys of the Helix dialect lead from `c`, with count `n`.
pub open spec fn helix_word_target(key: Key, b: Seq<u8>, c: int, n: nat) -> Option<int> {
    if key == Key::Char('w') {
        Some(model::words_forward(b, c, n))
    } else if key == Key::Char('b') {
        Some(model::words_backward(b, c, n))
    } else if key == Key::Char('e') {
        Some(model::word_ends(b, c, n))
    } else {
        None
    }
}

/// The anchor, or `c` where there is none.
pub open spec fn anchor_or(e: EngineState, c: int) -> Option<int> {
    if e.anchor is Some {
        e.anchor
    } else {
        Some(c)
    }
}

/// A motion key of the Helix dialect in Normal mode, with what was counted.
#[verifier::rlimit(60)]
proof fn lemma_helix_motion(e: EngineState, key: Key)
    requires
        e.memory.motion_mode == MotionMode::Helix,
        e.mode == Mode::Normal,
        !e.memory.pending.g_prefix,
        !e.memory.pending.takes_digit(key),
    ensures
        ({
            let n = e.memory.pending.repeat() as nat;
            let at_rest = e.with_pending(PendingState::empty());
            &&& helix_target(key, e.text.bytes, e.text.cursor, n) matches Some(c) ==> e.key(key)
                == at_cursor(at_rest, c).with_anchor(anchor_or(e, c))
            &&& helix_word_target(key, e.text.bytes, e.text.cursor, n) matches Some(c) ==> e.key(
                key,
            ) == at_cursor(at_rest, c).with_anchor(anchor_or(e, e.text.cursor))
        }),
{
    let n = e.memory.pending.repeat() as usize;
    let (pending, actions) = e.key_step(key);
    let b = e.with_pending(pending);
    if let Some(motion) = helix::word_motion(key, n) {
        assert(actions =~= seq![EditorAction::MoveExtend(motion)]);
        laws::lemma_single_action(b, EditorAction::MoveExtend(motion));
        lemma_key(e, key, actions);
    } else if let Some(motion) = helix::plain_motion(key, n) {
        assert(actions =~= seq![EditorAction::Move(motion)]);
        laws::lemma_single_action(b, EditorAction::Move(motion));
        lemma_key(e, key, actions);
    }
}

/// At rest in the Helix dialect `h j k l 0 $ G` and the arrow keys move the cursor where their
/// names say and keep the anchor; `w`, `b` and `e` move by words and select from where the
/// selection started. They change nothing else.
pub proof fn helix_motion_keys_move(e: EngineState, key: Key)
    requires
        helix_at_rest(e),
    ensures
        helix_target(key, e.text.bytes, e.text.cursor, 1) matches Some(c) ==> e.key(key)
            == at_cursor(e, c).with_anchor(anchor_or(e, c)),
        helix_word_target(key, e.text.bytes, e.text.cursor, 1) matches Some(c) ==> e.key(key)
            == at_cursor(e, c).with_anchor(anchor_or(e, e.text.cursor)),
{
    laws::lemma_no_count(e.memory.pending);
    if !PendingState::empty().takes_digit(key) {
        lemma_helix_motion(e, key);
    }
}

/// Digits typed in Normal mode of the Helix dialect, where none is pending yet, only collect.
proof fn lemma_helix_digits_collect(e: EngineState, s: Seq<char>)
    requires
        helix_at_rest(e),
        e.anchor is Some,
        s.len() == 0 || laws::count_digits(s),
    ensures
        laws::keys(e, laws::typed(s)) == e.with_pending(laws::counting(e.memory.pending, s)),
    decreases s.len(),
{
    let p = e.memory.pending;
    if s.len() == 0 {
        assert(laws::counting(p, s) =~= p);
    } else {
        let front = s.drop_last();
        let c = s.last();
        assert(s[s.len() - 1] == c);
        assert(forall|i: int| 0 <= i < front.len() ==> #[trigger] front[i] == s[i]);
        lemma_helix_digits_collect(e, front);
        laws::lemma_typed_last(s);
        let before = e.with_pending(laws::counting(p, front));
        assert(before.memory.pending.takes_digit(Key::Char(c)));
        laws::lemma_no_action(before, Key::Char(c));
        assert(front.push(c) =~= s);
    }
}

/// A count in front of a motion key or a word key of the Helix dialect moves that often.
pub proof fn helix_counts_repeat_motions(e: EngineState, s: Seq<char>, key: Key)
    requires
        helix_at_rest(e),
        e.anchor is Some,
        laws::count_digits(s),
        1 <= decimal::digits_value(s) <= usize::MAX,
        key != Key::Char('0'),
    ensures
        ({
            let n = decimal::digits_value(s) as nat;
            let b = e.text.bytes;
            let c = e.text.cursor;
            let after = laws::keys(e, laws::typed(s)).key(key);
            &&& helix_target(key, b, c, n) matches Some(t) ==> after == at_cursor(e, t)
            &&& helix_word_target(key, b, c, n) matches Some(t) ==> after == at_cursor(e, t)
        }),
{
    lemma_helix_digits_collect(e, s);
    let w = e.with_pending(laws::counting(e.memory.pending, s));
    if !w.memory.pending.takes_digit(key) {
        lemma_helix_motion(w, key);
    }
}

/// `gg` leads to the start of the text and keeps the anchor; `g` and any other key do nothing.
#[verifier::rlimit(60)]
pub proof fn helix_g_leads(e: EngineState, key: Key)
    requires
        helix_at_rest(e),
        e.anchor is Some,
        !PendingState::empty().takes_digit(key),
    ensures
        e.key(Key::Char('g')).key(key) == (if key == Key::Char('g') {
            at_cursor(e, 0)
        } else {
            e
        }),
{
    let g = Key::Char('g');
    laws::lemma_no_action(e, g);
    let w = e.with_pending(PendingState::empty().with_g());
    assert(e.key(g) == w);
    let (pending, actions) = w.key_step(key);
    let b = w.with_pending(pending);
    if key == g {
        assert(actions =~= seq![EditorAction::Move(Motion::FirstLine)]);
        laws::lemma_single_action(b, EditorAction::Move(Motion::FirstLine));
        lemma_key(w, g, actions);
    } else {
        laws::lemma_no_action(w, key);
    }
}

/// `x` selects the current line with its newline; `X` makes the selection reach over it. They leave
/// the text as it is.
#[verifier::rlimit(60)]
pub proof fn helix_lines_are_selected(e: EngineState, key: Key)
    requires
        e.wf(),
        helix_at_rest(e),
    ensures
        ({
            let b = e.text.bytes;
            let start = text::line_floor(b, e.text.cursor);
            let end = behind_line(b, e.text.cursor);
            let (lo, hi) = match e.anchor {
                Some(a) => between(text::floor_boundary(b, a), e.text.cursor),
                None => (e.text.cursor, e.text.cursor),
            };
            &&& key == Key::Char('x') ==> e.key(key) == at_cursor(e, end).with_anchor(Some(start))
            &&& key == Key::Char('X') ==> e.key(key) == at_cursor(
                e,
                if hi <= end {
                    end
                } else {
                    hi
                },
            ).with_anchor(
                Some(
                    if lo <= start {
                        lo
                    } else {
                        start
                    },
                ),
            )
        }),
{
    let (pending, actions) = e.key_step(key);
    let b = e.with_pending(pending);
    motion_laws::current_line_includes_its_newline(e.text);
    text::lines_reach_from_newline_to_newline(e.text.bytes, e.text.cursor);
    the_selection_lies_between_anchor_and_cursor(e);
    if key == Key::Char('x') {
        assert(actions =~= seq![EditorAction::SelectLine]);
        laws::lemma_single_action(b, EditorAction::SelectLine);
        lemma_key(e, key, actions);
    } else if key == Key::Char('X') {
        assert(actions =~= seq![EditorAction::ExtendLine]);
        laws::lemma_single_action(b, EditorAction::ExtendLine);
        lemma_key(e, key, actions);
    }
}

/// In the Helix dialect an operator takes what lies between the anchor and the cursor; `d` and `y`
/// leave an empty selection at the cursor.
#[verifier::rlimit(60)]
pub proof fn helix_operators_take_the_selection(e: EngineState, op: char, a: int)
    requires
        e.wf(),
        helix_at_rest(e),
        e.anchor == Some(a),
        laws::is_operator(op),
    ensures
        laws::operated(
            e,
            op,
            between(text::floor_boundary(e.text.bytes, a), e.text.cursor),
            e.key(Key::Char(op)),
        ),
        e.key(Key::Char(op)).anchor == (if op == 'c' {
            None
        } else {
            Some(e.key(Key::Char(op)).text.cursor)
        }),
{
    laws::operators_take_the_selection(e, op);
    the_selection_lies_between_anchor_and_cursor(e);
    let (pending, actions) = e.key_step(Key::Char(op));
    let b = e.with_pending(pending);
    lemma_key(e, Key::Char(op), actions);
    if op == 'd' {
        assert(actions =~= seq![EditorAction::DeleteSelection]);
        laws::lemma_single_action(b, EditorAction::DeleteSelection);
    } else if op == 'c' {
        let insert = EditorAction::SetMode(Mode::Insert);
        assert(actions =~= seq![EditorAction::DeleteSelection, insert]);
        laws::lemma_two_actions(b, EditorAction::DeleteSelection, insert);
    } else {
        assert(actions =~= seq![EditorAction::YankSelection]);
        laws::lemma_single_action(b, EditorAction::YankSelection);
    }
}

/// In the Helix dialect `i` enters Insert mode at the start of the selection and `a` behind its
/// end; where nothing is selected `a` goes one character on. What is typed then, before Escape,
/// stands there.
#[verifier::rlimit(60)]
pub proof fn helix_ways_into_insert_mode(e: EngineState, key: Key, s: Seq<char>)
    requires
        e.wf(),
        helix_at_rest(e),
        key == Key::Char('i') || key == Key::Char('a'),
    ensures
        ({
            let b = e.text.bytes;
            let c = e.text.cursor;
            let (lo, hi) = match e.anchor {
                Some(a) => between(text::floor_boundary(b, a), c),
                None => (c, c),
            };
            let p = if key == Key::Char('i') {
                lo
            } else if lo < hi {
                hi
            } else {
                model::right(b, c, 1)
            };
            let after = typed_and_escaped(e.key(key), s);
            &&& e.key(key).mode == Mode::Insert
            &&& e.key(key).anchor is None
            &&& e.key(key).memory.yank == e.memory.yank
            &&& after.mode == Mode::Normal
            &&& after.text.bytes == b.subrange(0, p) + encode_utf8(s) + b.subrange(
                p,
                b.len() as int,
            )
            &&& after.text.cursor == p + encode_utf8(s).len()
        }),
{
    the_selection_lies_between_anchor_and_cursor(e);
    lemma_helix_way_in(e, key);
    lemma_typed_and_escaped(e.key(key), s);
}

#[verifier::rlimit(60)]
proof fn lemma_helix_way_in(e: EngineState, key: Key)
    requires
        e.wf(),
        helix_at_rest(e),
        key == Key::Char('i') || key == Key::Char('a'),
    ensures
        entered(
            e,
            e.text.with_cursor(
                if key == Key::Char('i') {
                    e.selection().0
                } else if e.selection().0 < e.selection().1 {
                    e.selection().1
                } else {
                    model::right(e.text.bytes, e.text.cursor, 1)
                },
            ),
            e.key(key),
        ),
{
    let insert = EditorAction::SetMode(Mode::Insert);
    let (pending, actions) = e.key_step(key);
    let b = e.with_pending(pending);
    let go = if key == Key::Char('i') {
        EditorAction::MoveToSelectionStart
    } else {
        EditorAction::MoveToSelectionEnd
    };
    assert(actions =~= seq![go, insert]);
    laws::lemma_two_actions(b, go, insert);
    lemma_key(e, key, actions);
    engine::key_keeps_wf(e, key);
}

/// At rest in the Helix dialect Escape makes the selection empty and does nothing else.
pub proof fn helix_escape_drops_the_selection(e: EngineState)
    requires
        helix_at_rest(e),
    ensures
        e.key(Key::Escape) == e.with_anchor(Some(e.text.cursor)),
{
    let (pending, actions) = e.key_step(Key::Escape);
    let normal = EditorAction::SetMode(Mode::Normal);
    assert(actions =~= seq![normal]);
    laws::lemma_single_action(e.with_pending(pending), normal);
    lemma_key(e, Key::Escape, actions);
}

/// The keys that mean something at rest in the Helix dialect besides the motions and word keys.
pub open spec fn helix_command(key: Key) -> bool {
    ||| key == Key::Escape
    ||| key matches Key::Char(c) && (c == 'i' || c == 'a' || c == 'o' || c == 'x' || c == 'X' || c
        == 'p' || c == 'P' || c == 'u' || c == 'g' || c == 'd' || c == 'c' || c == 'y' || '1' <= c
        <= '9')
}

/// Every other key does nothing at rest in the Helix dialect.
pub proof fn helix_other_keys_do_nothing(e: EngineState, key: Key)
    requires
        helix_at_rest(e),
        e.anchor is Some,
        !helix_command(key),
        helix_target(key, e.text.bytes, e.text.cursor, 1) is None,
        helix_word_target(key, e.text.bytes, e.text.cursor, 1) is None,
    ensures
        e.key(key) == e,
{
    laws::lemma_no_action(e, key);
}

// ── Counts and what takes none ───────────────────────────────────────────────

/// A count in front of a command that is no motion makes no difference in the Vim dialect, nor does
/// one in front of `dd`, `cc`, `yy` or `gg`.
#[verifier::rlimit(60)]
pub proof fn vim_counts_repeat_no_commands(e: EngineState, s: Seq<char>, key: Key, op: char)
    requires
        vim_at_rest(e),
        laws::count_digits(s),
        laws::is_operator(op),
        vim_target(key, e.text.bytes, e.text.cursor, 1) is None,
        !(key matches Key::Char(c) && (decimal::digit(c) || c == 'g' || laws::is_operator(c))),
    ensures
        laws::keys(e, laws::typed(s)).key(key) == e.key(key),
        laws::operated(
            e,
            op,
            e.text.line_range(),
            laws::keys(e, laws::typed(s)).key(Key::Char(op)).key(Key::Char(op)),
        ),
        laws::keys(e, laws::typed(s)).key(Key::Char('g')).key(Key::Char('g')) == at_cursor(e, 0),
{
    laws::lemma_digits_collect(e, s);
    lemma_counted_command(e, s, key);
    lemma_counted_line(e, s, op);
    lemma_counted_gg(e, s);
}

proof fn lemma_counted_command(e: EngineState, s: Seq<char>, key: Key)
    requires
        vim_at_rest(e),
        vim_target(key, e.text.bytes, e.text.cursor, 1) is None,
        !(key matches Key::Char(c) && (decimal::digit(c) || c == 'g' || laws::is_operator(c))),
    ensures
        e.with_pending(laws::counting(e.memory.pending, s)).key(key) == e.key(key),
{
    let w = e.with_pending(laws::counting(e.memory.pending, s));
    lemma_vim_target(e.text, key, 1);
    lemma_vim_target(e.text, key, w.memory.pending.repeat() as usize);
    assert(w.key_step(key) == e.key_step(key));
    assert(w.with_pending(e.key_step(key).0) == e.with_pending(e.key_step(key).0));
}

#[verifier::rlimit(60)]
proof fn lemma_counted_line(e: EngineState, s: Seq<char>, op: char)
    requires
        vim_at_rest(e),
        laws::is_operator(op),
    ensures
        laws::operated(
            e,
            op,
            e.text.line_range(),
            e.with_pending(laws::counting(e.memory.pending, s)).key(Key::Char(op)).key(
                Key::Char(op),
            ),
        ),
{
    let w = e.with_pending(laws::counting(e.memory.pending, s));
    laws::lemma_operator_waits(w, op);
    laws::lemma_operator_waits(e, op);
    let x = w.with_pending(w.memory.pending.with_operator(op));
    let y = e.with_pending(e.memory.pending.with_operator(op));
    assert(x.key_step(Key::Char(op)) == y.key_step(Key::Char(op)));
    let p = y.key_step(Key::Char(op)).0;
    assert(x.with_pending(p) == y.with_pending(p));
    assert(x.key(Key::Char(op)) == y.key(Key::Char(op)));
    laws::doubled_operator_takes_the_line(e, op);
}

proof fn lemma_counted_gg(e: EngineState, s: Seq<char>)
    requires
        vim_at_rest(e),
    ensures
        e.with_pending(laws::counting(e.memory.pending, s)).key(Key::Char('g')).key(Key::Char('g'))
            == at_cursor(e, 0),
{
    let g = Key::Char('g');
    let w = e.with_pending(laws::counting(e.memory.pending, s));
    laws::lemma_no_action(w, g);
    let x = w.with_pending(w.memory.pending.with_g());
    assert(w.key(g) == x);
    let (pending, actions) = x.key_step(g);
    assert(actions =~= seq![EditorAction::Move(Motion::FirstLine)]);
    laws::lemma_single_action(x.with_pending(pending), EditorAction::Move(Motion::FirstLine));
}

/// A count in front of a command of the Helix dialect that is no motion makes no difference.
pub proof fn helix_counts_repeat_no_commands(e: EngineState, s: Seq<char>, key: Key)
    requires
        helix_at_rest(e),
        e.anchor is Some,
        laws::count_digits(s),
        helix_target(key, e.text.bytes, e.text.cursor, 1) is None,
        helix_word_target(key, e.text.bytes, e.text.cursor, 1) is None,
        !(key matches Key::Char(c) && (decimal::digit(c) || c == 'g')),
    ensures
        laws::keys(e, laws::typed(s)).key(key) == e.key(key),
{
    lemma_helix_digits_collect(e, s);
    let w = e.with_pending(laws::counting(e.memory.pending, s));
    assert(w.key_step(key) == e.key_step(key));
    assert(w.with_pending(e.key_step(key).0) == e.with_pending(e.key_step(key).0));
}

/// A count in front of an operator in Visual mode makes no difference.
pub proof fn visual_counts_repeat_no_operators(e: EngineState, s: Seq<char>, op: char)
    requires
        e.memory.motion_mode == MotionMode::Vim,
        e.mode is Visual,
        e.memory.pending == PendingState::empty(),
        laws::count_digits(s),
        laws::is_operator(op),
    ensures
        laws::keys(e, laws::typed(s)).key(Key::Char(op)) == e.key(Key::Char(op)),
{
    let key = Key::Char(op);
    lemma_visual_digits_collect(e, s);
    let w = e.with_pending(laws::counting(e.memory.pending, s));
    assert(w.key_step(key) == e.key_step(key));
    assert(w.with_pending(e.key_step(key).0) == e.with_pending(e.key_step(key).0));
}

/// At rest `u` goes back to the snapshot before the undo position, if there is one, and leaves
/// mode, register and anchor as they are.
pub proof fn undo_touches_only_the_text(e: EngineState)
    requires
        laws::modal(e),
        laws::at_rest(e),
        e.anchor is Some || e.memory.motion_mode == MotionMode::Vim,
    ensures
        e.key(Key::Char('u')).text == (if e.memory.undo_pos > 0 {
            e.memory.undo[e.memory.undo_pos - 1]
        } else {
            e.text
        }),
        e.key(Key::Char('u')).mode == Mode::Normal,
        e.key(Key::Char('u')).anchor == e.anchor,
        e.key(Key::Char('u')).memory.yank == e.memory.yank,
        e.key(Key::Char('u')).memory.pending == PendingState::empty(),
{
    let u = Key::Char('u');
    let (pending, actions) = e.key_step(u);
    assert(actions =~= seq![EditorAction::Undo]);
    laws::lemma_single_action(e.with_pending(pending), EditorAction::Undo);
    lemma_key(e, u, actions);
}

/// Digits typed behind a count that has been started in Normal mode of the Vim dialect only
/// collect.
proof fn lemma_more_digits_collect(e: EngineState, s: Seq<char>)
    requires
        e.memory.motion_mode == MotionMode::Vim,
        e.mode == Mode::Normal,
        !e.memory.pending.g_prefix,
        e.memory.pending.count.len() > 0,
        forall|i: int| 0 <= i < s.len() ==> decimal::digit(#[trigger] s[i]),
    ensures
        laws::keys(e, laws::typed(s)) == e.with_pending(
            laws::counting(e.memory.pending, e.memory.pending.count + s),
        ),
    decreases s.len(),
{
    let p = e.memory.pending;
    if s.len() == 0 {
        assert(p.count + s =~= p.count);
    } else {
        let front = s.drop_last();
        let c = s.last();
        assert(s[s.len() - 1] == c);
        assert(forall|i: int| 0 <= i < front.len() ==> #[trigger] front[i] == s[i]);
        lemma_more_digits_collect(e, front);
        laws::lemma_typed_last(s);
        let before = e.with_pending(laws::counting(p, p.count + front));
        assert(before.memory.pending.takes_digit(Key::Char(c)));
        laws::lemma_no_action(before, Key::Char(c));
        assert((p.count + front).push(c) =~= p.count + s);
    }
}

/// Digits before an operator and after it make up one count: `2d3w` takes twenty-three words.
#[verifier::rlimit(60)]
pub proof fn vim_counts_around_an_operator_join(
    e: EngineState,
    op: char,
    s: Seq<char>,
    t: Seq<char>,
    key: Key,
)
    requires
        vim_at_rest(e),
        laws::is_operator(op),
        laws::count_digits(s),
        forall|i: int| 0 <= i < t.len() ==> decimal::digit(#[trigger] t[i]),
        1 <= decimal::digits_value(s + t) <= usize::MAX,
        key != Key::Char('0'),
    ensures
        vim_target(
            key,
            e.text.bytes,
            e.text.cursor,
            decimal::digits_value(s + t) as nat,
        ) matches Some(c) ==> laws::operated(
            e,
            op,
            between(e.text.cursor, c),
            laws::keys(laws::keys(e, laws::typed(s)).key(Key::Char(op)), laws::typed(t)).key(key),
        ),
{
    let n = decimal::digits_value(s + t) as usize;
    let p = laws::counting(e.memory.pending, s);
    let q = laws::counting(p, s + t).with_operator(op);
    laws::lemma_digits_collect(e, s);
    laws::lemma_operator_waits(e.with_pending(p), op);
    lemma_more_digits_collect(e.with_pending(p.with_operator(op)), t);
    assert(q == laws::counting(p.with_operator(op), s + t));
    lemma_vim_target(e.text, key, n);
    if vim::motion_of(key, n) is Some {
        laws::lemma_operand_operated(e, op, q, key);
    }
}

/// An operator of the Vim dialect leaves the anchor as it is, but for `c`, which enters Insert mode
/// and leaves none.
#[verifier::rlimit(60)]
pub proof fn vim_operators_keep_the_anchor(e: EngineState, op: char, key: Key)
    requires
        vim_at_rest(e),
        laws::is_operator(op),
        vim_target(key, e.text.bytes, e.text.cursor, 1) is Some || key == Key::Char(op),
    ensures
        e.key(Key::Char(op)).key(key).anchor == (if op == 'c' {
            None
        } else {
            e.anchor
        }),
{
    laws::lemma_operator_waits(e, op);
    let w = e.with_pending(e.memory.pending.with_operator(op));
    laws::lemma_no_count(w.memory.pending);
    lemma_vim_target(e.text, key, 1);
    let (pending, actions) = w.key_step(key);
    let b = w.with_pending(pending);
    lemma_key(w, key, actions);
    if op == 'c' {
        assert(actions =~= seq![actions[0], EditorAction::SetMode(Mode::Insert)]);
        laws::lemma_two_actions(b, actions[0], EditorAction::SetMode(Mode::Insert));
    } else {
        assert(actions =~= seq![actions[0]]);
        laws::lemma_single_action(b, actions[0]);
    }
}

} // verus!
