//! What holds of the editor over several keys.
use vstd::prelude::*;
use vstd::utf8::*;

use crate::decimal;
use crate::editor::action::{EditorAction, Key, Mode, Motion};
use crate::editor::engine;
use crate::editor::engine::EngineState;
use crate::editor::helix;
use crate::editor::model;
use crate::editor::model::TextState;
use crate::editor::vim;
use crate::editor::vim::PendingState;
use crate::settings::MotionMode;
use crate::text;
use crate::unicode;

verus! {

/// The state after the keys, one after the other.
pub open spec fn keys(e: EngineState, pressed: Seq<Key>) -> EngineState
    decreases pressed.len(),
{
    if pressed.len() == 0 {
        e
    } else {
        keys(e, pressed.drop_last()).key(pressed.last())
    }
}

/// None of the keys changes the text when its turn comes.
pub open spec fn all_quiet(e: EngineState, pressed: Seq<Key>) -> bool
    decreases pressed.len(),
{
    pressed.len() > 0 ==> all_quiet(e, pressed.drop_last()) && !keys(
        e,
        pressed.drop_last(),
    ).key_changes(pressed.last())
}

/// A key dialect is on.
pub open spec fn modal(e: EngineState) -> bool {
    e.memory.motion_mode != MotionMode::Plain
}

/// Normal mode with no key pending.
pub open spec fn at_rest(e: EngineState) -> bool {
    &&& e.mode == Mode::Normal
    &&& e.memory.pending == PendingState::empty()
}

// ── Actions ──────────────────────────────────────────────────────────────────

/// No action and nothing else: the run changes nothing.
pub proof fn lemma_no_actions(b: EngineState, actions: Seq<EditorAction>)
    requires
        actions.len() == 0,
    ensures
        b.run(actions) == b,
{
}

/// One action and nothing else: the run is the step.
pub proof fn lemma_single_action(b: EngineState, action: EditorAction)
    ensures
        b.run(seq![action]) == b.step(action),
{
    let actions = seq![action];
    assert(actions.drop_last() =~= Seq::<EditorAction>::empty());
    lemma_no_actions(b, actions.drop_last());
}

/// Two actions and nothing else.
pub proof fn lemma_two_actions(b: EngineState, first: EditorAction, second: EditorAction)
    ensures
        b.run(seq![first, second]) == b.step(first).step(second),
{
    lemma_single_action(b, first);
    assert(seq![first, second].drop_last() =~= seq![first]);
}

/// No action changes the dialect, and none touches what is pending or the snapshots.
proof fn lemma_action_keeps_dialect(e: EngineState, action: EditorAction)
    ensures
        e.step(action).memory.motion_mode == e.memory.motion_mode,
        e.step(action).memory.pending == e.memory.pending,
        e.step(action).memory.undo == e.memory.undo,
        !(action is Undo) ==> e.step(action).memory.undo_pos == e.memory.undo_pos,
{
}

pub proof fn lemma_run_keeps_dialect(e: EngineState, actions: Seq<EditorAction>)
    ensures
        e.run(actions).memory.motion_mode == e.memory.motion_mode,
        e.run(actions).memory.pending == e.memory.pending,
        e.run(actions).memory.undo == e.memory.undo,
    decreases actions.len(),
{
    if actions.len() > 0 {
        lemma_run_keeps_dialect(e, actions.drop_last());
        lemma_action_keeps_dialect(e.run(actions.drop_last()), actions.last());
    }
}

/// Where none of the actions is an undo, the undo position stays.
proof fn lemma_run_keeps_undo_pos(e: EngineState, actions: Seq<EditorAction>)
    requires
        forall|i: int| 0 <= i < actions.len() ==> !(#[trigger] actions[i] is Undo),
    ensures
        e.run(actions).memory.undo_pos == e.memory.undo_pos,
    decreases actions.len(),
{
    if actions.len() > 0 {
        lemma_run_keeps_undo_pos(e, actions.drop_last());
        lemma_action_keeps_dialect(e.run(actions.drop_last()), actions.last());
    }
}

// ── Changes are reported ─────────────────────────────────────────────────────

/// A key counts as a change if and only if the text differs after it, and in a dialect the text
/// and the cursor from before it go on the undo stack if and only if it does.
pub proof fn changes_are_reported(e: EngineState, key: Key)
    ensures
        e.key_changes(key) <==> e.key(key).text.bytes != e.text.bytes,
        e.key(key).memory.undo == (if modal(e) && e.key(key).text.bytes != e.text.bytes {
            e.remember(e.text).memory.undo
        } else {
            e.memory.undo
        }),
{
    if modal(e) {
        let (pending, actions) = e.key_step(key);
        lemma_run_keeps_dialect(e.with_pending(pending), actions);
    }
}

/// No key changes the dialect.
pub proof fn keys_keep_the_dialect(e: EngineState, key: Key)
    ensures
        e.key(key).memory.motion_mode == e.memory.motion_mode,
{
    if modal(e) {
        let (pending, actions) = e.key_step(key);
        lemma_run_keeps_dialect(e.with_pending(pending), actions);
    }
}

// ── Undo ─────────────────────────────────────────────────────────────────────

/// `u` would bring back another text.
spec fn can_go_back(e: EngineState) -> bool {
    &&& e.memory.undo_pos > 0
    &&& e.memory.undo[e.memory.undo_pos - 1].bytes != e.text.bytes
}

/// At rest, `u` goes back to the snapshot before the undo position.
proof fn lemma_u_restores(e: EngineState)
    requires
        modal(e),
        at_rest(e),
    ensures
        e.memory.undo_pos > 0 ==> e.key(Key::Char('u')).text == e.memory.undo[e.memory.undo_pos
            - 1],
        e.memory.undo_pos <= 0 ==> e.key(Key::Char('u')).text == e.text,
{
    let (pending, actions) = e.key_step(Key::Char('u'));
    assert(actions =~= seq![EditorAction::Undo]);
    lemma_single_action(e.with_pending(pending), EditorAction::Undo);
}

/// A key that changes the text puts the text and the cursor from before it on top of the undo
/// stack.
proof fn lemma_change_is_remembered(e: EngineState, key: Key)
    requires
        modal(e),
        e.key_changes(key),
    ensures
        e.key(key).memory.undo.len() > 0,
        e.key(key).memory.undo.last() == e.text,
        e.key(key).memory.undo_pos == e.key(key).memory.undo.len(),
        can_go_back(e.key(key)),
{
    let (pending, actions) = e.key_step(key);
    lemma_run_keeps_dialect(e.with_pending(pending), actions);
}

/// A key asks for an undo alone or not at all.
proof fn lemma_undo_stands_alone(e: EngineState, key: Key)
    ensures
        e.key_step(key).1 == seq![EditorAction::Undo] || forall|i: int|
            0 <= i < e.key_step(key).1.len() ==> !(#[trigger] e.key_step(key).1[i] is Undo),
{
}

/// A key that leaves the text as it is leaves the way back as it is.
proof fn lemma_quiet_key(e: EngineState, key: Key)
    requires
        modal(e),
        can_go_back(e),
        !e.key_changes(key),
    ensures
        e.key(key).memory.undo == e.memory.undo,
        e.key(key).memory.undo_pos == e.memory.undo_pos,
        e.key(key).memory.motion_mode == e.memory.motion_mode,
        can_go_back(e.key(key)),
{
    let (pending, actions) = e.key_step(key);
    let b = e.with_pending(pending);
    lemma_run_keeps_dialect(b, actions);
    lemma_undo_stands_alone(e, key);
    lemma_single_action(b, EditorAction::Undo);
    if actions != seq![EditorAction::Undo] {
        lemma_run_keeps_undo_pos(b, actions);
    }
}

proof fn lemma_quiet_keys(e: EngineState, pressed: Seq<Key>)
    requires
        modal(e),
        can_go_back(e),
        all_quiet(e, pressed),
    ensures
        keys(e, pressed).memory.undo == e.memory.undo,
        keys(e, pressed).memory.undo_pos == e.memory.undo_pos,
        keys(e, pressed).memory.motion_mode == e.memory.motion_mode,
        can_go_back(keys(e, pressed)),
    decreases pressed.len(),
{
    if pressed.len() > 0 {
        lemma_quiet_keys(e, pressed.drop_last());
        lemma_quiet_key(keys(e, pressed.drop_last()), pressed.last());
    }
}

/// `u` takes back the last change: after a key that changes the text and any keys that do not, it
/// brings back the text and the cursor from before the change.
pub proof fn undo_takes_back_the_last_change(e: EngineState, change: Key, quiet: Seq<Key>)
    requires
        modal(e),
        e.key_changes(change),
        all_quiet(e.key(change), quiet),
        at_rest(keys(e.key(change), quiet)),
    ensures
        keys(e.key(change), quiet).key(Key::Char('u')).text == e.text,
{
    keys_keep_the_dialect(e, change);
    lemma_change_is_remembered(e, change);
    lemma_quiet_keys(e.key(change), quiet);
    lemma_u_restores(keys(e.key(change), quiet));
}

/// `u` takes back itself: pressed again at rest after it changed the text, it brings back the text
/// and the cursor.
pub proof fn undo_twice_changes_nothing(e: EngineState)
    requires
        modal(e),
        at_rest(e),
        e.key_changes(Key::Char('u')),
    ensures
        e.key(Key::Char('u')).key(Key::Char('u')).text == e.text,
{
    let u = Key::Char('u');
    let (pending, actions) = e.key_step(u);
    assert(actions =~= seq![EditorAction::Undo]);
    lemma_single_action(e.with_pending(pending), EditorAction::Undo);
    let none = Seq::<Key>::empty();
    assert(keys(e.key(u), none) == e.key(u));
    assert(at_rest(e.key(u)));
    undo_takes_back_the_last_change(e, u, none);
}

// ── Modes ────────────────────────────────────────────────────────────────────

/// In the Helix dialect Normal mode always has a selection, if only an empty one.
pub proof fn helix_always_has_a_selection(e: EngineState, key: Key)
    requires
        e.memory.motion_mode == MotionMode::Helix,
    ensures
        e.key(key).mode == Mode::Normal ==> e.key(key).anchor is Some,
{
    keys_keep_the_dialect(e, key);
    let (pending, actions) = e.key_step(key);
    lemma_run_keeps_dialect(e.with_pending(pending), actions);
}

/// Escape leads to Normal mode and leaves the text as it is, from every mode and with whatever is
/// pending, but for one state: Visual mode of the Helix dialect with `g` pending. That takes a
/// change of dialect, as this one does not enter Visual mode; there Escape only calls `g` off.
pub proof fn escape_leads_to_normal(e: EngineState)
    requires
        e.wf(),
        modal(e),
        e.memory.motion_mode == MotionMode::Helix ==> !e.memory.pending.g_prefix || e.mode
            == Mode::Insert || e.mode == Mode::Normal,
    ensures
        e.key(Key::Escape).mode == Mode::Normal,
        e.key(Key::Escape).text == e.text,
{
    let (pending, actions) = e.key_step(Key::Escape);
    let b = e.with_pending(pending);
    lemma_single_action(b, EditorAction::SetMode(Mode::Normal));
    if actions.len() > 0 {
        assert(actions =~= seq![EditorAction::SetMode(Mode::Normal)]);
    } else {
        lemma_no_actions(b, actions);
    }
}

/// Without a dialect a key touches nothing but the text and its cursor.
pub proof fn plain_keys_touch_only_the_text(e: EngineState, key: Key)
    requires
        e.memory.motion_mode == MotionMode::Plain,
    ensures
        e.key(key) == e.with_text(e.key(key).text),
{
}

// ── Typing ───────────────────────────────────────────────────────────────────

/// The keys that type `s`.
pub open spec fn typed(s: Seq<char>) -> Seq<Key>
    decreases s.len(),
{
    if s.len() == 0 {
        Seq::empty()
    } else {
        typed(s.drop_last()).push(Key::Char(s.last()))
    }
}

/// In Insert mode a character key inserts the character and stays in Insert mode.
proof fn lemma_type_one(e: EngineState, c: char)
    requires
        modal(e),
        e.mode == Mode::Insert,
    ensures
        e.key(Key::Char(c)).text == e.text.insert(encode_scalar(c as u32)),
        e.key(Key::Char(c)).mode == Mode::Insert,
        e.key(Key::Char(c)).memory.motion_mode == e.memory.motion_mode,
{
    let key = Key::Char(c);
    let (pending, actions) = e.key_step(key);
    assert(actions =~= seq![EditorAction::InsertChar(c)]);
    lemma_single_action(e.with_pending(pending), EditorAction::InsertChar(c));
    keys_keep_the_dialect(e, key);
}

/// Two texts inserted one behind the other are one text inserted.
pub proof fn lemma_insert_twice(t: TextState, x: Seq<u8>, y: Seq<u8>)
    requires
        0 <= t.cursor <= t.bytes.len(),
    ensures
        t.insert(x).insert(y) == t.insert(x + y),
        t.insert(Seq::empty()) == t,
{
    assert(t.insert(x).insert(y).bytes =~= t.insert(x + y).bytes);
    assert(t.insert(Seq::empty()).bytes =~= t.bytes);
}

/// The key that types `c`.
proof fn char_key(c: char) -> (k: Key)
    ensures
        k == Key::Char(c),
{
    Key::Char(c)
}

pub proof fn lemma_typed_last(s: Seq<char>)
    requires
        s.len() > 0,
    ensures
        typed(s).len() > 0,
        typed(s).drop_last() == typed(s.drop_last()),
        typed(s).last() == Key::Char(s.last()),
{
    let k = char_key(s.last());
    assert(typed(s) == typed(s.drop_last()).push(k));
    assert(typed(s).drop_last() =~= typed(s.drop_last()));
}

/// What is typed in Insert mode ends up in the text at the cursor, character for character.
pub proof fn typing_inserts_what_is_typed(e: EngineState, s: Seq<char>)
    requires
        e.wf(),
        modal(e),
        e.mode == Mode::Insert,
    ensures
        keys(e, typed(s)).text == e.text.insert(encode_utf8(s)),
        keys(e, typed(s)).mode == Mode::Insert,
        keys(e, typed(s)).memory.motion_mode == e.memory.motion_mode,
    decreases s.len(),
{
    let t = e.text;
    if s.len() == 0 {
        lemma_insert_twice(t, Seq::empty(), Seq::empty());
        assert(encode_utf8(s) =~= Seq::<u8>::empty());
    } else {
        let front = s.drop_last();
        let c = s.last();
        typing_inserts_what_is_typed(e, front);
        lemma_typed_last(s);
        lemma_type_one(keys(e, typed(front)), c);
        assert(s =~= front + seq![c]);
        text::lemma_encode_concat(front, seq![c]);
        unicode::lemma_utf8_width(c);
        lemma_insert_twice(t, encode_utf8(front), encode_scalar(c as u32));
    }
}

/// Backspace takes back the character that was just inserted.
pub proof fn backspace_takes_back_a_character(t: TextState, c: char)
    requires
        t.wf(),
    ensures
        t.insert(encode_scalar(c as u32)).delete_backward() == t,
{
    let w = encode_scalar(c as u32);
    unicode::lemma_utf8_width(c);
    encode_utf8_valid_utf8(seq![c]);
    model::lemma_spliced(t.bytes, t.cursor, t.cursor, w);
    let n = t.insert(w);
    let p = t.cursor;
    let q = p + w.len();
    text::lemma_floor_boundary(n.bytes, q - 1);
    let r = text::prev_char(n.bytes, q);
    if r > p {
        lemma_inside_character(c, r - p);
        assert(n.bytes[r] == w[r - p]);
    }
    assert(r == p) by {
        assert(text::on_boundary(n.bytes, p));
    }
    assert(n.delete_backward().bytes =~= t.bytes);
}

/// Behind the first byte of a character there is no boundary until its end.
proof fn lemma_inside_character(c: char, i: int)
    requires
        0 < i < encode_scalar(c as u32).len(),
    ensures
        is_continuation_byte(encode_scalar(c as u32)[i]),
{
    let s = seq![c];
    let b = encode_utf8(s);
    unicode::lemma_utf8_width(c);
    encode_utf8_valid_utf8(s);
    encode_utf8_first_scalar(s);
    reveal_with_fuel(is_char_boundary, 2);
    assert(!is_char_boundary(b, i));
    is_char_boundary_iff_not_is_continuation_byte(b, i);
}

// ── Yank and paste ───────────────────────────────────────────────────────────

/// Yanking leaves text and cursor as they are.
pub proof fn yanking_leaves_the_text(e: EngineState, action: EditorAction)
    requires
        action is YankMotion || action is YankLine || action is YankSelection,
    ensures
        e.step(action).text == e.text,
{
}

/// The text after a paste before the cursor.
spec fn pasted_before(e: EngineState) -> TextState {
    e.text.replace_range(e.text.cursor, e.text.cursor, e.memory.yank)
}

/// What a deleting action takes out.
pub open spec fn taken(e: EngineState, action: EditorAction) -> (int, int) {
    match action {
        EditorAction::DeleteMotion(m) => engine::covered(e.text, m),
        EditorAction::DeleteLine => e.text.line_range(),
        _ => e.selection(),
    }
}

/// What a delete takes out is what the yank register then holds, and a paste before the cursor puts
/// it back.
pub proof fn paste_before_puts_back_what_was_deleted(e: EngineState, action: EditorAction)
    requires
        e.wf(),
        action is DeleteMotion || action is DeleteLine || action is DeleteSelection && e.anchor
            is Some,
    ensures
        e.run(seq![action]).memory.yank == e.text.bytes.subrange(
            taken(e, action).0,
            taken(e, action).1,
        ),
        e.run(seq![action]).text == e.text.delete_range(taken(e, action).0, taken(e, action).1),
        e.run(seq![action, EditorAction::PasteBefore]).text.bytes == e.text.bytes,
{
    let range = taken(e, action);
    let cut = e.cut(range);
    let after = e.step(action);
    assert(after.text == cut.text && after.memory == cut.memory);
    assert(after.step(EditorAction::PasteBefore).text == pasted_before(after));
    engine::lemma_ranges(
        e,
        match action {
            EditorAction::DeleteMotion(m) => m,
            _ => Motion::Right(1),
        },
    );
    lemma_cut_and_paste(e, range);
    lemma_single_action(e, action);
    lemma_two_actions(e, action, EditorAction::PasteBefore);
}

/// Deleting the current line is selecting it and deleting the selection: text, cursor and register
/// are the same, and nothing is selected afterwards. In line visual mode, where a selection that
/// ends behind a newline takes the next line too, it is not.
pub proof fn deleting_the_line_is_selecting_and_deleting_it(e: EngineState)
    requires
        e.wf(),
        e.mode != (Mode::Visual { line: true }),
    ensures
        ({
            let line = e.run(seq![EditorAction::DeleteLine]);
            let selected = e.run(seq![EditorAction::SelectLine, EditorAction::DeleteSelection]);
            &&& line.text == selected.text
            &&& line.memory == selected.memory
            &&& selected.mode == Mode::Normal
            &&& selected.anchor is None
        }),
{
    lemma_single_action(e, EditorAction::DeleteLine);
    lemma_two_actions(e, EditorAction::SelectLine, EditorAction::DeleteSelection);
    engine::lemma_ranges(e, Motion::Right(1));
    let (lo, hi) = e.text.line_range();
    text::lemma_floor_boundary(e.text.bytes, lo);
    text::lemma_floor_boundary(e.text.bytes, hi);
    model::lemma_line_boundaries(e.text.bytes, e.text.cursor);
}

/// What was cut comes back where the cursor stands.
proof fn lemma_cut_and_paste(e: EngineState, range: (int, int))
    requires
        e.wf(),
        text::on_boundary(e.text.bytes, range.0),
        text::on_boundary(e.text.bytes, range.1),
        range.0 <= range.1,
    ensures
        pasted_before(e.cut(range)).bytes == e.text.bytes,
{
    let b = e.text.bytes;
    let (lo, hi) = range;
    let cut = e.cut(range);
    if lo < hi {
        model::lemma_spliced(b, lo, hi, Seq::empty());
        assert(text::spliced(cut.text.bytes, lo, lo, b.subrange(lo, hi)) =~= b);
    } else {
        let c = cut.text.cursor;
        assert(text::spliced(b, c, c, b.subrange(lo, hi)) =~= b);
    }
}

// ── Counts ───────────────────────────────────────────────────────────────────

/// `s` is a row of digits that does not start with a zero.
pub open spec fn count_digits(s: Seq<char>) -> bool {
    &&& s.len() > 0
    &&& s[0] != '0'
    &&& forall|i: int| 0 <= i < s.len() ==> decimal::digit(#[trigger] s[i])
}

/// A digit in the Vim dialect, in Normal mode, only collects.
proof fn lemma_digit_collects(e: EngineState, c: char)
    requires
        e.memory.motion_mode == MotionMode::Vim,
        e.mode == Mode::Normal,
        !e.memory.pending.g_prefix,
        e.memory.pending.takes_digit(Key::Char(c)),
    ensures
        e.key(Key::Char(c)) == e.with_pending(e.memory.pending.with_digit(Key::Char(c))),
{
    let (pending, actions) = e.key_step(Key::Char(c));
    lemma_no_actions(e.with_pending(pending), actions);
}

/// `p` with a count of the digits `s`.
pub open spec fn counting(p: PendingState, s: Seq<char>) -> PendingState {
    PendingState { count: s, ..p }
}

/// Digits typed in Normal mode of the Vim dialect, where none is pending yet, only collect.
pub proof fn lemma_digits_collect(e: EngineState, s: Seq<char>)
    requires
        e.memory.motion_mode == MotionMode::Vim,
        e.mode == Mode::Normal,
        e.memory.pending.count.len() == 0,
        !e.memory.pending.g_prefix,
        s.len() == 0 || count_digits(s),
    ensures
        keys(e, typed(s)) == e.with_pending(counting(e.memory.pending, s)),
    decreases s.len(),
{
    let p = e.memory.pending;
    if s.len() == 0 {
        assert(counting(p, s) =~= p);
    } else {
        let front = s.drop_last();
        let c = s.last();
        assert(s[s.len() - 1] == c);
        assert(forall|i: int| 0 <= i < front.len() ==> #[trigger] front[i] == s[i]);
        lemma_digits_collect(e, front);
        lemma_typed_last(s);
        let before = e.with_pending(counting(p, front));
        assert(before.memory.pending.takes_digit(Key::Char(c)));
        lemma_digit_collects(before, c);
        assert(front.push(c) =~= s);
    }
}

/// A motion key moves by what was counted.
proof fn lemma_motion_key(e: EngineState, key: Key, motion: Motion)
    requires
        e.memory.motion_mode == MotionMode::Vim,
        e.mode == Mode::Normal,
        e.memory.pending.operator is None,
        !e.memory.pending.g_prefix,
        !e.memory.pending.takes_digit(key),
        vim::motion_of(key, e.memory.pending.repeat() as usize) == Some(motion),
    ensures
        e.key(key).text == engine::moved(e.text, motion),
{
    let (pending, actions) = e.key_step(key);
    assert(actions =~= seq![EditorAction::Move(motion)]);
    lemma_single_action(e.with_pending(pending), EditorAction::Move(motion));
}

/// The motion keys that take a count: all but `0`, which continues a count.
pub open spec fn takes_count(key: Key) -> bool {
    vim::motion_of(key, 1) is Some && key != Key::Char('0')
}

/// A count in front of a motion key moves that often: the digits of a number that fits a machine
/// word, then the key, have the effect of the motion with that number.
pub proof fn counted_motion_moves_that_often(e: EngineState, s: Seq<char>, key: Key)
    requires
        e.memory.motion_mode == MotionMode::Vim,
        at_rest(e),
        count_digits(s),
        1 <= decimal::digits_value(s) <= usize::MAX,
        takes_count(key),
    ensures
        keys(e, typed(s)).key(key).text == engine::moved(
            e.text,
            vim::motion_of(key, decimal::digits_value(s) as usize)->0,
        ),
{
    lemma_digits_collect(e, s);
    lemma_motion_key(
        e.with_pending(counting(e.memory.pending, s)),
        key,
        vim::motion_of(key, decimal::digits_value(s) as usize)->0,
    );
}

// ── Commands of several keys ─────────────────────────────────────────────────

/// A key that stands for nothing yet changes only what is pending.
pub proof fn lemma_no_action(e: EngineState, key: Key)
    requires
        modal(e),
        e.key_step(key).1.len() == 0,
    ensures
        e.key(key) == e.with_pending(e.key_step(key).0).anchored(),
{
    let (pending, actions) = e.key_step(key);
    lemma_no_actions(e.with_pending(pending), actions);
}

/// `d`, `c` or `y`.
pub open spec fn is_operator(op: char) -> bool {
    op == 'd' || op == 'c' || op == 'y'
}

/// `after` is `e` with operator `op` applied to `range`: all three put it into the yank register,
/// `d` and `c` take it out of the text, and `c` goes on in Insert mode. Nothing is pending.
pub open spec fn operated(e: EngineState, op: char, range: (int, int), after: EngineState) -> bool {
    &&& after.text == (if op == 'y' {
        e.text
    } else {
        e.text.delete_range(range.0, range.1)
    })
    &&& after.memory.yank == e.text.bytes.subrange(range.0, range.1)
    &&& after.mode == (if op == 'c' {
        Mode::Insert
    } else {
        Mode::Normal
    })
    &&& after.memory.pending == PendingState::empty()
}

/// In Normal mode of the Vim dialect, which keys leave something pending. A digit of the count only
/// collects; otherwise nothing stays pending, unless an operator or `g` is pressed where nothing
/// but a count is pending, or `g` where an operator is. After an operator and `g`, another `g`
/// leaves nothing pending, and any other key does what it does where nothing is pending.
pub proof fn what_stays_pending(key: Key, p: PendingState)
    ensures
        !(p.operator is Some && p.g_prefix) ==> {
            &&& p.takes_digit(key) ==> vim::normal_step(key, p) == (
                p.with_digit(key),
                Seq::<EditorAction>::empty(),
            )
            &&& vim::normal_step(key, p).0 == PendingState::empty() <==> !p.takes_digit(key) && (
            p.g_prefix || match p.operator {
                Some(_) => key != Key::Char('g'),
                None => !(key matches Key::Char(c) && (c == 'g' || is_operator(c))),
            })
        },
        p.operator is Some && p.g_prefix ==> if key == Key::Char('g') {
            vim::normal_step(key, p).0 == PendingState::empty()
        } else {
            vim::normal_step(key, p) == vim::normal_step(key, PendingState::empty())
        },
{
    if p.takes_digit(key) && !(p.operator is Some && p.g_prefix) {
        assert(p.with_digit(key).count.len() > 0);
        assert(vim::normal_step(key, p).1 =~= Seq::<EditorAction>::empty());
    }
}

/// An operator pressed in Normal mode of the Vim dialect, after a count or none, waits.
pub proof fn lemma_operator_waits(e: EngineState, op: char)
    requires
        e.memory.motion_mode == MotionMode::Vim,
        e.mode == Mode::Normal,
        e.memory.pending.operator is None,
        !e.memory.pending.g_prefix,
        is_operator(op),
    ensures
        e.key(Key::Char(op)) == e.with_pending(e.memory.pending.with_operator(op)),
{
    lemma_no_action(e, Key::Char(op));
}

/// `after` is what `actions` leave of `b`, up to the undo stack and the anchor.
spec fn left_by(b: EngineState, actions: Seq<EditorAction>, after: EngineState) -> bool {
    &&& after.text == b.run(actions).text
    &&& after.mode == b.run(actions).mode
    &&& after.memory.yank == b.run(actions).memory.yank
    &&& after.memory.pending == b.memory.pending
}

/// What the key that completes an operator does.
proof fn lemma_operand(e: EngineState, op: char, key: Key)
    requires
        e.memory.motion_mode == MotionMode::Vim,
        e.mode == Mode::Normal,
        e.memory.pending.operator == Some(op),
        !e.memory.pending.g_prefix,
        !e.memory.pending.takes_digit(key),
        key != Key::Char('g'),
    ensures
        left_by(
            e.with_pending(PendingState::empty()),
            vim::operand_actions(op, key, e.memory.pending.repeat() as usize),
            e.key(key),
        ),
{
    let (pending, actions) = e.key_step(key);
    lemma_run_keeps_dialect(e.with_pending(pending), actions);
}

/// What the `g` that completes an operator and `g` does.
proof fn lemma_g_operand(e: EngineState, op: char)
    requires
        e.memory.motion_mode == MotionMode::Vim,
        e.mode == Mode::Normal,
        e.memory.pending.operator == Some(op),
        e.memory.pending.g_prefix,
    ensures
        left_by(
            e.with_pending(PendingState::empty()),
            vim::operate(op, Motion::FirstLine),
            e.key(Key::Char('g')),
        ),
{
    let (pending, actions) = e.key_step(Key::Char('g'));
    lemma_run_keeps_dialect(e.with_pending(pending), actions);
}

/// Where nothing was counted, a command runs once.
pub proof fn lemma_no_count(p: PendingState)
    requires
        p.count.len() == 0,
    ensures
        p.repeat() == 1,
{
    assert(decimal::digits_value(p.count) == 0);
}

/// What the actions of an operator on the current line add up to.
proof fn lemma_line_operated(b: EngineState, op: char)
    requires
        b.mode == Mode::Normal,
        b.memory.pending == PendingState::empty(),
        is_operator(op),
    ensures
        operated(b, op, b.text.line_range(), b.run(vim::operate_on_line(op))),
{
    if op == 'd' {
        lemma_single_action(b, EditorAction::DeleteLine);
    } else if op == 'c' {
        lemma_two_actions(b, EditorAction::DeleteLine, EditorAction::SetMode(Mode::Insert));
    } else {
        lemma_single_action(b, EditorAction::YankLine);
    }
}

/// What the actions of an operator on a motion add up to.
proof fn lemma_motion_operated(b: EngineState, op: char, motion: Motion)
    requires
        b.mode == Mode::Normal,
        b.memory.pending == PendingState::empty(),
        is_operator(op),
    ensures
        operated(b, op, engine::covered(b.text, motion), b.run(vim::operate(op, motion))),
{
    if op == 'd' {
        lemma_single_action(b, EditorAction::DeleteMotion(motion));
    } else if op == 'c' {
        lemma_two_actions(
            b,
            EditorAction::DeleteMotion(motion),
            EditorAction::SetMode(Mode::Insert),
        );
    } else {
        lemma_single_action(b, EditorAction::YankMotion(motion));
    }
}

/// In the Vim dialect an operator pressed twice takes the current line: `dd` cuts it, `cc` cuts it
/// and goes on in Insert mode, `yy` yanks it.
pub proof fn doubled_operator_takes_the_line(e: EngineState, op: char)
    requires
        e.memory.motion_mode == MotionMode::Vim,
        at_rest(e),
        is_operator(op),
    ensures
        operated(e, op, e.text.line_range(), e.key(Key::Char(op)).key(Key::Char(op))),
{
    lemma_operator_waits(e, op);
    let waiting = e.with_pending(PendingState::empty().with_operator(op));
    lemma_no_count(waiting.memory.pending);
    lemma_operand(waiting, op, Key::Char(op));
    lemma_line_operated(waiting.with_pending(PendingState::empty()), op);
}

/// An operator that is pending, and a motion with what was counted, take what the motion covers.
pub proof fn lemma_operand_operated(e: EngineState, op: char, p: PendingState, key: Key)
    requires
        e.memory.motion_mode == MotionMode::Vim,
        e.mode == Mode::Normal,
        is_operator(op),
        p.operator == Some(op),
        !p.g_prefix,
        !p.takes_digit(key),
        vim::motion_of(key, p.repeat() as usize) is Some,
    ensures
        operated(
            e,
            op,
            engine::covered(e.text, vim::motion_of(key, p.repeat() as usize)->0),
            e.with_pending(p).key(key),
        ),
{
    let waiting = e.with_pending(p);
    let b = waiting.with_pending(PendingState::empty());
    lemma_operand(waiting, op, key);
    lemma_motion_operated(b, op, vim::motion_of(key, p.repeat() as usize)->0);
    assert(b.text == e.text);
}

/// In the Vim dialect an operator and a motion take what the motion covers.
pub proof fn operator_takes_what_the_motion_covers(e: EngineState, op: char, key: Key)
    requires
        e.memory.motion_mode == MotionMode::Vim,
        at_rest(e),
        is_operator(op),
        vim::motion_of(key, 1) is Some,
    ensures
        operated(
            e,
            op,
            engine::covered(e.text, vim::motion_of(key, 1)->0),
            e.key(Key::Char(op)).key(key),
        ),
{
    let p = e.memory.pending.with_operator(op);
    lemma_operator_waits(e, op);
    lemma_no_count(p);
    lemma_operand_operated(e, op, p, key);
}

/// In the Vim dialect an operator and a motion with a count take what the counted motion covers,
/// whether the count is typed before the operator or after it.
pub proof fn counted_operator_takes_what_the_motion_covers(
    e: EngineState,
    op: char,
    s: Seq<char>,
    key: Key,
)
    requires
        e.memory.motion_mode == MotionMode::Vim,
        at_rest(e),
        is_operator(op),
        count_digits(s),
        1 <= decimal::digits_value(s) <= usize::MAX,
        takes_count(key),
    ensures
        ({
            let motion = vim::motion_of(key, decimal::digits_value(s) as usize)->0;
            let range = engine::covered(e.text, motion);
            &&& operated(e, op, range, keys(e, typed(s)).key(Key::Char(op)).key(key))
            &&& operated(e, op, range, keys(e.key(Key::Char(op)), typed(s)).key(key))
        }),
{
    let p = e.memory.pending;
    let counted = e.with_pending(counting(p, s));
    lemma_digits_collect(e, s);
    lemma_operator_waits(counted, op);
    lemma_operator_waits(e, op);
    lemma_digits_collect(e.with_pending(p.with_operator(op)), s);
    let waiting = counting(p, s).with_operator(op);
    assert(waiting == counting(p.with_operator(op), s));
    lemma_operand_operated(e, op, waiting, key);
}

/// In the Vim dialect an operator and `gg` take everything from the start of the text to the
/// cursor.
pub proof fn operator_takes_what_gg_covers(e: EngineState, op: char)
    requires
        e.memory.motion_mode == MotionMode::Vim,
        at_rest(e),
        is_operator(op),
    ensures
        operated(
            e,
            op,
            engine::covered(e.text, Motion::FirstLine),
            e.key(Key::Char(op)).key(Key::Char('g')).key(Key::Char('g')),
        ),
{
    let g = Key::Char('g');
    let p = e.memory.pending.with_operator(op);
    lemma_operator_waits(e, op);
    lemma_no_action(e.with_pending(p), g);
    let waiting = e.with_pending(p.with_g());
    lemma_g_operand(waiting, op);
    lemma_motion_operated(waiting.with_pending(PendingState::empty()), op, Motion::FirstLine);
}

/// In Visual mode of the Vim dialect every motion moves the cursor and leaves the other end of the
/// selection where it is.
pub proof fn visual_mode_takes_every_motion(e: EngineState, key: Key)
    requires
        e.memory.motion_mode == MotionMode::Vim,
        e.mode is Visual,
        e.memory.pending == PendingState::empty(),
        vim::motion_of(key, 1) is Some,
    ensures
        e.key(key) == e.with_text(engine::moved(e.text, vim::motion_of(key, 1)->0)),
{
    let motion = vim::motion_of(key, 1)->0;
    let (pending, actions) = e.key_step(key);
    lemma_no_count(e.memory.pending);
    assert(actions =~= seq![EditorAction::Move(motion)]);
    lemma_single_action(e.with_pending(pending), EditorAction::Move(motion));
}

/// What an operator does with the selection.
spec fn selection_actions(op: char) -> Seq<EditorAction> {
    if op == 'd' {
        seq![EditorAction::DeleteSelection]
    } else if op == 'c' {
        seq![EditorAction::DeleteSelection, EditorAction::SetMode(Mode::Insert)]
    } else {
        seq![EditorAction::YankSelection]
    }
}

/// What the actions of an operator on the selection add up to.
proof fn lemma_selection_operated(b: EngineState, op: char)
    requires
        b.memory.pending == PendingState::empty(),
        b.anchor is Some,
        is_operator(op),
    ensures
        operated(b, op, b.selection(), b.run(selection_actions(op))),
{
    if op == 'd' {
        lemma_single_action(b, EditorAction::DeleteSelection);
    } else if op == 'c' {
        lemma_two_actions(b, EditorAction::DeleteSelection, EditorAction::SetMode(Mode::Insert));
    } else {
        lemma_single_action(b, EditorAction::YankSelection);
    }
}

/// In Visual mode of the Vim dialect an operator takes the selection: `d` cuts it, `c` cuts it and
/// goes on in Insert mode, `y` yanks it.
pub proof fn visual_operators_take_the_selection(e: EngineState, op: char)
    requires
        e.memory.motion_mode == MotionMode::Vim,
        e.mode is Visual,
        e.memory.pending == PendingState::empty(),
        e.anchor is Some,
        is_operator(op),
    ensures
        operated(e, op, e.selection(), e.key(Key::Char(op))),
{
    let (pending, actions) = e.key_step(Key::Char(op));
    assert(actions == selection_actions(op));
    lemma_run_keeps_dialect(e.with_pending(pending), actions);
    lemma_selection_operated(e.with_pending(pending), op);
}

/// In the Vim dialect `V` and an operator take the current line, as the operator pressed twice
/// does.
pub proof fn line_visual_takes_the_line(e: EngineState, op: char)
    requires
        e.wf(),
        e.memory.motion_mode == MotionMode::Vim,
        at_rest(e),
        e.anchor is None,
        is_operator(op),
    ensures
        operated(e, op, e.text.line_range(), e.key(Key::Char('V')).key(Key::Char(op))),
{
    let v = Key::Char('V');
    let visual = EditorAction::SetMode(Mode::Visual { line: true });
    let (pending, actions) = e.key_step(v);
    assert(actions =~= seq![visual]);
    lemma_single_action(e.with_pending(pending), visual);
    text::lemma_floor_boundary(e.text.bytes, e.text.cursor);
    visual_operators_take_the_selection(e.key(v), op);
}

/// In line visual mode a motion extends the selection to whole lines: from the line of the lower
/// end to that of the upper end.
pub proof fn line_visual_selects_whole_lines(e: EngineState, key: Key)
    requires
        e.wf(),
        e.memory.motion_mode == MotionMode::Vim,
        e.mode == (Mode::Visual { line: true }),
        e.memory.pending == PendingState::empty(),
        e.anchor == Some(e.text.cursor),
        vim::motion_of(key, 1) is Some,
    ensures
        ({
            let (lo, hi) = engine::covered(e.text, vim::motion_of(key, 1)->0);
            e.key(key).selection() == model::whole_lines(e.text.bytes, lo, hi)
        }),
{
    visual_mode_takes_every_motion(e, key);
    text::lemma_floor_boundary(e.text.bytes, e.text.cursor);
}

/// `gg` leads to the start of the text, in either dialect, in Normal and in Visual mode.
pub proof fn gg_leads_to_the_start(e: EngineState)
    requires
        modal(e),
        e.mode != Mode::Insert,
        e.memory.pending == PendingState::empty(),
    ensures
        e.key(Key::Char('g')).key(Key::Char('g')).text == e.text.with_cursor(0),
{
    let g = Key::Char('g');
    lemma_no_action(e, g);
    let waiting = e.key(g);
    let (pending, actions) = waiting.key_step(g);
    assert(actions =~= seq![EditorAction::Move(Motion::FirstLine)]);
    lemma_single_action(waiting.with_pending(pending), EditorAction::Move(Motion::FirstLine));
}

/// In the Vim dialect `i`, some text and Escape put the text in at the cursor and end up in Normal
/// mode.
pub proof fn insert_and_escape(e: EngineState, s: Seq<char>)
    requires
        e.wf(),
        e.memory.motion_mode == MotionMode::Vim,
        at_rest(e),
    ensures
        keys(e.key(Key::Char('i')), typed(s)).key(Key::Escape).text == e.text.insert(
            encode_utf8(s),
        ),
        keys(e.key(Key::Char('i')), typed(s)).key(Key::Escape).mode == Mode::Normal,
{
    let i = Key::Char('i');
    let (pending, actions) = e.key_step(i);
    assert(actions =~= seq![EditorAction::SetMode(Mode::Insert)]);
    lemma_single_action(e.with_pending(pending), EditorAction::SetMode(Mode::Insert));
    engine::key_keeps_wf(e, i);
    keys_keep_the_dialect(e, i);
    typing_inserts_what_is_typed(e.key(i), s);
    lemma_keys_keep_wf(e.key(i), typed(s));
    escape_leads_to_normal(keys(e.key(i), typed(s)));
}

pub proof fn lemma_keys_keep_wf(e: EngineState, pressed: Seq<Key>)
    requires
        e.wf(),
    ensures
        keys(e, pressed).wf(),
    decreases pressed.len(),
{
    if pressed.len() > 0 {
        lemma_keys_keep_wf(e, pressed.drop_last());
        engine::key_keeps_wf(keys(e, pressed.drop_last()), pressed.last());
    }
}

/// In the Helix dialect a word key selects what it passes over, where nothing was selected before.
pub proof fn word_keys_select(e: EngineState, key: Key)
    requires
        e.wf(),
        e.memory.motion_mode == MotionMode::Helix,
        at_rest(e),
        e.selection() == (e.text.cursor, e.text.cursor),
        helix::word_motion(key, 1) is Some,
    ensures
        e.key(key).text == engine::moved(e.text, helix::word_motion(key, 1)->0),
        e.key(key).selection() == engine::covered(e.text, helix::word_motion(key, 1)->0),
{
    let motion = helix::word_motion(key, 1)->0;
    let (pending, actions) = e.key_step(key);
    assert(decimal::digits_value(Seq::<char>::empty()) == 0);
    assert(actions =~= seq![EditorAction::MoveExtend(motion)]);
    lemma_single_action(e.with_pending(pending), EditorAction::MoveExtend(motion));
    text::lemma_floor_boundary(e.text.bytes, e.text.cursor);
}

/// In the Helix dialect an operator takes the selection at once: `d` cuts it, `c` cuts it and goes
/// on in Insert mode, `y` yanks it.
pub proof fn operators_take_the_selection(e: EngineState, op: char)
    requires
        e.memory.motion_mode == MotionMode::Helix,
        at_rest(e),
        e.anchor is Some,
        is_operator(op),
    ensures
        operated(e, op, e.selection(), e.key(Key::Char(op))),
{
    let (pending, actions) = e.key_step(Key::Char(op));
    assert(actions == selection_actions(op));
    lemma_run_keeps_dialect(e.with_pending(pending), actions);
    lemma_selection_operated(e.with_pending(pending), op);
}

/// In the Helix dialect `x` selects the current line, and an operator then takes it.
pub proof fn selected_line_is_taken(e: EngineState, op: char)
    requires
        e.wf(),
        e.memory.motion_mode == MotionMode::Helix,
        at_rest(e),
        is_operator(op),
    ensures
        e.key(Key::Char('x')).selection() == e.text.line_range(),
        operated(
            e.with_text(e.text.with_cursor(e.text.line_range().1)),
            op,
            e.text.line_range(),
            e.key(Key::Char('x')).key(Key::Char(op)),
        ),
{
    let x = Key::Char('x');
    let (pending, actions) = e.key_step(x);
    assert(actions =~= seq![EditorAction::SelectLine]);
    lemma_single_action(e.with_pending(pending), EditorAction::SelectLine);
    engine::lemma_ranges(e, Motion::Right(1));
    text::lemma_floor_boundary(e.text.bytes, e.text.line_range().0);
    operators_take_the_selection(e.key(x), op);
}

} // verus!
