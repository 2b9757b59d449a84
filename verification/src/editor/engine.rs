//! Editor state machine.
//!
//! The engine owns the text buffer, the mode, the selection, the keys that are pending, a yank
//! register and a small undo stack. It knows nothing of any user interface: it is driven by `Key`
//! values.
use std::collections::VecDeque;

use vstd::prelude::*;
use vstd::utf8::*;

use crate::editor::action::{EditorAction, Key, Mode, Motion, MotionHandler};
use crate::editor::buffer::Buffer;
use crate::editor::helix::HelixHandler;
use crate::editor::model;
use crate::editor::model::TextState;
use crate::editor::vim::{PendingState, VimHandler, VimPending};
use crate::settings::MotionMode;
use crate::text;
use crate::unicode;

verus! {

/// How many snapshots the undo stack holds at most.
pub const MAX_UNDO: usize = 128;

// ── The state and what keys do to it ─────────────────────────────────────────

/// What the engine remembers besides text, mode and selection.
#[verifier::ext_equal]
pub struct Memory {
    pub pending: PendingState,
    /// The yank register.
    pub yank: Seq<u8>,
    /// Snapshots of text and cursor, the oldest first.
    pub undo: Seq<TextState>,
    /// The snapshot that `Undo` goes back to is the one before this place.
    pub undo_pos: int,
    pub motion_mode: MotionMode,
}

/// The state of the engine.
#[verifier::ext_equal]
pub struct EngineState {
    pub text: TextState,
    pub mode: Mode,
    /// Byte offset of the end of the selection that stays.
    pub anchor: Option<int>,
    pub memory: Memory,
}

/// Where `motion` leads from the cursor of `t`.
pub open spec fn motion_target(t: TextState, motion: Motion) -> int {
    let b = t.bytes;
    let c = t.cursor;
    match motion {
        Motion::Left(n) => model::left(b, c, n as nat),
        Motion::Right(n) => model::right(b, c, n as nat),
        Motion::Up(n) => model::up(b, c, n as nat),
        Motion::Down(n) => model::down(b, c, n as nat),
        Motion::WordForward(n) => model::words_forward(b, c, n as nat),
        Motion::WordBackward(n) => model::words_backward(b, c, n as nat),
        Motion::WordEnd(n) => model::word_ends(b, c, n as nat),
        Motion::LineStart => text::line_floor(b, c),
        Motion::LineEnd => text::line_ceil(b, c),
        Motion::FirstNonBlank => model::first_nonblank(b, c),
        Motion::FirstLine => 0,
        Motion::LastLine => model::last_line(b),
    }
}

/// `t` with the cursor moved by `motion`.
pub open spec fn moved(t: TextState, motion: Motion) -> TextState {
    t.with_cursor(motion_target(t, motion))
}

/// The two offsets in order.
pub open spec fn ordered(x: int, y: int) -> (int, int) {
    if x <= y {
        (x, y)
    } else {
        (y, x)
    }
}

/// What `motion` covers: from the cursor to where it leads, either way.
pub open spec fn covered(t: TextState, motion: Motion) -> (int, int) {
    ordered(t.cursor, motion_target(t, motion))
}

impl EngineState {
    /// Text, register and snapshots are UTF-8, cursors are on character boundaries, and the undo
    /// stack keeps to its limit.
    pub open spec fn wf(self) -> bool {
        &&& self.text.wf()
        &&& valid_utf8(self.memory.yank)
        &&& forall|i: int|
            0 <= i < self.memory.undo.len() ==> (#[trigger] self.memory.undo[i]).wf()
        &&& 0 <= self.memory.undo_pos <= self.memory.undo.len() <= MAX_UNDO
    }

    pub open spec fn with_text(self, text: TextState) -> EngineState {
        EngineState { text, ..self }
    }

    pub open spec fn with_anchor(self, anchor: Option<int>) -> EngineState {
        EngineState { anchor, ..self }
    }

    pub open spec fn with_mode(self, mode: Mode) -> EngineState {
        EngineState { mode, ..self }
    }

    pub open spec fn with_pending(self, pending: PendingState) -> EngineState {
        EngineState { memory: Memory { pending, ..self.memory }, ..self }
    }

    /// The bytes of `range` put into the yank register.
    pub open spec fn yanked(self, range: (int, int)) -> EngineState {
        EngineState {
            memory: Memory { yank: self.text.bytes.subrange(range.0, range.1), ..self.memory },
            ..self
        }
    }

    /// The bytes of `range` put into the yank register and taken out of the text.
    pub open spec fn cut(self, range: (int, int)) -> EngineState {
        self.yanked(range).with_text(self.text.delete_range(range.0, range.1))
    }

    /// The selection: from the anchor, taken down to a character boundary, to the cursor, either
    /// way. Line visual mode selects the whole of every line that this touches. Without an anchor
    /// the selection is empty.
    pub open spec fn selection(self) -> (int, int) {
        match self.anchor {
            Some(a) => {
                let (lo, hi) = ordered(
                    text::floor_boundary(self.text.bytes, a),
                    self.text.cursor,
                );
                if self.mode == (Mode::Visual { line: true }) {
                    model::whole_lines(self.text.bytes, lo, hi)
                } else {
                    (lo, hi)
                }
            },
            None => (self.text.cursor, self.text.cursor),
        }
    }

    /// What the switch to mode `m` does: Visual mode starts a selection where there is none, the
    /// other modes end it.
    pub open spec fn set_mode(self, m: Mode) -> EngineState {
        let anchor = match m {
            Mode::Visual { .. } => if self.anchor is None {
                Some(self.text.cursor)
            } else {
                self.anchor
            },
            _ => None,
        };
        self.with_anchor(anchor).with_mode(m)
    }

    /// What one action does.
    pub open spec fn step(self, action: EditorAction) -> EngineState {
        let t = self.text;
        match action {
            EditorAction::SetMode(m) => self.set_mode(m),
            EditorAction::Move(motion) => self.with_text(moved(t, motion)),
            EditorAction::MoveExtend(motion) => self.with_text(moved(t, motion)).with_anchor(
                if self.anchor is None {
                    Some(t.cursor)
                } else {
                    self.anchor
                },
            ),
            EditorAction::MoveToSelectionStart => self.with_text(
                t.with_cursor(self.selection().0),
            ),
            EditorAction::MoveToSelectionEnd => if self.selection().0 < self.selection().1 {
                self.with_text(t.with_cursor(self.selection().1))
            } else {
                self.with_text(moved(t, Motion::Right(1)))
            },
            EditorAction::InsertChar(c) => self.with_text(t.insert(encode_scalar(c as u32))),
            EditorAction::DeleteBackward => self.with_text(t.delete_backward()),
            EditorAction::DeleteCharForward => self.with_text(t.delete_char_forward()),
            EditorAction::DeleteMotion(motion) => self.cut(covered(t, motion)),
            EditorAction::DeleteLine => self.cut(t.line_range()),
            EditorAction::DeleteSelection => if self.anchor is Some {
                self.cut(self.selection()).with_anchor(None).with_mode(Mode::Normal)
            } else {
                self
            },
            EditorAction::YankSelection => if self.anchor is Some {
                self.yanked(self.selection()).with_anchor(None).with_mode(Mode::Normal)
            } else {
                self
            },
            EditorAction::SelectLine => self.with_anchor(Some(t.line_range().0)).with_text(
                t.with_cursor(t.line_range().1),
            ),
            EditorAction::ExtendLine => {
                let (lo, hi) = self.selection();
                let (start, end) = t.line_range();
                self.with_anchor(
                    Some(
                        if lo < start {
                            lo
                        } else {
                            start
                        },
                    ),
                ).with_text(
                    t.with_cursor(
                        if hi > end {
                            hi
                        } else {
                            end
                        },
                    ),
                )
            },
            EditorAction::YankMotion(motion) => self.yanked(covered(t, motion)),
            EditorAction::YankLine => self.yanked(t.line_range()),
            EditorAction::PasteAfter => {
                let pos = text::next_char(t.bytes, t.cursor);
                self.with_text(t.replace_range(pos, pos, self.memory.yank))
            },
            EditorAction::PasteBefore => self.with_text(
                t.replace_range(t.cursor, t.cursor, self.memory.yank),
            ),
            EditorAction::Undo => if self.memory.undo_pos > 0 {
                let snapshot = self.memory.undo[self.memory.undo_pos - 1];
                EngineState {
                    text: snapshot,
                    memory: Memory { undo_pos: self.memory.undo_pos - 1, ..self.memory },
                    ..self
                }
            } else {
                self
            },
        }
    }

    /// The state after the actions, one after the other.
    pub open spec fn run(self, actions: Seq<EditorAction>) -> EngineState
        decreases actions.len(),
    {
        if actions.len() == 0 {
            self
        } else {
            self.run(actions.drop_last()).step(actions.last())
        }
    }

    /// `snapshot` put on the undo stack; the oldest one goes where the stack is full.
    pub open spec fn remember(self, snapshot: TextState) -> EngineState {
        let kept = if self.memory.undo.len() >= MAX_UNDO {
            self.memory.undo.drop_first()
        } else {
            self.memory.undo
        };
        EngineState {
            memory: Memory {
                undo: kept.push(snapshot),
                undo_pos: kept.len() as int + 1,
                ..self.memory
            },
            ..self
        }
    }

    /// In Normal mode the Helix dialect always has a selection, if only an empty one.
    pub open spec fn anchored(self) -> EngineState {
        if self.memory.motion_mode == MotionMode::Helix && self.mode == Mode::Normal
            && self.anchor is None {
            self.with_anchor(Some(self.text.cursor))
        } else {
            self
        }
    }

    /// What the key asks for, in the dialect that is on.
    pub open spec fn key_step(self, key: Key) -> (PendingState, Seq<EditorAction>) {
        match self.memory.motion_mode {
            MotionMode::Helix => HelixHandler.step(key, self.mode, self.memory.pending),
            _ => VimHandler.step(key, self.mode, self.memory.pending),
        }
    }

    /// What one key does without a dialect.
    pub open spec fn plain_key(self, key: Key) -> EngineState {
        let t = self.text;
        match key {
            Key::Char(c) => self.with_text(t.insert(encode_scalar(c as u32))),
            Key::Enter => self.with_text(t.insert(encode_scalar('\n' as u32))),
            Key::Backspace => self.with_text(t.delete_backward()),
            Key::Left => self.with_text(moved(t, Motion::Left(1))),
            Key::Right => self.with_text(moved(t, Motion::Right(1))),
            Key::Up => self.with_text(moved(t, Motion::Up(1))),
            Key::Down => self.with_text(moved(t, Motion::Down(1))),
            _ => self,
        }
    }

    /// What the key does before the undo stack and the selection are looked after.
    pub open spec fn acted(self, key: Key) -> EngineState {
        if self.memory.motion_mode == MotionMode::Plain {
            self.plain_key(key)
        } else {
            let (pending, actions) = self.key_step(key);
            self.with_pending(pending).run(actions)
        }
    }

    /// Whether the key changes the text.
    pub open spec fn key_changes(self, key: Key) -> bool {
        self.acted(key).text.bytes != self.text.bytes
    }

    /// What one key does. In a dialect the text from before a change goes on the undo stack.
    pub open spec fn key(self, key: Key) -> EngineState {
        let after = self.acted(key);
        if self.memory.motion_mode == MotionMode::Plain {
            after
        } else if self.key_changes(key) {
            after.remember(self.text).anchored()
        } else {
            after.anchored()
        }
    }
}

// ── What every key keeps ─────────────────────────────────────────────────────

/// Every motion leads to a character boundary and leaves the text as it is.
pub proof fn motion_keeps_to_boundaries(t: TextState, motion: Motion)
    requires
        t.wf(),
    ensures
        moved(t, motion).wf(),
        moved(t, motion).bytes == t.bytes,
{
    let b = t.bytes;
    let c = t.cursor;
    text::lemma_boundary(b, 0);
    match motion {
        Motion::Left(n) => model::lemma_left(b, c, n as nat),
        Motion::Right(n) => model::lemma_right(b, c, n as nat),
        Motion::Up(n) => {
            let line = text::newlines(b, c);
            model::lemma_same_column(b, c, if (n as nat) < line { (line - n) as nat } else { 0 });
        },
        Motion::Down(n) => {
            let line = text::newlines(b, c);
            let last = (text::line_count(b) - 1) as nat;
            model::lemma_same_column(b, c, if line + n < last { line + n as nat } else { last });
        },
        Motion::WordForward(n) | Motion::WordBackward(n) | Motion::WordEnd(n) => {
            model::lemma_words(b, c, n as nat)
        },
        Motion::LineStart | Motion::LineEnd => model::lemma_line_boundaries(b, c),
        Motion::FirstNonBlank => model::lemma_first_nonblank(b, c),
        Motion::FirstLine => {},
        Motion::LastLine => model::lemma_line_start_boundary(
            b,
            (text::line_count(b) - 1) as nat,
        ),
    }
}

/// The ranges that actions work on start and end on character boundaries.
pub proof fn lemma_ranges(e: EngineState, motion: Motion)
    requires
        e.wf(),
    ensures
        text::on_boundary(e.text.bytes, covered(e.text, motion).0),
        text::on_boundary(e.text.bytes, covered(e.text, motion).1),
        covered(e.text, motion).0 <= covered(e.text, motion).1,
        text::on_boundary(e.text.bytes, e.selection().0),
        text::on_boundary(e.text.bytes, e.selection().1),
        e.selection().0 <= e.selection().1,
        text::on_boundary(e.text.bytes, e.text.line_range().0),
        text::on_boundary(e.text.bytes, e.text.line_range().1),
        e.text.line_range().0 <= e.text.line_range().1,
{
    motion_keeps_to_boundaries(e.text, motion);
    model::lemma_line_boundaries(e.text.bytes, e.text.cursor);
    if let Some(a) = e.anchor {
        text::lemma_floor_boundary(e.text.bytes, a);
        model::lemma_line_boundaries(e.text.bytes, text::floor_boundary(e.text.bytes, a));
    }
}

/// Every action keeps the state well-formed.
pub proof fn action_keeps_wf(e: EngineState, action: EditorAction)
    requires
        e.wf(),
    ensures
        e.step(action).wf(),
{
    let t = e.text;
    match action {
        EditorAction::Move(m) | EditorAction::MoveExtend(m) => motion_keeps_to_boundaries(t, m),
        EditorAction::MoveToSelectionStart | EditorAction::MoveToSelectionEnd => {
            lemma_ranges(e, Motion::Right(1));
            motion_keeps_to_boundaries(t, Motion::Right(1));
        },
        EditorAction::InsertChar(ch) => {
            unicode::lemma_utf8_width(ch);
            encode_utf8_valid_utf8(seq![ch]);
            t.lemma_edits(0, 0, encode_scalar(ch as u32));
        },
        EditorAction::DeleteBackward | EditorAction::DeleteCharForward => {
            t.lemma_edits(0, 0, e.memory.yank);
        },
        EditorAction::DeleteMotion(m) | EditorAction::YankMotion(m) => {
            lemma_ranges(e, m);
            lemma_cut(e, covered(t, m));
        },
        EditorAction::DeleteLine | EditorAction::YankLine => {
            lemma_ranges(e, Motion::Right(1));
            lemma_cut(e, t.line_range());
        },
        EditorAction::DeleteSelection | EditorAction::YankSelection => {
            lemma_ranges(e, Motion::Right(1));
            lemma_cut(e, e.selection());
        },
        EditorAction::SelectLine | EditorAction::ExtendLine => {
            lemma_ranges(e, Motion::Right(1));
        },
        EditorAction::PasteAfter => {
            let pos = text::next_char(t.bytes, t.cursor);
            t.lemma_edits(pos, pos, e.memory.yank);
        },
        EditorAction::PasteBefore => {
            t.lemma_edits(t.cursor, t.cursor, e.memory.yank);
        },
        EditorAction::Undo | EditorAction::SetMode(_) => {},
    }
}

/// Yanking or cutting a range that keeps to boundaries keeps the state well-formed.
proof fn lemma_cut(e: EngineState, range: (int, int))
    requires
        e.wf(),
        text::on_boundary(e.text.bytes, range.0),
        text::on_boundary(e.text.bytes, range.1),
        range.0 <= range.1,
    ensures
        e.yanked(range).wf(),
        e.cut(range).wf(),
{
    model::lemma_subrange_valid(e.text.bytes, range.0, range.1);
    e.text.lemma_edits(range.0, range.1, e.memory.yank);
}

/// Actions carried out one after the other keep the state well-formed.
pub proof fn actions_keep_wf(e: EngineState, actions: Seq<EditorAction>)
    requires
        e.wf(),
    ensures
        e.run(actions).wf(),
    decreases actions.len(),
{
    if actions.len() > 0 {
        actions_keep_wf(e, actions.drop_last());
        action_keeps_wf(e.run(actions.drop_last()), actions.last());
    }
}

/// Every key keeps the state well-formed: the cursor stays on a character boundary and the undo
/// stack within its limit.
pub proof fn key_keeps_wf(e: EngineState, key: Key)
    requires
        e.wf(),
    ensures
        e.key(key).wf(),
{
    if e.memory.motion_mode == MotionMode::Plain {
        match key {
            Key::Char(c) => action_keeps_wf(e, EditorAction::InsertChar(c)),
            Key::Enter => action_keeps_wf(e, EditorAction::InsertChar('\n')),
            Key::Backspace => action_keeps_wf(e, EditorAction::DeleteBackward),
            Key::Left => action_keeps_wf(e, EditorAction::Move(Motion::Left(1))),
            Key::Right => action_keeps_wf(e, EditorAction::Move(Motion::Right(1))),
            Key::Up => action_keeps_wf(e, EditorAction::Move(Motion::Up(1))),
            Key::Down => action_keeps_wf(e, EditorAction::Move(Motion::Down(1))),
            _ => {},
        }
    } else {
        let (pending, actions) = e.key_step(key);
        actions_keep_wf(e.with_pending(pending), actions);
    }
}

// ── The engine ───────────────────────────────────────────────────────────────

/// What the engine remembers besides text, mode and selection.
pub struct EngineMemory {
    pending: VimPending,
    yank_reg: String,
    /// Snapshots of text and cursor, the oldest first.
    undo_stack: VecDeque<(String, usize)>,
    undo_pos: usize,
    motion_mode: MotionMode,
}

/// A modal text editor that is driven by keys.
pub struct EditorEngine {
    pub buf: Buffer,
    pub mode: Mode,
    /// Byte offset of the end of the selection that stays.
    pub selection_anchor: Option<usize>,
    pub memory: EngineMemory,
}

/// The snapshots of an undo stack as texts with cursors.
pub open spec fn snapshots(stack: Seq<(String, usize)>) -> Seq<TextState> {
    Seq::new(
        stack.len(),
        |i: int| TextState { bytes: encode_utf8(stack[i].0@), cursor: stack[i].1 as int },
    )
}

/// An offset as the model has it.
pub open spec fn offset_of(anchor: Option<usize>) -> Option<int> {
    match anchor {
        Some(a) => Some(a as int),
        None => None,
    }
}

impl View for EngineMemory {
    type V = Memory;

    closed spec fn view(&self) -> Memory {
        Memory {
            pending: self.pending@,
            yank: encode_utf8(self.yank_reg@),
            undo: snapshots(self.undo_stack@),
            undo_pos: self.undo_pos as int,
            motion_mode: self.motion_mode,
        }
    }
}

impl View for EditorEngine {
    type V = EngineState;

    open spec fn view(&self) -> EngineState {
        EngineState {
            text: self.buf@,
            mode: self.mode,
            anchor: offset_of(self.selection_anchor),
            memory: self.memory@,
        }
    }
}

impl EditorEngine {
    /// The state is one that keys lead to.
    pub open spec fn wf(&self) -> bool {
        self@.wf()
    }

    pub fn new(content: String, motion_mode: MotionMode) -> (r: Self)
        ensures
            r.wf(),
            r@.text == (TextState { bytes: encode_utf8(content@), cursor: 0 }),
            r@.mode == Mode::Normal,
            r@.anchor is None,
            r@.memory == (Memory {
                pending: PendingState::empty(),
                yank: Seq::empty(),
                undo: Seq::empty(),
                undo_pos: 0,
                motion_mode,
            }),
    {
        let r = EditorEngine {
            buf: Buffer::new(content),
            mode: Mode::Normal,
            selection_anchor: None,
            memory: EngineMemory {
                pending: VimPending::default(),
                yank_reg: String::new(),
                undo_stack: VecDeque::new(),
                undo_pos: 0,
                motion_mode,
            },
        };
        assert(encode_utf8(r.memory.yank_reg@) =~= Seq::<u8>::empty());
        assert(snapshots(r.memory.undo_stack@) =~= Seq::<TextState>::empty());
        r
    }

    /// Start over with a new text. The yank register and the dialect stay.
    pub fn set_content(&mut self, content: String)
        ensures
            final(self).wf(),
            final(self)@.text == (TextState { bytes: encode_utf8(content@), cursor: 0 }),
            final(self)@.mode == Mode::Normal,
            final(self)@.anchor is None,
            final(self)@.memory == (Memory {
                pending: PendingState::empty(),
                undo: Seq::empty(),
                undo_pos: 0,
                ..old(self)@.memory
            }),
    {
        self.buf.set_content(content);
        self.mode = Mode::Normal;
        self.memory.pending = VimPending::default();
        self.selection_anchor = None;
        self.memory.undo_stack.clear();
        self.memory.undo_pos = 0;
        proof {
            assert(snapshots(self.memory.undo_stack@) =~= Seq::<TextState>::empty());
            encode_utf8_valid_utf8(self.memory.yank_reg@);
        }
    }

    pub fn set_motion_mode(&mut self, m: MotionMode)
        ensures
            final(self)@ == (EngineState {
                memory: Memory { motion_mode: m, ..old(self)@.memory },
                ..old(self)@
            }),
            old(self).wf() ==> final(self).wf(),
    {
        self.memory.motion_mode = m;
    }

    pub fn motion_mode(&self) -> (r: MotionMode)
        ensures
            r == self@.memory.motion_mode,
    {
        self.memory.motion_mode
    }

    /// Process one key event. Returns true if the text was changed.
    pub fn process_key(&mut self, key: Key) -> (r: bool)
        requires
            old(self).wf(),
        ensures
            final(self)@ == old(self)@.key(key),
            r == (final(self)@.text.bytes != old(self)@.text.bytes),
            final(self).wf(),
    {
        proof {
            key_keeps_wf(self@, key);
        }
        let before = self.buf.as_str().to_owned();
        if self.memory.motion_mode == MotionMode::Plain {
            self.process_plain(key);
            return self.differs_from(&before);
        }
        let before_cursor: usize = self.buf.cursor();
        let mut actions: Vec<EditorAction> = Vec::new();
        match self.memory.motion_mode {
            MotionMode::Helix => HelixHandler.handle_key(
                key,
                &self.mode,
                &mut self.memory.pending,
                &mut actions,
            ),
            _ => VimHandler.handle_key(key, &self.mode, &mut self.memory.pending, &mut actions),
        }
        assert(actions@ =~= old(self)@.key_step(key).1);
        assert(self@ =~= old(self)@.with_pending(old(self)@.key_step(key).0));
        let mutated: bool = self.apply_actions(actions);
        if mutated {
            self.push_snapshot(before, before_cursor);
        }
        self.anchor_selection();
        mutated
    }

    /// Whether the text is another one than `before`.
    fn differs_from(&self, before: &String) -> (r: bool)
        ensures
            r == (self@.text.bytes != encode_utf8(before@)),
    {
        let now = self.buf.as_str().to_owned();
        proof {
            encode_utf8_decode_utf8(now@);
            encode_utf8_decode_utf8(before@);
        }
        now != *before
    }

    /// Put a snapshot on the undo stack; the oldest one goes where the stack is full.
    fn push_snapshot(&mut self, snapshot: String, cursor: usize)
        requires
            old(self).wf(),
        ensures
            final(self)@ == old(self)@.remember(
                TextState { bytes: encode_utf8(snapshot@), cursor: cursor as int },
            ),
    {
        let ghost before = self.memory.undo_stack@;
        if self.memory.undo_stack.len() >= MAX_UNDO {
            let _ = self.memory.undo_stack.pop_front();
            assert(snapshots(self.memory.undo_stack@) =~= snapshots(before).drop_first());
        }
        let ghost kept = self.memory.undo_stack@;
        self.memory.undo_stack.push_back((snapshot, cursor));
        self.memory.undo_pos = self.memory.undo_stack.len();
        assert(snapshots(self.memory.undo_stack@) =~= snapshots(kept).push(
            TextState { bytes: encode_utf8(snapshot@), cursor: cursor as int },
        ));
    }

    /// Give the Helix dialect the selection that it always has in Normal mode.
    fn anchor_selection(&mut self)
        ensures
            final(self)@ == old(self)@.anchored(),
    {
        if self.memory.motion_mode == MotionMode::Helix && self.mode == Mode::Normal
            && self.selection_anchor.is_none() {
            self.selection_anchor = Some(self.buf.cursor());
        }
    }

    /// One key without a dialect.
    fn process_plain(&mut self, key: Key)
        requires
            old(self).wf(),
        ensures
            final(self)@ == old(self)@.plain_key(key),
    {
        match key {
            Key::Char(c) => self.buf.insert(unicode::char_text(c).as_str()),
            Key::Enter => self.buf.insert(unicode::char_text('\n').as_str()),
            Key::Backspace => self.buf.delete_backward(),
            Key::Left => self.buf.move_left(1),
            Key::Right => self.buf.move_right(1),
            Key::Up => self.buf.move_up(1),
            Key::Down => self.buf.move_down(1),
            _ => {},
        }
    }

    /// Carry out the actions one after the other. Returns true if the text was changed.
    pub fn apply_actions(&mut self, actions: Vec<EditorAction>) -> (r: bool)
        requires
            old(self).wf(),
        ensures
            final(self)@ == old(self)@.run(actions@),
            r == (final(self)@.text.bytes != old(self)@.text.bytes),
            final(self).wf(),
    {
        let ghost start = self@;
        let before = self.buf.as_str().to_owned();
        let mut i: usize = 0;
        while i < actions.len()
            invariant
                i <= actions@.len(),
                self.wf(),
                self@ == start.run(actions@.take(i as int)),
            decreases actions@.len() - i,
        {
            proof {
                assert(actions@.take(i + 1).drop_last() =~= actions@.take(i as int));
                action_keeps_wf(self@, actions@[i as int]);
            }
            self.apply_action(actions[i]);
            i = i + 1;
        }
        assert(actions@.take(i as int) =~= actions@);
        self.differs_from(&before)
    }

    /// The selection in order, with the anchor taken down to a character boundary; whole lines in
    /// line visual mode.
    fn selection(&self) -> (r: (usize, usize))
        requires
            self.wf(),
        ensures
            r.0 == self@.selection().0,
            r.1 == self@.selection().1,
    {
        let cursor: usize = self.buf.cursor();
        match self.selection_anchor {
            Some(a) => {
                let anchor: usize = self.buf.clamp(a);
                let (lo, hi) = if anchor <= cursor {
                    (anchor, cursor)
                } else {
                    (cursor, anchor)
                };
                if self.mode == (Mode::Visual { line: true }) {
                    self.buf.lines_around(lo, hi)
                } else {
                    (lo, hi)
                }
            },
            None => (cursor, cursor),
        }
    }

    /// Put the bytes from `lo` up to `hi` into the yank register.
    fn yank(&mut self, lo: usize, hi: usize)
        requires
            old(self).wf(),
            lo <= hi,
            text::on_boundary(old(self)@.text.bytes, lo as int),
            text::on_boundary(old(self)@.text.bytes, hi as int),
        ensures
            final(self)@ == old(self)@.yanked((lo as int, hi as int)),
    {
        self.memory.yank_reg = self.buf.slice(lo, hi);
    }

    /// Put the bytes from `lo` up to `hi` into the yank register and take them out of the text.
    fn cut(&mut self, lo: usize, hi: usize)
        requires
            old(self).wf(),
            lo <= hi,
            text::on_boundary(old(self)@.text.bytes, lo as int),
            text::on_boundary(old(self)@.text.bytes, hi as int),
        ensures
            final(self)@ == old(self)@.cut((lo as int, hi as int)),
    {
        self.yank(lo, hi);
        self.buf.delete_range(lo, hi);
    }

    /// What `motion` covers. The cursor stays.
    fn motion_range(&mut self, motion: &Motion) -> (r: (usize, usize))
        requires
            old(self).wf(),
        ensures
            final(self)@ == old(self)@,
            r.0 == covered(old(self)@.text, *motion).0,
            r.1 == covered(old(self)@.text, *motion).1,
    {
        let start: usize = self.buf.cursor();
        self.apply_motion(motion);
        let end: usize = self.buf.cursor();
        self.buf.set_cursor(start);
        if start <= end {
            (start, end)
        } else {
            (end, start)
        }
    }

    /// Carry out one action.
    fn apply_action(&mut self, action: EditorAction)
        requires
            old(self).wf(),
        ensures
            final(self)@ == old(self)@.step(action),
    {
        match action {
            EditorAction::SetMode(m) => {
                match m {
                    Mode::Visual { line: _ } => {
                        if self.selection_anchor.is_none() {
                            self.selection_anchor = Some(self.buf.cursor());
                        }
                    },
                    _ => {
                        self.selection_anchor = None;
                    },
                }
                self.mode = m;
            },
            EditorAction::Move(motion) => {
                self.apply_motion(&motion);
            },
            EditorAction::MoveExtend(motion) => {
                if self.selection_anchor.is_none() {
                    self.selection_anchor = Some(self.buf.cursor());
                }
                self.apply_motion(&motion);
            },
            EditorAction::MoveToSelectionStart => {
                let (lo, _hi) = self.selection();
                proof {
                    lemma_ranges(self@, Motion::Right(1));
                }
                self.buf.set_cursor(lo);
            },
            EditorAction::MoveToSelectionEnd => {
                let (lo, hi) = self.selection();
                proof {
                    lemma_ranges(self@, Motion::Right(1));
                }
                if lo < hi {
                    self.buf.set_cursor(hi);
                } else {
                    self.buf.move_right(1);
                }
            },
            EditorAction::InsertChar(c) => {
                self.buf.insert(unicode::char_text(c).as_str());
            },
            EditorAction::DeleteBackward => {
                self.buf.delete_backward();
            },
            EditorAction::DeleteCharForward => {
                self.buf.delete_char_forward();
            },
            EditorAction::DeleteMotion(motion) => {
                proof {
                    lemma_ranges(self@, motion);
                }
                let (lo, hi) = self.motion_range(&motion);
                self.cut(lo, hi);
            },
            EditorAction::DeleteLine => {
                let (lo, hi) = self.buf.current_line_range();
                self.cut(lo, hi);
            },
            EditorAction::DeleteSelection => {
                if self.selection_anchor.is_none() {
                    return;
                }
                proof {
                    lemma_ranges(self@, Motion::Right(1));
                }
                let (lo, hi) = self.selection();
                self.cut(lo, hi);
                self.selection_anchor = None;
                self.mode = Mode::Normal;
            },
            EditorAction::YankSelection => {
                if self.selection_anchor.is_some() {
                    proof {
                        lemma_ranges(self@, Motion::Right(1));
                    }
                    let (lo, hi) = self.selection();
                    self.yank(lo, hi);
                    self.selection_anchor = None;
                    self.mode = Mode::Normal;
                }
            },
            EditorAction::SelectLine => {
                let (lo, hi) = self.buf.current_line_range();
                self.selection_anchor = Some(lo);
                self.buf.set_cursor(hi);
            },
            EditorAction::ExtendLine => {
                proof {
                    lemma_ranges(self@, Motion::Right(1));
                }
                let (lo, hi) = self.selection();
                let (start, end) = self.buf.current_line_range();
                self.selection_anchor = Some(
                    if lo < start {
                        lo
                    } else {
                        start
                    },
                );
                self.buf.set_cursor(
                    if hi > end {
                        hi
                    } else {
                        end
                    },
                );
            },
            EditorAction::YankMotion(motion) => {
                proof {
                    lemma_ranges(self@, motion);
                }
                let (lo, hi) = self.motion_range(&motion);
                self.yank(lo, hi);
            },
            EditorAction::YankLine => {
                let (lo, hi) = self.buf.current_line_range();
                self.yank(lo, hi);
            },
            EditorAction::PasteAfter => {
                let pos: usize = self.buf.after_cursor();
                self.buf.replace_range(pos, pos, self.memory.yank_reg.as_str());
            },
            EditorAction::PasteBefore => {
                let pos: usize = self.buf.cursor();
                self.buf.replace_range(pos, pos, self.memory.yank_reg.as_str());
            },
            EditorAction::Undo => {
                if self.memory.undo_pos == 0 {
                    return;
                }
                self.memory.undo_pos = self.memory.undo_pos - 1;
                proof {
                    assert(self@.memory.undo[self.memory.undo_pos as int].wf());
                }
                let snapshot = self.memory.undo_stack[self.memory.undo_pos].0.clone();
                let cursor: usize = self.memory.undo_stack[self.memory.undo_pos].1;
                self.buf.set_content(snapshot);
                self.buf.set_cursor(cursor);
            },
        }
    }

    /// Move the cursor.
    fn apply_motion(&mut self, motion: &Motion)
        requires
            old(self).wf(),
        ensures
            final(self)@ == old(self)@.with_text(moved(old(self)@.text, *motion)),
            final(self).wf(),
    {
        match motion {
            Motion::Left(n) => self.buf.move_left(*n),
            Motion::Right(n) => self.buf.move_right(*n),
            Motion::Up(n) => self.buf.move_up(*n),
            Motion::Down(n) => self.buf.move_down(*n),
            Motion::WordForward(n) => self.buf.move_word_forward(*n),
            Motion::WordBackward(n) => self.buf.move_word_backward(*n),
            Motion::WordEnd(n) => self.buf.move_word_end(*n),
            Motion::LineStart => self.buf.move_to_line_start(),
            Motion::LineEnd => self.buf.move_to_line_end(),
            Motion::FirstNonBlank => self.buf.move_to_first_nonblank(),
            Motion::FirstLine => self.buf.move_to_first_line(),
            Motion::LastLine => self.buf.move_to_last_line(),
        }
    }
}

} // verus!
