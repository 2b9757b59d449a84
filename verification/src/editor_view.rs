//! The editing view without its toolkit: how keys, scrolling and text changes of a native text
//! view reach the engine, and what the native view has to show.
//!
//! The native view counts in UTF-16 units, the engine in bytes.
use vstd::prelude::*;
use vstd::utf8::*;

use crate::editor::action::{Key, Mode};
use crate::editor::engine;
use crate::editor::engine::{EditorEngine, EngineState, Memory};
use crate::editor::laws;
use crate::editor::model::TextState;
use crate::editor::vim::PendingState;
use crate::gestures::{Movement, SwipeDetector, SwipeDir, SwipeOutcome};
use crate::markdown;
use crate::markdown::{MdSpan, MdSpanKind, Span};
use crate::settings::MotionMode;
use crate::text;
use crate::text::NEWLINE;
use crate::unicode;

verus! {

// ── Keys ─────────────────────────────────────────────────────────────────────

/// The key with a given hardware code that stands for no character.
pub open spec fn special_key(code: u16) -> Option<Key> {
    match code {
        36u16 => Some(Key::Enter),
        48u16 => Some(Key::Tab),
        51u16 => Some(Key::Backspace),
        53u16 => Some(Key::Escape),
        115u16 => Some(Key::Home),
        116u16 => Some(Key::PageUp),
        119u16 => Some(Key::End),
        121u16 => Some(Key::PageDown),
        123u16 => Some(Key::Left),
        124u16 => Some(Key::Right),
        125u16 => Some(Key::Down),
        126u16 => Some(Key::Up),
        _ => None,
    }
}

/// The key that a key event stands for: `code` is its hardware code, `first` the first character
/// that it produces. Control characters stand for no key.
pub open spec fn event_key(code: u16, first: Option<char>) -> Option<Key> {
    match special_key(code) {
        Some(key) => Some(key),
        None => match first {
            Some(c) => if unicode::control(c) {
                None
            } else {
                Some(Key::Char(c))
            },
            None => None,
        },
    }
}

/// The key that a key event stands for.
pub fn key_from_event(code: u16, first: Option<char>) -> (r: Option<Key>)
    ensures
        r == event_key(code, first),
{
    match code {
        36 => Some(Key::Enter),
        48 => Some(Key::Tab),
        51 => Some(Key::Backspace),
        53 => Some(Key::Escape),
        115 => Some(Key::Home),
        116 => Some(Key::PageUp),
        119 => Some(Key::End),
        121 => Some(Key::PageDown),
        123 => Some(Key::Left),
        124 => Some(Key::Right),
        125 => Some(Key::Down),
        126 => Some(Key::Up),
        _ => match first {
            Some(c) => {
                if unicode::is_control(c) {
                    None
                } else {
                    Some(Key::Char(c))
                }
            },
            None => None,
        },
    }
}

/// What the native view has to do with a key.
#[derive(Debug)]
pub enum KeyResponse {
    /// Hide the window.
    HideWindow,
    /// Handle the key itself, then report its text and cursor with [`EditorView::sync_text`].
    Native,
    /// Show the text, if there is one, and the cursor, which is in UTF-16 units.
    Show { new_text: Option<String>, cursor: usize },
}

/// Two presses of Escape within this time, in nanoseconds, hide the window.
pub const DOUBLE_ESCAPE_NS: u64 = 400_000_000;

/// The time from `then` to `now`, zero where the clock went back.
pub open spec fn elapsed(then: int, now: int) -> int {
    if then <= now {
        now - then
    } else {
        0
    }
}

// ── Scrolling ────────────────────────────────────────────────────────────────

/// A scroll event of the native view.
#[derive(Debug, Clone, Copy, PartialEq, Eq, Structural)]
pub struct ScrollEvent {
    /// The device reports exact distances.
    pub precise: bool,
    /// The gesture begins with this event.
    pub began: bool,
    /// The gesture ends with this event or is cancelled.
    pub ended: bool,
    /// The gesture goes on.
    pub changed: bool,
    /// How far the gesture has come, this event included.
    pub movement: Movement,
}

/// What the native view has to do with a scroll event.
#[derive(Debug, Clone, Copy, PartialEq, Eq, Structural)]
pub enum ScrollAction {
    /// Scroll as usual.
    Scroll,
    /// Turn the page.
    TurnPage(SwipeDir),
    /// Nothing.
    Swallow,
}

/// What the outcome of a movement means for the native view.
pub open spec fn scroll_action(outcome: SwipeOutcome) -> ScrollAction {
    match outcome {
        SwipeOutcome::Triggered(dir) => ScrollAction::TurnPage(dir),
        SwipeOutcome::Consumed => ScrollAction::Swallow,
        SwipeOutcome::PassThrough => ScrollAction::Scroll,
    }
}

/// What scroll event `ev` does with gesture `d`.
pub open spec fn scroll_step(d: SwipeDetector, ev: ScrollEvent) -> (SwipeDetector, ScrollAction) {
    if !ev.precise {
        (d, ScrollAction::Scroll)
    } else if ev.began {
        (SwipeDetector::fresh(), ScrollAction::Scroll)
    } else if ev.ended {
        (SwipeDetector::idle(), ScrollAction::Scroll)
    } else if ev.changed {
        (
            d.under_way().after(ev.movement),
            scroll_action(d.under_way().outcome(ev.movement)),
        )
    } else {
        (d, ScrollAction::Swallow)
    }
}

// ── What is shown ────────────────────────────────────────────────────────────

/// A styled part of the text, in UTF-16 units.
#[derive(Debug, Clone, Copy, PartialEq, Eq, Structural)]
pub struct StyleRun {
    pub location: usize,
    pub length: usize,
    pub kind: MdSpanKind,
}

/// How the text is to be styled: `length` is the length of all of it, in UTF-16 units.
#[derive(Debug)]
pub struct FormatPlan {
    pub length: usize,
    pub runs: Vec<StyleRun>,
}

/// Run `r` shows span `s` of text `b`.
pub open spec fn shows(b: Seq<u8>, s: Span, r: StyleRun) -> bool {
    &&& r.location == unicode::utf16_offset(b, s.start)
    &&& r.length == unicode::utf16_offset(b, s.end) - unicode::utf16_offset(b, s.start)
    &&& r.kind == s.kind
}

/// The part of the text that the cursor covers, in UTF-16 units: where it starts and how long it
/// is. `pos` is the place of the cursor in UTF-16 units.
///
/// In Normal mode the Helix dialect shows the whole selection, or the character at the cursor
/// where the selection is empty. Otherwise Normal mode shows a block of one unit on the character
/// at the cursor; at the end of a line that is not empty the block stands on the last character of
/// the line. Everything else is an insertion point.
pub open spec fn cursor_range(e: EngineState, pos: int) -> (int, int) {
    let b = e.text.bytes;
    let c = unicode::utf8_offset(decode_utf8(b), pos);
    if e.mode != Mode::Normal {
        (pos, 0)
    } else if e.memory.motion_mode == MotionMode::Helix {
        let (lo, to) = match e.anchor {
            Some(a) => engine::ordered(text::floor_boundary(b, a), c),
            None => (c, c),
        };
        let hi = if lo == to { text::next_char(b, lo) } else { to };
        (
            unicode::utf16_offset(b, lo),
            unicode::utf16_offset(b, hi) - unicode::utf16_offset(b, lo),
        )
    } else if c < b.len() && b[c] != NEWLINE {
        (pos, 1)
    } else if c > 0 && b[c - 1] != NEWLINE {
        (unicode::utf16_offset(b, text::prev_char(b, c)), 1)
    } else {
        (pos, 0)
    }
}

/// The letter that stands for a mode.
pub open spec fn mode_letter(m: Mode) -> char {
    match m {
        Mode::Normal => 'N',
        Mode::Insert => 'I',
        Mode::Visual { .. } => 'V',
    }
}

// ── The view ─────────────────────────────────────────────────────────────────

/// The state of the editing view.
#[verifier::ext_equal]
pub struct ViewState {
    pub engine: EngineState,
    pub swipe: SwipeDetector,
    /// The text is being styled.
    pub formatting: bool,
    /// When Escape was last pressed in Normal mode.
    pub last_escape: Option<u64>,
}

impl ViewState {
    /// The native view handles `key` itself.
    pub open spec fn native(self, key: Key) -> bool {
        self.engine.mode == Mode::Insert && key != Key::Escape
    }

    /// `key` is Escape in Normal mode.
    pub open spec fn idle_escape(self, key: Key) -> bool {
        key == Key::Escape && self.engine.mode == Mode::Normal
    }

    /// `key`, pressed at `now`, is the second of two quick presses of Escape in Normal mode.
    pub open spec fn hides(self, key: Key, now: u64) -> bool {
        &&& self.idle_escape(key)
        &&& self.last_escape matches Some(then) && elapsed(then as int, now as int)
            < DOUBLE_ESCAPE_NS
    }

    /// The state after `key`, pressed at `now`.
    pub open spec fn key(self, key: Key, now: u64) -> ViewState {
        if self.hides(key, now) {
            ViewState { last_escape: None, ..self }
        } else {
            ViewState {
                engine: if self.native(key) {
                    self.engine
                } else {
                    self.engine.key(key)
                },
                last_escape: if self.idle_escape(key) {
                    Some(now)
                } else {
                    self.last_escape
                },
                ..self
            }
        }
    }

    pub open spec fn with_text(self, t: TextState) -> ViewState {
        ViewState { engine: self.engine.with_text(t), ..self }
    }
}

/// The editing view.
pub struct EditorView {
    engine: EditorEngine,
    swipe: SwipeDetector,
    formatting: bool,
    last_escape: Option<u64>,
}

impl View for EditorView {
    type V = ViewState;

    closed spec fn view(&self) -> ViewState {
        ViewState {
            engine: self.engine@,
            swipe: self.swipe,
            formatting: self.formatting,
            last_escape: self.last_escape,
        }
    }
}

impl EditorView {
    /// The engine is in a state that keys lead to.
    pub open spec fn wf(&self) -> bool {
        self@.engine.wf()
    }

    /// A view of an empty text.
    pub fn new(motion_mode: MotionMode) -> (r: Self)
        ensures
            r.wf(),
            r@.engine.text == (TextState { bytes: Seq::empty(), cursor: 0 }),
            r@.engine.mode == Mode::Normal,
            r@.engine.anchor is None,
            r@.engine.memory == (Memory {
                pending: PendingState::empty(),
                yank: Seq::empty(),
                undo: Seq::empty(),
                undo_pos: 0,
                motion_mode,
            }),
            r@.swipe == SwipeDetector::idle(),
            !r@.formatting,
            r@.last_escape is None,
    {
        let empty = String::new();
        assert(encode_utf8(empty@) =~= Seq::<u8>::empty());
        EditorView {
            engine: EditorEngine::new(empty, motion_mode),
            swipe: SwipeDetector::default(),
            formatting: false,
            last_escape: None,
        }
    }

    // ── Keys ─────────────────────────────────────────────────────────────────

    /// Take one key, pressed at `now`, a time in nanoseconds from any fixed start.
    pub fn handle_key(&mut self, key: Key, now: u64) -> (r: KeyResponse)
        requires
            old(self).wf(),
        ensures
            final(self)@ == old(self)@.key(key, now),
            final(self).wf(),
            r is HideWindow <==> old(self)@.hides(key, now),
            r is Native <==> old(self)@.native(key),
            r matches KeyResponse::Show { new_text, cursor } ==> {
                let before = old(self)@.engine.text.bytes;
                let after = final(self)@.engine.text;
                &&& cursor == unicode::utf16_offset(after.bytes, after.cursor)
                &&& new_text is Some <==> after.bytes != before
                &&& new_text matches Some(t) ==> encode_utf8(t@) == after.bytes
            },
    {
        let in_insert: bool = self.engine.mode == Mode::Insert && key != Key::Escape;
        if key == Key::Escape && self.engine.mode == Mode::Normal {
            if let Some(then) = self.last_escape {
                if now.saturating_sub(then) < DOUBLE_ESCAPE_NS {
                    self.last_escape = None;
                    return KeyResponse::HideWindow;
                }
            }
            self.last_escape = Some(now);
        }
        if in_insert {
            return KeyResponse::Native;
        }
        let before = self.engine.buf.as_str().to_owned();
        let _ = self.engine.process_key(key);
        let after = self.engine.buf.as_str().to_owned();
        let cursor: usize = unicode::utf8_to_utf16(after.as_str(), self.engine.buf.cursor());
        let same: bool = before == after;
        proof {
            encode_utf8_decode_utf8(before@);
            encode_utf8_decode_utf8(after@);
        }
        KeyResponse::Show {
            new_text: if same {
                None
            } else {
                Some(after)
            },
            cursor,
        }
    }

    /// Put the cursor where UTF-16 offset `utf16` of `t` is.
    pub fn restore_cursor(&mut self, t: &str, utf16: usize)
        requires
            old(self).wf(),
        ensures
            final(self)@ == old(self)@.with_text(
                old(self)@.engine.text.at(unicode::utf8_offset(t@, utf16 as int)),
            ),
            final(self).wf(),
    {
        let pos: usize = unicode::utf16_to_utf8(t, utf16);
        self.engine.buf.set_cursor(pos);
    }

    /// Take over the text of the native view and its cursor, which is in UTF-16 units.
    pub fn sync_text(&mut self, content: String, location: usize)
        requires
            old(self).wf(),
        ensures
            final(self)@ == old(self)@.with_text(
                TextState {
                    bytes: encode_utf8(content@),
                    cursor: unicode::utf8_offset(content@, location as int),
                },
            ),
            final(self).wf(),
    {
        let cursor: usize = unicode::utf16_to_utf8(content.as_str(), location);
        self.engine.buf.set_content(content);
        self.engine.buf.set_cursor(cursor);
    }

    /// The part of the text that the cursor covers, `pos` being its place, in UTF-16 units.
    pub fn selection_range(&self, pos: usize) -> (r: (usize, usize))
        requires
            self.wf(),
        ensures
            r.0 == cursor_range(self@.engine, pos as int).0,
            r.1 == cursor_range(self@.engine, pos as int).1,
    {
        if self.engine.mode != Mode::Normal {
            return (pos, 0);
        }
        let t = self.engine.buf.as_str();
        let b = t.as_bytes();
        let c: usize = unicode::utf16_to_utf8(t, pos);
        if self.engine.motion_mode() == MotionMode::Helix {
            let anchor: usize = match self.engine.selection_anchor {
                Some(a) => self.engine.buf.clamp(a),
                None => c,
            };
            let (lo, to) = if anchor <= c {
                (anchor, c)
            } else {
                (c, anchor)
            };
            proof {
                text::lemma_ceil_boundary(b@, lo + 1);
            }
            let hi: usize = if lo == to {
                text::next_offset(b, lo)
            } else {
                to
            };
            let from: usize = unicode::utf8_to_utf16(t, lo);
            let end: usize = unicode::utf8_to_utf16(t, hi);
            proof {
                if lo < hi {
                    unicode::utf16_offset_is_monotonic(t@, lo as int, hi as int);
                }
            }
            return (from, end - from);
        }
        if c < b.len() && b[c] != NEWLINE {
            (pos, 1)
        } else if c > 0 && b[c - 1] != NEWLINE {
            proof {
                text::lemma_floor_boundary(b@, c - 1);
            }
            let back: usize = text::prev_offset(b, c);
            (unicode::utf8_to_utf16(t, back), 1)
        } else {
            (pos, 0)
        }
    }

    // ── Scrolling ────────────────────────────────────────────────────────────

    /// Whether a gesture is under way.
    pub fn swipe_active(&self) -> (r: bool)
        ensures
            r == self@.swipe.active,
    {
        self.swipe.active
    }

    /// Take one scroll event.
    pub fn handle_scroll(&mut self, ev: ScrollEvent) -> (r: ScrollAction)
        ensures
            final(self)@ == (ViewState {
                swipe: scroll_step(old(self)@.swipe, ev).0,
                ..old(self)@
            }),
            r == scroll_step(old(self)@.swipe, ev).1,
    {
        if !ev.precise {
            return ScrollAction::Scroll;
        }
        if ev.began {
            self.swipe.began();
            return ScrollAction::Scroll;
        }
        if ev.ended {
            self.swipe.ended();
            return ScrollAction::Scroll;
        }
        if ev.changed {
            return match self.swipe.changed(ev.movement) {
                SwipeOutcome::Triggered(dir) => ScrollAction::TurnPage(dir),
                SwipeOutcome::Consumed => ScrollAction::Swallow,
                SwipeOutcome::PassThrough => ScrollAction::Scroll,
            };
        }
        ScrollAction::Swallow
    }

    // ── Text ─────────────────────────────────────────────────────────────────

    /// Start over with the text `t`.
    pub fn load_content(&mut self, t: &str)
        ensures
            final(self).wf(),
            final(self)@.engine.text == (TextState { bytes: encode_utf8(t@), cursor: 0 }),
            final(self)@.engine.mode == Mode::Normal,
            final(self)@.engine.anchor is None,
            final(self)@.engine.memory == (Memory {
                pending: PendingState::empty(),
                undo: Seq::empty(),
                undo_pos: 0,
                ..old(self)@.engine.memory
            }),
            final(self)@ == (ViewState { engine: final(self)@.engine, ..old(self)@ }),
    {
        self.engine.set_content(t.to_owned());
    }

    pub fn current_content(&self) -> (r: String)
        ensures
            encode_utf8(r@) == self@.engine.text.bytes,
            r@ == decode_utf8(self@.engine.text.bytes),
    {
        self.engine.buf.as_str().to_owned()
    }

    pub fn current_mode(&self) -> (r: Mode)
        ensures
            r == self@.engine.mode,
    {
        self.engine.mode
    }

    /// The letter that stands for the current mode.
    pub fn mode_label(&self) -> (r: char)
        ensures
            r == mode_letter(self@.engine.mode),
    {
        match self.engine.mode {
            Mode::Normal => 'N',
            Mode::Insert => 'I',
            Mode::Visual { line: _ } => 'V',
        }
    }

    pub fn set_motion_mode(&mut self, mode: MotionMode)
        ensures
            final(self)@ == (ViewState {
                engine: EngineState {
                    memory: Memory { motion_mode: mode, ..old(self)@.engine.memory },
                    ..old(self)@.engine
                },
                ..old(self)@
            }),
            old(self).wf() ==> final(self).wf(),
    {
        self.engine.set_motion_mode(mode);
    }

    // ── Styles ───────────────────────────────────────────────────────────────

    /// Start to style the text: what is to be styled how. `None` where the text is being styled
    /// already, and where there is no text.
    pub fn begin_formatting(&mut self) -> (r: Option<FormatPlan>)
        requires
            old(self).wf(),
        ensures
            r is Some <==> !old(self)@.formatting && old(self)@.engine.text.bytes.len() > 0,
            final(self)@ == (ViewState {
                formatting: old(self)@.formatting || r is Some,
                ..old(self)@
            }),
            r matches Some(plan) ==> {
                let b = old(self)@.engine.text.bytes;
                let spans = markdown::spans_of(b);
                &&& plan.length == unicode::utf16_len(decode_utf8(b))
                &&& plan.runs@.len() == spans.len()
                &&& forall|i: int|
                    0 <= i < spans.len() ==> shows(b, spans[i], #[trigger] plan.runs@[i])
            },
    {
        if self.formatting {
            return None;
        }
        let t = self.engine.buf.as_str();
        let total: usize = t.as_bytes().len();
        if total == 0 {
            return None;
        }
        let ghost b = self@.engine.text.bytes;
        let spans = markdown::markdown_spans(t);
        proof {
            encode_utf8_decode_utf8(t@);
            assert(b.subrange(0, total as int) =~= b);
            text::lemma_boundary(b, total as int);
        }
        let length: usize = unicode::utf8_to_utf16(t, total);
        let mut runs: Vec<StyleRun> = Vec::new();
        let mut i: usize = 0;
        while i < spans.len()
            invariant
                i <= spans@.len(),
                b == encode_utf8(t@),
                valid_utf8(b),
                markdown::views(spans@) == markdown::spans_of(b),
                runs@.len() == i,
                forall|j: int|
                    0 <= j < i ==> shows(b, markdown::spans_of(b)[j], #[trigger] runs@[j]),
            decreases spans@.len() - i,
        {
            let span: MdSpan = spans[i];
            proof {
                assert(markdown::views(spans@)[i as int] == span@);
                markdown::spans_are_well_placed(b, i as int);
                unicode::utf16_offset_is_monotonic(t@, span@.start, span@.end);
            }
            let lo: usize = unicode::utf8_to_utf16(t, span.start);
            let hi: usize = unicode::utf8_to_utf16(t, span.end);
            runs.push(StyleRun { location: lo, length: hi - lo, kind: span.kind });
            i = i + 1;
        }
        self.formatting = true;
        Some(FormatPlan { length, runs })
    }

    /// The text has been styled.
    pub fn end_formatting(&mut self)
        ensures
            final(self)@ == (ViewState { formatting: false, ..old(self)@ }),
    {
        self.formatting = false;
    }
}

// ── Laws ─────────────────────────────────────────────────────────────────────

/// Escape pressed twice in Normal mode, quickly enough, hides the window.
pub proof fn escape_twice_hides(v: ViewState, first: u64, second: u64)
    requires
        v.engine.wf(),
        v.engine.mode == Mode::Normal,
        !v.hides(Key::Escape, first),
        elapsed(first as int, second as int) < DOUBLE_ESCAPE_NS,
    ensures
        v.key(Key::Escape, first).hides(Key::Escape, second),
        v.key(Key::Escape, first).engine.text == v.engine.text,
{
    if v.engine.memory.motion_mode != MotionMode::Plain {
        laws::escape_leads_to_normal(v.engine);
    }
}

/// What `current_content` gives back of a view whose text is the encoding of `t`, as
/// `load_content` and `sync_text` leave it, is `t`.
pub proof fn content_is_what_was_loaded(v: ViewState, t: Seq<char>)
    requires
        v.engine.text.bytes == encode_utf8(t),
    ensures
        decode_utf8(v.engine.text.bytes) == t,
{
    encode_utf8_decode_utf8(t);
}

/// The native view can report back the text and the cursor that it was told to show: that changes
/// nothing.
pub proof fn reporting_what_is_shown_changes_nothing(t: TextState)
    requires
        t.wf(),
    ensures
        (TextState {
            bytes: encode_utf8(decode_utf8(t.bytes)),
            cursor: unicode::utf8_offset(
                decode_utf8(t.bytes),
                unicode::utf16_offset(t.bytes, t.cursor),
            ),
        }) == t,
{
    decode_utf8_encode_utf8(t.bytes);
    unicode::utf16_round_trip(decode_utf8(t.bytes), t.cursor);
}

/// What the cursor covers lies inside the text.
pub proof fn cursor_range_is_in_the_text(e: EngineState)
    requires
        e.wf(),
    ensures
        ({
            let r = cursor_range(e, unicode::utf16_offset(e.text.bytes, e.text.cursor));
            0 <= r.0 && 0 <= r.1 && r.0 + r.1 <= unicode::utf16_len(decode_utf8(e.text.bytes))
        }),
{
    let b = e.text.bytes;
    let c = e.text.cursor;
    let s = decode_utf8(b);
    decode_utf8_encode_utf8(b);
    unicode::utf16_round_trip(s, c);
    lemma_offset_in_text(s, c);
    text::lemma_floor_boundary(b, c - 1);
    text::lemma_ceil_boundary(b, c + 1);
    if c < b.len() {
        unicode::utf16_offset_is_monotonic(s, c, text::next_char(b, c));
    }
    if c > 0 {
        unicode::utf16_offset_is_monotonic(s, text::prev_char(b, c), c);
    }
    if let Some(a) = e.anchor {
        text::lemma_floor_boundary(b, a);
        let p = text::floor_boundary(b, a);
        lemma_offset_in_text(s, p);
        if p < c {
            unicode::utf16_offset_is_monotonic(s, p, c);
        } else if c < p {
            unicode::utf16_offset_is_monotonic(s, c, p);
        }
    }
}

proof fn lemma_offset_in_text(s: Seq<char>, p: int)
    requires
        text::on_boundary(encode_utf8(s), p),
    ensures
        0 <= unicode::utf16_offset(encode_utf8(s), p) <= unicode::utf16_len(s),
{
    let parts = unicode::lemma_split_at_boundary(s, p);
    unicode::lemma_utf16_len_concat(parts.0, parts.1);
    unicode::lemma_utf16_len_bound(parts.0);
    unicode::lemma_utf16_len_bound(parts.1);
}

/// The keys that stand for no character are told by their hardware codes, whatever character the
/// event brings; any other code stands for that character, unless it is a control character or
/// there is none.
pub proof fn keys_are_told_by_code_and_character(code: u16, first: Option<char>)
    ensures
        code == 36 ==> event_key(code, first) == Some(Key::Enter),
        code == 48 ==> event_key(code, first) == Some(Key::Tab),
        code == 51 ==> event_key(code, first) == Some(Key::Backspace),
        code == 53 ==> event_key(code, first) == Some(Key::Escape),
        code == 115 ==> event_key(code, first) == Some(Key::Home),
        code == 116 ==> event_key(code, first) == Some(Key::PageUp),
        code == 119 ==> event_key(code, first) == Some(Key::End),
        code == 121 ==> event_key(code, first) == Some(Key::PageDown),
        code == 123 ==> event_key(code, first) == Some(Key::Left),
        code == 124 ==> event_key(code, first) == Some(Key::Right),
        code == 125 ==> event_key(code, first) == Some(Key::Down),
        code == 126 ==> event_key(code, first) == Some(Key::Up),
        code != 36 && code != 48 && code != 51 && code != 53 && code != 115 && code != 116 && code
            != 119 && code != 121 && !(123 <= code <= 126) ==> event_key(code, first) == (
        match first {
            Some(c) => if c as u32 <= 0x1f || 0x7f <= c as u32 <= 0x9f {
                None
            } else {
                Some(Key::Char(c))
            },
            None => None,
        }),
{
}

/// Only Escape in Normal mode hides the window, and only within four tenths of a second of the last
/// one; a clock that went back counts as standing still.
pub proof fn only_a_quick_second_escape_hides(v: ViewState, key: Key, now: u64)
    ensures
        v.hides(key, now) <==> {
            &&& key == Key::Escape
            &&& v.engine.mode == Mode::Normal
            &&& v.last_escape matches Some(then) && (now <= then || now - then < 400_000_000)
        },
{
}

/// A key that hides the window only forgets the last Escape. In Insert mode a key other than Escape
/// is left to the native view and changes nothing. Every other key goes to the engine, and Escape
/// in Normal mode is remembered with its time.
pub proof fn keys_go_to_the_engine(v: ViewState, key: Key, now: u64)
    ensures
        v.hides(key, now) ==> v.key(key, now) == (ViewState { last_escape: None, ..v }),
        v.native(key) <==> v.engine.mode == Mode::Insert && key != Key::Escape,
        v.native(key) ==> v.key(key, now) == v,
        !v.hides(key, now) && !v.native(key) ==> {
            &&& v.key(key, now).engine == v.engine.key(key)
            &&& v.key(key, now).swipe == v.swipe
            &&& v.key(key, now).formatting == v.formatting
            &&& v.key(key, now).last_escape == (if key == Key::Escape && v.engine.mode
                == Mode::Normal {
                Some(now)
            } else {
                v.last_escape
            })
        },
{
}

/// Scrolling that is not precise, and the beginning and the end of a gesture, scroll as usual; the
/// beginning starts a gesture and the end ends it. A movement turns the page, is swallowed or
/// scrolls as the detector says. A precise event outside a gesture is swallowed.
pub proof fn scroll_events_reach_the_detector(d: SwipeDetector, ev: ScrollEvent)
    ensures
        !ev.precise ==> scroll_step(d, ev) == (d, ScrollAction::Scroll),
        ev.precise && ev.began ==> scroll_step(d, ev) == (
            SwipeDetector::fresh(),
            ScrollAction::Scroll,
        ),
        ev.precise && !ev.began && ev.ended ==> scroll_step(d, ev) == (
            SwipeDetector::idle(),
            ScrollAction::Scroll,
        ),
        ev.precise && !ev.began && !ev.ended && ev.changed ==> {
            let outcome = d.under_way().outcome(ev.movement);
            &&& scroll_step(d, ev).0 == d.under_way().after(ev.movement)
            &&& outcome == SwipeOutcome::Triggered(SwipeDir::Left) ==> scroll_step(d, ev).1
                == ScrollAction::TurnPage(SwipeDir::Left)
            &&& outcome == SwipeOutcome::Triggered(SwipeDir::Right) ==> scroll_step(d, ev).1
                == ScrollAction::TurnPage(SwipeDir::Right)
            &&& outcome == SwipeOutcome::Consumed ==> scroll_step(d, ev).1 == ScrollAction::Swallow
            &&& outcome == SwipeOutcome::PassThrough ==> scroll_step(d, ev).1
                == ScrollAction::Scroll
        },
        ev.precise && !ev.began && !ev.ended && !ev.changed ==> scroll_step(d, ev) == (
            d,
            ScrollAction::Swallow,
        ),
{
}

/// The modes are told by their first letters.
pub proof fn modes_have_their_letters(line: bool)
    ensures
        mode_letter(Mode::Normal) == 'N',
        mode_letter(Mode::Insert) == 'I',
        mode_letter(Mode::Visual { line }) == 'V',
{
}

/// A styled run, read back in bytes, is its span.
pub proof fn runs_are_their_spans(b: Seq<u8>, s: Span, r: StyleRun)
    requires
        valid_utf8(b),
        markdown::well_placed(b, s),
        shows(b, s, r),
    ensures
        unicode::utf8_offset(decode_utf8(b), r.location as int) == s.start,
        unicode::utf8_offset(decode_utf8(b), r.location + r.length) == s.end,
        r.kind == s.kind,
{
    decode_utf8_encode_utf8(b);
    unicode::utf16_round_trip(decode_utf8(b), s.start);
    unicode::utf16_round_trip(decode_utf8(b), s.end);
}

/// In Insert and Visual mode the cursor is an insertion point. In Normal mode of the Vim dialect,
/// and without a dialect, it is a block of one unit: on the character at the cursor, or at the end
/// of a line on the last character of the line; on an empty line it is an insertion point.
pub proof fn the_cursor_is_a_block_in_normal_mode(e: EngineState)
    requires
        e.wf(),
        e.memory.motion_mode != MotionMode::Helix || e.mode != Mode::Normal,
    ensures
        ({
            let b = e.text.bytes;
            let c = e.text.cursor;
            let pos = unicode::utf16_offset(b, c);
            let r = cursor_range(e, pos);
            let on_character = c < b.len() && b[c] != '\n' as u8;
            &&& e.mode != Mode::Normal ==> r == (pos, 0int)
            &&& e.mode == Mode::Normal && on_character ==> r == (pos, 1int)
            &&& e.mode == Mode::Normal && !on_character && text::line_floor(b, c) < c ==> r == (
                unicode::utf16_offset(b, text::prev_char(b, c)),
                1int,
            )
            &&& e.mode == Mode::Normal && !on_character && text::line_floor(b, c) == c ==> r == (
                pos,
                0int,
            )
        }),
{
    let b = e.text.bytes;
    let c = e.text.cursor;
    decode_utf8_encode_utf8(b);
    unicode::utf16_round_trip(decode_utf8(b), c);
    text::lines_reach_from_newline_to_newline(b, c);
    text::lemma_line_floor(b, c);
}

/// In Normal mode of the Helix dialect the selection is shown from its start to its end; where it
/// is empty, the character at the cursor is, and nothing at the end of the text.
pub proof fn the_selection_is_shown(e: EngineState)
    requires
        e.wf(),
        e.memory.motion_mode == MotionMode::Helix,
        e.mode == Mode::Normal,
    ensures
        ({
            let b = e.text.bytes;
            let c = e.text.cursor;
            let a = match e.anchor {
                Some(a) => text::floor_boundary(b, a),
                None => c,
            };
            let r = cursor_range(e, unicode::utf16_offset(b, c));
            &&& a < c ==> r.0 == unicode::utf16_offset(b, a) && r.0 + r.1 == unicode::utf16_offset(
                b,
                c,
            )
            &&& c < a ==> r.0 == unicode::utf16_offset(b, c) && r.0 + r.1 == unicode::utf16_offset(
                b,
                a,
            )
            &&& a == c ==> r.0 == unicode::utf16_offset(b, c) && r.0 + r.1 == unicode::utf16_offset(
                b,
                text::next_char(b, c),
            )
        }),
{
    decode_utf8_encode_utf8(e.text.bytes);
    unicode::utf16_round_trip(decode_utf8(e.text.bytes), e.text.cursor);
}

/// A text that the native view reports takes the place of the text and its cursor, and of nothing
/// else.
pub proof fn a_reported_text_replaces_only_the_text(v: ViewState, t: TextState)
    ensures
        v.with_text(t).engine.text == t,
        v.with_text(t).engine.mode == v.engine.mode,
        v.with_text(t).engine.anchor == v.engine.anchor,
        v.with_text(t).engine.memory == v.engine.memory,
        v.with_text(t).swipe == v.swipe,
        v.with_text(t).formatting == v.formatting,
        v.with_text(t).last_escape == v.last_escape,
{
}

} // verus!
