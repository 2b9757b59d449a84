//! Keys, modes and motions, and the actions that key dialects turn keys into.
use vstd::prelude::*;

use crate::editor::vim::{PendingState, VimPending};

verus! {

/// Platform-normalised key event.
#[derive(Debug, Clone, Copy, PartialEq, Eq, Structural)]
pub enum Key {
    Char(char),
    Escape,
    Backspace,
    Delete,
    Enter,
    Tab,
    Left,
    Right,
    Up,
    Down,
    Home,
    End,
    PageUp,
    PageDown,
}

/// Editor mode.
#[derive(Debug, Clone, Copy, PartialEq, Eq, Structural)]
pub enum Mode {
    Normal,
    Insert,
    /// A selection is being made, of whole lines where `line` is set.
    Visual { line: bool },
}

impl Default for Mode {
    fn default() -> (r: Self)
        ensures
            r == Mode::Normal,
    {
        Mode::Normal
    }
}

/// A way to move the cursor.
#[derive(Debug, Clone, Copy, PartialEq, Eq, Structural)]
pub enum Motion {
    Left(usize),
    Right(usize),
    Up(usize),
    Down(usize),
    WordForward(usize),
    WordBackward(usize),
    WordEnd(usize),
    LineStart,
    LineEnd,
    FirstNonBlank,
    FirstLine,
    LastLine,
}

/// What a key asks the engine to do.
#[derive(Debug, Clone, Copy, PartialEq, Eq, Structural)]
pub enum EditorAction {
    /// Move the cursor according to the motion.
    Move(Motion),
    /// Move the cursor according to the motion and select from the anchor to it.
    MoveExtend(Motion),
    /// Move the cursor to the start of the selection.
    MoveToSelectionStart,
    /// Move the cursor behind the selection. Where nothing is selected, the character at the
    /// cursor counts as the selection.
    MoveToSelectionEnd,
    /// Insert a single character at the cursor.
    InsertChar(char),
    /// Delete one character to the left (backspace).
    DeleteBackward,
    /// Delete the character under the cursor.
    DeleteCharForward,
    /// Delete the text covered by a motion.
    DeleteMotion(Motion),
    /// Delete the current line.
    DeleteLine,
    /// Delete the current selection.
    DeleteSelection,
    /// Yank the text covered by a motion.
    YankMotion(Motion),
    /// Yank the current line.
    YankLine,
    /// Yank the current selection.
    YankSelection,
    /// Select the current line.
    SelectLine,
    /// Extend the selection by the current line.
    ExtendLine,
    /// Paste after the cursor.
    PasteAfter,
    /// Paste before the cursor.
    PasteBefore,
    /// Undo the last change.
    Undo,
    /// Switch to a different mode.
    SetMode(Mode),
}

/// A key dialect: it turns a key into actions, given the mode and the keys pressed so far.
pub trait MotionHandler {
    /// What is pending after the key, and the actions that it stands for.
    spec fn step(&self, key: Key, mode: Mode, pending: PendingState) -> (
        PendingState,
        Seq<EditorAction>,
    );

    /// Take one key: update what is pending and append the actions.
    fn handle_key(
        &self,
        key: Key,
        mode: &Mode,
        pending: &mut VimPending,
        actions: &mut Vec<EditorAction>,
    )
        ensures
            final(pending)@ == self.step(key, *mode, old(pending)@).0,
            final(actions)@ == old(actions)@ + self.step(key, *mode, old(pending)@).1,
    ;
}

} // verus!
