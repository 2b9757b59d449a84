//! The Helix key dialect.
//!
//! Helix uses a selection-first model: every motion extends the selection, then operators act on
//! it. There is one selection.
//!
//! Key differences from Vim:
//!   - `w`/`b`/`e` move and select to the next word boundary.
//!   - `c`/`d` operate on the current selection without needing a motion.
//!   - There is no separate Visual mode; the selection is always active in Normal mode.
//!   - `i` enters Insert at the start of the selection; `a` appends after its end.
//!   - `x` selects the current line; `X` extends the selection by it.
use vstd::prelude::*;

use crate::editor::action::{EditorAction, Key, Mode, Motion, MotionHandler};
use crate::editor::vim;
use crate::editor::vim::{PendingState, VimPending};

verus! {

/// The motions that extend the selection by words.
pub open spec fn word_motion(key: Key, n: usize) -> Option<Motion> {
    match key {
        Key::Char('w') => Some(Motion::WordForward(n)),
        Key::Char('b') => Some(Motion::WordBackward(n)),
        Key::Char('e') => Some(Motion::WordEnd(n)),
        _ => None,
    }
}

/// The motions that move the end of the selection that the cursor is.
pub open spec fn plain_motion(key: Key, n: usize) -> Option<Motion> {
    match key {
        Key::Char('h') | Key::Left => Some(Motion::Left(n)),
        Key::Char('l') | Key::Right => Some(Motion::Right(n)),
        Key::Char('j') | Key::Down => Some(Motion::Down(n)),
        Key::Char('k') | Key::Up => Some(Motion::Up(n)),
        Key::Char('0') => Some(Motion::LineStart),
        Key::Char('$') => Some(Motion::LineEnd),
        Key::Char('G') => Some(Motion::LastLine),
        _ => None,
    }
}

/// What a key that is a command of its own does in Normal mode.
pub open spec fn command_actions(key: Key, n: usize) -> Seq<EditorAction> {
    match word_motion(key, n) {
        Some(motion) => seq![EditorAction::MoveExtend(motion)],
        None => match plain_motion(key, n) {
            Some(motion) => seq![EditorAction::Move(motion)],
            None => match key {
                Key::Char('x') => seq![EditorAction::SelectLine],
                Key::Char('X') => seq![EditorAction::ExtendLine],
                Key::Char('d') => seq![EditorAction::DeleteSelection],
                Key::Char('c') => seq![
                    EditorAction::DeleteSelection,
                    EditorAction::SetMode(Mode::Insert),
                ],
                Key::Char('y') => seq![EditorAction::YankSelection],
                Key::Char('i') => seq![
                    EditorAction::MoveToSelectionStart,
                    EditorAction::SetMode(Mode::Insert),
                ],
                Key::Char('a') => seq![
                    EditorAction::MoveToSelectionEnd,
                    EditorAction::SetMode(Mode::Insert),
                ],
                Key::Char('o') => seq![
                    EditorAction::Move(Motion::LineEnd),
                    EditorAction::InsertChar('\n'),
                    EditorAction::SetMode(Mode::Insert),
                ],
                Key::Char('p') => seq![EditorAction::PasteAfter],
                Key::Char('P') => seq![EditorAction::PasteBefore],
                Key::Char('u') => seq![EditorAction::Undo],
                Key::Escape => seq![EditorAction::SetMode(Mode::Normal)],
                _ => seq![],
            },
        },
    }
}

/// What `key` does in Normal mode: it extends the count, it completes `g`, it opens `g`, or it is
/// a command of its own.
pub open spec fn normal_step(key: Key, p: PendingState) -> (PendingState, Seq<EditorAction>) {
    if p.takes_digit(key) {
        (p.with_digit(key), seq![])
    } else if p.g_prefix {
        (
            PendingState::empty(),
            if key == Key::Char('g') {
                seq![EditorAction::Move(Motion::FirstLine)]
            } else {
                seq![]
            },
        )
    } else if key == Key::Char('g') {
        (p.with_g(), seq![])
    } else {
        (PendingState::empty(), command_actions(key, p.repeat() as usize))
    }
}

/// The Helix dialect.
pub struct HelixHandler;

impl MotionHandler for HelixHandler {
    open spec fn step(&self, key: Key, mode: Mode, pending: PendingState) -> (
        PendingState,
        Seq<EditorAction>,
    ) {
        match mode {
            Mode::Insert => (pending, vim::insert_actions(key)),
            Mode::Normal | Mode::Visual { .. } => normal_step(key, pending),
        }
    }

    fn handle_key(
        &self,
        key: Key,
        mode: &Mode,
        pending: &mut VimPending,
        actions: &mut Vec<EditorAction>,
    ) {
        match mode {
            Mode::Insert => vim::handle_insert(key, actions),
            Mode::Normal | Mode::Visual { line: _ } => handle_normal(key, pending, actions),
        }
    }
}

/// A key that is a command of its own in Normal mode.
fn handle_command(key: Key, n: usize, actions: &mut Vec<EditorAction>)
    ensures
        final(actions)@ == old(actions)@ + command_actions(key, n),
{
    match key {
        // Movement
        Key::Char('h') | Key::Left => actions.push(EditorAction::Move(Motion::Left(n))),
        Key::Char('l') | Key::Right => actions.push(EditorAction::Move(Motion::Right(n))),
        Key::Char('j') | Key::Down => actions.push(EditorAction::Move(Motion::Down(n))),
        Key::Char('k') | Key::Up => actions.push(EditorAction::Move(Motion::Up(n))),
        Key::Char('0') => actions.push(EditorAction::Move(Motion::LineStart)),
        Key::Char('$') => actions.push(EditorAction::Move(Motion::LineEnd)),
        Key::Char('G') => actions.push(EditorAction::Move(Motion::LastLine)),
        // Movement that selects
        Key::Char('w') => actions.push(EditorAction::MoveExtend(Motion::WordForward(n))),
        Key::Char('b') => actions.push(EditorAction::MoveExtend(Motion::WordBackward(n))),
        Key::Char('e') => actions.push(EditorAction::MoveExtend(Motion::WordEnd(n))),
        Key::Char('x') => actions.push(EditorAction::SelectLine),
        Key::Char('X') => actions.push(EditorAction::ExtendLine),
        // Operators on the current selection
        Key::Char('d') => actions.push(EditorAction::DeleteSelection),
        Key::Char('c') => {
            actions.push(EditorAction::DeleteSelection);
            actions.push(EditorAction::SetMode(Mode::Insert));
        },
        Key::Char('y') => actions.push(EditorAction::YankSelection),
        // Enter insert mode
        Key::Char('i') => {
            actions.push(EditorAction::MoveToSelectionStart);
            actions.push(EditorAction::SetMode(Mode::Insert));
        },
        Key::Char('a') => {
            actions.push(EditorAction::MoveToSelectionEnd);
            actions.push(EditorAction::SetMode(Mode::Insert));
        },
        Key::Char('o') => {
            actions.push(EditorAction::Move(Motion::LineEnd));
            actions.push(EditorAction::InsertChar('\n'));
            actions.push(EditorAction::SetMode(Mode::Insert));
        },
        // Paste
        Key::Char('p') => actions.push(EditorAction::PasteAfter),
        Key::Char('P') => actions.push(EditorAction::PasteBefore),
        Key::Char('u') => actions.push(EditorAction::Undo),
        Key::Escape => actions.push(EditorAction::SetMode(Mode::Normal)),
        _ => {},
    }
}

/// Normal mode.
fn handle_normal(key: Key, pending: &mut VimPending, actions: &mut Vec<EditorAction>)
    ensures
        final(pending)@ == normal_step(key, old(pending)@).0,
        final(actions)@ == old(actions)@ + normal_step(key, old(pending)@).1,
{
    if pending.collect(key) {
        return;
    }
    let n: usize = pending.count();
    if pending.g_prefix() {
        if key == Key::Char('g') {
            actions.push(EditorAction::Move(Motion::FirstLine));
        }
        pending.clear();
        return;
    }
    if key == Key::Char('g') {
        pending.set_g_prefix();
        return;
    }
    handle_command(key, n, actions);
    pending.clear();
}

/// The dialect knows no Visual mode: keys mean there what they mean in Normal mode. In Insert mode
/// they mean what they mean in the Vim dialect.
pub proof fn helix_has_no_visual_mode(key: Key, line: bool, p: PendingState)
    ensures
        HelixHandler.step(key, Mode::Visual { line }, p) == HelixHandler.step(key, Mode::Normal, p),
        HelixHandler.step(key, Mode::Insert, p) == vim::VimHandler.step(key, Mode::Insert, p),
{
}

} // verus!
