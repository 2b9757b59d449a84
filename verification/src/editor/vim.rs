//! The Vim key dialect.
//!
//!   Movement : h j k l  w b e  0 ^ $  gg G
//!   Operators : d (with motion), c (with motion), y (with motion)
//!   Editing  : i a o I A O  x X  dd  cc  yy  p P
//!   Counts   : [n]motion  (e.g. 5j, 3w, 2e)
//!   Visual   : v (character visual), V (line visual: whole lines), with every motion
//!   Escape   : Esc to Normal
use vstd::prelude::*;

use crate::decimal;
use crate::editor::action::{EditorAction, Key, Mode, Motion, MotionHandler};

verus! {

// ── Pending keys ─────────────────────────────────────────────────────────────

/// The keys pressed so far of a sequence that is not complete.
#[verifier::ext_equal]
pub struct PendingState {
    /// The digits of the count.
    pub count: Seq<char>,
    /// The operator that waits for its motion.
    pub operator: Option<char>,
    /// `g` has been pressed.
    pub g_prefix: bool,
}

impl PendingState {
    /// Nothing is pending.
    pub open spec fn empty() -> PendingState {
        PendingState { count: Seq::empty(), operator: None, g_prefix: false }
    }

    /// How often the next command is to run: the number that was typed, or one where none was
    /// typed, where it is zero, and where it does not fit a machine word.
    pub open spec fn repeat(self) -> int {
        let value = decimal::digits_value(self.count);
        if 1 <= value <= usize::MAX {
            value
        } else {
            1
        }
    }

    /// `key` continues the count. A zero does not start one.
    pub open spec fn takes_digit(self, key: Key) -> bool {
        key matches Key::Char(c) && decimal::digit(c) && (c != '0' || self.count.len() > 0)
    }

    pub open spec fn with_digit(self, key: Key) -> PendingState {
        PendingState { count: self.count.push(key->Char_0), ..self }
    }

    pub open spec fn with_operator(self, op: char) -> PendingState {
        PendingState { operator: Some(op), ..self }
    }

    pub open spec fn with_g(self) -> PendingState {
        PendingState { g_prefix: true, ..self }
    }
}

/// Pending key sequence being built (e.g. `g` waiting for `g`, count digits).
#[derive(Debug)]
pub struct VimPending {
    count_str: String,
    /// Operator character (`d`, `c`, `y`) if one is pending.
    operator: Option<char>,
    /// `g` has been pressed; waiting for the second key.
    g_prefix: bool,
}

impl View for VimPending {
    type V = PendingState;

    closed spec fn view(&self) -> PendingState {
        PendingState {
            count: self.count_str@,
            operator: self.operator,
            g_prefix: self.g_prefix,
        }
    }
}

impl Default for VimPending {
    fn default() -> (r: Self)
        ensures
            r@ == PendingState::empty(),
    {
        VimPending { count_str: String::new(), operator: None, g_prefix: false }
    }
}

impl Clone for VimPending {
    fn clone(&self) -> (r: Self)
        ensures
            r@ == self@,
    {
        proof {
            use_type_invariant(self);
        }
        VimPending {
            count_str: self.count_str.clone(),
            operator: self.operator,
            g_prefix: self.g_prefix,
        }
    }
}

impl VimPending {
    /// Only digits are ever collected.
    #[verifier::type_invariant]
    closed spec fn digits_only(&self) -> bool {
        forall|i: int|
            0 <= i < self.count_str@.len() ==> decimal::digit(#[trigger] self.count_str@[i])
    }

    /// Forget everything that is pending.
    pub fn clear(&mut self)
        ensures
            final(self)@ == PendingState::empty(),
    {
        *self = VimPending::default();
    }

    /// How often the next command is to run.
    pub fn count(&self) -> (r: usize)
        ensures
            r == self@.repeat(),
    {
        proof {
            use_type_invariant(self);
        }
        let ghost s = self.count_str@;
        let mut value: usize = 0;
        proof {
            assert(s.take(0) =~= Seq::<char>::empty());
        }
        for c in it: self.count_str.as_str().chars()
            invariant
                it.seq() == s,
                s == self@.count,
                forall|i: int| 0 <= i < s.len() ==> decimal::digit(#[trigger] s[i]),
                value == decimal::digits_value(s.take(it.index() as int)),
        {
            let ghost k = it.index() as int;
            proof {
                assert(s.take(k + 1).drop_last() =~= s.take(k));
                assert(s[k] == c && decimal::digit(s[k]));
                decimal::lemma_digits_value_prefix(s, k + 1);
            }
            let d: usize = (c as u32 - '0' as u32) as usize;
            let tens: Option<usize> = value.checked_mul(10);
            let next: Option<usize> = match tens {
                Some(t) => t.checked_add(d),
                None => None,
            };
            match next {
                Some(v) => {
                    value = v;
                },
                None => {
                    return 1;
                },
            }
        }
        proof {
            assert(s.take(s.len() as int) =~= s);
        }
        if value == 0 {
            1
        } else {
            value
        }
    }

    /// Collect `key` if it continues the count; whether it did.
    pub(crate) fn collect(&mut self, key: Key) -> (r: bool)
        ensures
            r == old(self)@.takes_digit(key),
            r ==> final(self)@ == old(self)@.with_digit(key),
            !r ==> final(self)@ == old(self)@,
    {
        proof {
            use_type_invariant(&*self);
        }
        match key {
            Key::Char(c) => {
                if '0' <= c && c <= '9' && (c != '0' || !self.count_str.as_str().is_empty()) {
                    let mut digits = self.count_str.clone();
                    digits.push(c);
                    self.count_str = digits;
                    true
                } else {
                    false
                }
            },
            _ => false,
        }
    }

    pub(crate) fn operator(&self) -> (r: Option<char>)
        ensures
            r == self@.operator,
    {
        self.operator
    }

    pub(crate) fn set_operator(&mut self, op: char)
        ensures
            final(self)@ == old(self)@.with_operator(op),
    {
        proof {
            use_type_invariant(&*self);
        }
        self.operator = Some(op);
    }

    pub(crate) fn g_prefix(&self) -> (r: bool)
        ensures
            r == self@.g_prefix,
    {
        self.g_prefix
    }

    pub(crate) fn set_g_prefix(&mut self)
        ensures
            final(self)@ == old(self)@.with_g(),
    {
        proof {
            use_type_invariant(&*self);
        }
        self.g_prefix = true;
    }
}

// ── What keys mean ───────────────────────────────────────────────────────────

/// What a key does in Insert mode.
pub open spec fn insert_actions(key: Key) -> Seq<EditorAction> {
    match key {
        Key::Escape => seq![EditorAction::SetMode(Mode::Normal)],
        Key::Backspace => seq![EditorAction::DeleteBackward],
        Key::Enter => seq![EditorAction::InsertChar('\n')],
        Key::Char(c) => seq![EditorAction::InsertChar(c)],
        Key::Left => seq![EditorAction::Move(Motion::Left(1))],
        Key::Right => seq![EditorAction::Move(Motion::Right(1))],
        Key::Up => seq![EditorAction::Move(Motion::Up(1))],
        Key::Down => seq![EditorAction::Move(Motion::Down(1))],
        _ => seq![],
    }
}

/// The motion that one key stands for, with count `n`. A motion to a fixed place has no use for a
/// count.
pub open spec fn motion_of(key: Key, n: usize) -> Option<Motion> {
    match key {
        Key::Char('h') | Key::Left => Some(Motion::Left(n)),
        Key::Char('l') | Key::Right => Some(Motion::Right(n)),
        Key::Char('j') | Key::Down => Some(Motion::Down(n)),
        Key::Char('k') | Key::Up => Some(Motion::Up(n)),
        Key::Char('w') => Some(Motion::WordForward(n)),
        Key::Char('b') => Some(Motion::WordBackward(n)),
        Key::Char('e') => Some(Motion::WordEnd(n)),
        Key::Char('0') => Some(Motion::LineStart),
        Key::Char('^') => Some(Motion::FirstNonBlank),
        Key::Char('$') => Some(Motion::LineEnd),
        Key::Char('G') => Some(Motion::LastLine),
        _ => None,
    }
}

/// What operator `op` does with the text that `motion` covers.
pub open spec fn operate(op: char, motion: Motion) -> Seq<EditorAction> {
    if op == 'd' {
        seq![EditorAction::DeleteMotion(motion)]
    } else if op == 'c' {
        seq![EditorAction::DeleteMotion(motion), EditorAction::SetMode(Mode::Insert)]
    } else if op == 'y' {
        seq![EditorAction::YankMotion(motion)]
    } else {
        seq![]
    }
}

/// What operator `op`, pressed twice, does with the current line.
pub open spec fn operate_on_line(op: char) -> Seq<EditorAction> {
    if op == 'd' {
        seq![EditorAction::DeleteLine]
    } else if op == 'c' {
        seq![EditorAction::DeleteLine, EditorAction::SetMode(Mode::Insert)]
    } else if op == 'y' {
        seq![EditorAction::YankLine]
    } else {
        seq![]
    }
}

/// What `key` does while operator `op` is pending: it gives the motion, it asks for the line, or
/// it calls the operator off.
pub open spec fn operand_actions(op: char, key: Key, n: usize) -> Seq<EditorAction> {
    match motion_of(key, n) {
        Some(motion) => operate(op, motion),
        None => if key == Key::Char(op) {
            operate_on_line(op)
        } else {
            seq![]
        },
    }
}

/// What `key` does after `g`.
pub open spec fn g_actions(key: Key, n: usize) -> Seq<EditorAction> {
    match key {
        Key::Char('g') => seq![EditorAction::Move(Motion::FirstLine)],
        Key::Char('e') => Seq::new(n as nat, |i: int| EditorAction::Move(Motion::WordEnd(1))),
        _ => seq![],
    }
}

/// What a key that is a command of its own does in Normal mode.
pub open spec fn command_actions(key: Key, n: usize) -> Seq<EditorAction> {
    match motion_of(key, n) {
        Some(motion) => seq![EditorAction::Move(motion)],
        None => match key {
            Key::Char('i') => seq![EditorAction::SetMode(Mode::Insert)],
            Key::Char('I') => seq![
                EditorAction::Move(Motion::FirstNonBlank),
                EditorAction::SetMode(Mode::Insert),
            ],
            Key::Char('a') => seq![
                EditorAction::Move(Motion::Right(1)),
                EditorAction::SetMode(Mode::Insert),
            ],
            Key::Char('A') => seq![
                EditorAction::Move(Motion::LineEnd),
                EditorAction::SetMode(Mode::Insert),
            ],
            Key::Char('o') => seq![
                EditorAction::Move(Motion::LineEnd),
                EditorAction::InsertChar('\n'),
                EditorAction::SetMode(Mode::Insert),
            ],
            Key::Char('O') => seq![
                EditorAction::Move(Motion::LineStart),
                EditorAction::InsertChar('\n'),
                EditorAction::Move(Motion::Up(1)),
                EditorAction::SetMode(Mode::Insert),
            ],
            Key::Char('x') => seq![EditorAction::DeleteCharForward],
            Key::Char('X') => seq![EditorAction::DeleteBackward],
            Key::Char('p') => seq![EditorAction::PasteAfter],
            Key::Char('P') => seq![EditorAction::PasteBefore],
            Key::Char('v') => seq![EditorAction::SetMode(Mode::Visual { line: false })],
            Key::Char('V') => seq![EditorAction::SetMode(Mode::Visual { line: true })],
            Key::Enter => seq![
                EditorAction::Move(Motion::LineEnd),
                EditorAction::InsertChar('\n'),
            ],
            Key::Char('u') => seq![EditorAction::Undo],
            _ => seq![],
        },
    }
}

/// What `key` does in Normal mode where no operator with `g` is pending: it extends the count, it
/// completes what is pending, it opens something that stays pending, or it is a command of its own.
pub open spec fn single_step(key: Key, p: PendingState) -> (PendingState, Seq<EditorAction>) {
    let n = p.repeat() as usize;
    if p.takes_digit(key) {
        (p.with_digit(key), seq![])
    } else if p.g_prefix {
        (PendingState::empty(), g_actions(key, n))
    } else {
        match p.operator {
            Some(op) => if key == Key::Char('g') {
                (p.with_g(), seq![])
            } else {
                (PendingState::empty(), operand_actions(op, key, n))
            },
            None => match key {
                Key::Char('g') => (p.with_g(), seq![]),
                Key::Char('d') | Key::Char('c') | Key::Char('y') => (
                    p.with_operator(key->Char_0),
                    seq![],
                ),
                _ => (PendingState::empty(), command_actions(key, n)),
            },
        }
    }
}

/// What `key` does in Normal mode. After an operator and `g`, only another `g` is a motion: any
/// other key calls the operator off and acts as if nothing were pending.
pub open spec fn normal_step(key: Key, p: PendingState) -> (PendingState, Seq<EditorAction>) {
    match p.operator {
        Some(op) => if p.g_prefix {
            if key == Key::Char('g') {
                (PendingState::empty(), operate(op, Motion::FirstLine))
            } else {
                single_step(key, PendingState::empty())
            }
        } else {
            single_step(key, p)
        },
        None => single_step(key, p),
    }
}

/// What a key that is a command of its own does in Visual mode. Every motion moves the end of the
/// selection that the cursor is.
pub open spec fn visual_actions(key: Key, n: usize) -> Seq<EditorAction> {
    match key {
        Key::Escape => seq![EditorAction::SetMode(Mode::Normal)],
        Key::Char('d') => seq![EditorAction::DeleteSelection],
        Key::Char('y') => seq![EditorAction::YankSelection],
        Key::Char('c') => seq![
            EditorAction::DeleteSelection,
            EditorAction::SetMode(Mode::Insert),
        ],
        _ => match motion_of(key, n) {
            Some(motion) => seq![EditorAction::Move(motion)],
            None => seq![],
        },
    }
}

/// What `key` does in Visual mode where no `g` is pending: it extends the count, it opens `g`, or
/// it is a command of its own.
pub open spec fn visual_single_step(key: Key, p: PendingState) -> (
    PendingState,
    Seq<EditorAction>,
) {
    if p.takes_digit(key) {
        (p.with_digit(key), seq![])
    } else if key == Key::Char('g') {
        (p.with_g(), seq![])
    } else {
        (PendingState::empty(), visual_actions(key, p.repeat() as usize))
    }
}

/// What `key` does in Visual mode. After `g`, only another `g` is a motion: any other key acts as
/// if nothing were pending.
pub open spec fn visual_step(key: Key, p: PendingState) -> (PendingState, Seq<EditorAction>) {
    if !p.g_prefix {
        visual_single_step(key, p)
    } else if key == Key::Char('g') {
        (PendingState::empty(), seq![EditorAction::Move(Motion::FirstLine)])
    } else {
        visual_single_step(key, PendingState::empty())
    }
}

// ── The handler ──────────────────────────────────────────────────────────────

/// The Vim dialect.
pub struct VimHandler;

impl MotionHandler for VimHandler {
    open spec fn step(&self, key: Key, mode: Mode, pending: PendingState) -> (
        PendingState,
        Seq<EditorAction>,
    ) {
        match mode {
            Mode::Insert => (pending, insert_actions(key)),
            Mode::Normal => normal_step(key, pending),
            Mode::Visual { .. } => visual_step(key, pending),
        }
    }

    fn handle_key(
        &self,
        key: Key,
        mode: &Mode,
        pending: &mut VimPending,
        actions: &mut Vec<EditorAction>,
    ) {
        match mode {
            Mode::Insert => handle_insert(key, actions),
            Mode::Normal => handle_normal(key, pending, actions),
            Mode::Visual { line: _ } => handle_visual(key, pending, actions),
        }
    }
}

/// Insert mode.
pub(crate) fn handle_insert(key: Key, actions: &mut Vec<EditorAction>)
    ensures
        final(actions)@ == old(actions)@ + insert_actions(key),
{
    match key {
        Key::Escape => actions.push(EditorAction::SetMode(Mode::Normal)),
        Key::Backspace => actions.push(EditorAction::DeleteBackward),
        Key::Enter => actions.push(EditorAction::InsertChar('\n')),
        Key::Char(c) => actions.push(EditorAction::InsertChar(c)),
        Key::Left => actions.push(EditorAction::Move(Motion::Left(1))),
        Key::Right => actions.push(EditorAction::Move(Motion::Right(1))),
        Key::Up => actions.push(EditorAction::Move(Motion::Up(1))),
        Key::Down => actions.push(EditorAction::Move(Motion::Down(1))),
        _ => {},
    }
}

/// The motion that `key` stands for, with count `n`.
pub(crate) fn key_to_motion(key: &Key, n: usize) -> (r: Option<Motion>)
    ensures
        r == motion_of(*key, n),
{
    match key {
        Key::Char('h') | Key::Left => Some(Motion::Left(n)),
        Key::Char('l') | Key::Right => Some(Motion::Right(n)),
        Key::Char('j') | Key::Down => Some(Motion::Down(n)),
        Key::Char('k') | Key::Up => Some(Motion::Up(n)),
        Key::Char('w') => Some(Motion::WordForward(n)),
        Key::Char('b') => Some(Motion::WordBackward(n)),
        Key::Char('e') => Some(Motion::WordEnd(n)),
        Key::Char('0') => Some(Motion::LineStart),
        Key::Char('^') => Some(Motion::FirstNonBlank),
        Key::Char('$') => Some(Motion::LineEnd),
        Key::Char('G') => Some(Motion::LastLine),
        _ => None,
    }
}

/// Operator `op` on what `motion` covers.
fn push_operation(op: char, motion: Motion, actions: &mut Vec<EditorAction>)
    ensures
        final(actions)@ == old(actions)@ + operate(op, motion),
{
    match op {
        'd' => actions.push(EditorAction::DeleteMotion(motion)),
        'c' => {
            actions.push(EditorAction::DeleteMotion(motion));
            actions.push(EditorAction::SetMode(Mode::Insert));
        },
        'y' => actions.push(EditorAction::YankMotion(motion)),
        _ => {},
    }
}

/// A key while operator `op` is pending.
fn handle_operand(op: char, key: Key, n: usize, actions: &mut Vec<EditorAction>)
    ensures
        final(actions)@ == old(actions)@ + operand_actions(op, key, n),
{
    if let Some(motion) = key_to_motion(&key, n) {
        push_operation(op, motion, actions);
        return;
    }
    if key == Key::Char(op) {
        match op {
            'd' => actions.push(EditorAction::DeleteLine),
            'c' => {
                actions.push(EditorAction::DeleteLine);
                actions.push(EditorAction::SetMode(Mode::Insert));
            },
            'y' => actions.push(EditorAction::YankLine),
            _ => {},
        }
    }
}

/// A key after `g`.
fn handle_g(key: Key, n: usize, actions: &mut Vec<EditorAction>)
    ensures
        final(actions)@ == old(actions)@ + g_actions(key, n),
{
    match key {
        Key::Char('g') => actions.push(EditorAction::Move(Motion::FirstLine)),
        Key::Char('e') => {
            let ghost before = actions@;
            let mut i: usize = 0;
            while i < n
                invariant
                    i <= n,
                    actions@ == before + Seq::new(
                        i as nat,
                        |j: int| EditorAction::Move(Motion::WordEnd(1)),
                    ),
                decreases n - i,
            {
                actions.push(EditorAction::Move(Motion::WordEnd(1)));
                i = i + 1;
            }
        },
        _ => {},
    }
}

/// A key that is a command of its own in Normal mode.
fn handle_command(key: Key, n: usize, actions: &mut Vec<EditorAction>)
    ensures
        final(actions)@ == old(actions)@ + command_actions(key, n),
{
    if let Some(motion) = key_to_motion(&key, n) {
        actions.push(EditorAction::Move(motion));
        return;
    }
    match key {
        // Enter insert mode
        Key::Char('i') => actions.push(EditorAction::SetMode(Mode::Insert)),
        Key::Char('I') => {
            actions.push(EditorAction::Move(Motion::FirstNonBlank));
            actions.push(EditorAction::SetMode(Mode::Insert));
        },
        Key::Char('a') => {
            actions.push(EditorAction::Move(Motion::Right(1)));
            actions.push(EditorAction::SetMode(Mode::Insert));
        },
        Key::Char('A') => {
            actions.push(EditorAction::Move(Motion::LineEnd));
            actions.push(EditorAction::SetMode(Mode::Insert));
        },
        Key::Char('o') => {
            actions.push(EditorAction::Move(Motion::LineEnd));
            actions.push(EditorAction::InsertChar('\n'));
            actions.push(EditorAction::SetMode(Mode::Insert));
        },
        Key::Char('O') => {
            actions.push(EditorAction::Move(Motion::LineStart));
            actions.push(EditorAction::InsertChar('\n'));
            actions.push(EditorAction::Move(Motion::Up(1)));
            actions.push(EditorAction::SetMode(Mode::Insert));
        },
        // Delete
        Key::Char('x') => actions.push(EditorAction::DeleteCharForward),
        Key::Char('X') => actions.push(EditorAction::DeleteBackward),
        // Paste
        Key::Char('p') => actions.push(EditorAction::PasteAfter),
        Key::Char('P') => actions.push(EditorAction::PasteBefore),
        // Visual modes
        Key::Char('v') => actions.push(EditorAction::SetMode(Mode::Visual { line: false })),
        Key::Char('V') => actions.push(EditorAction::SetMode(Mode::Visual { line: true })),
        // A new line below the current one, still in Normal mode
        Key::Enter => {
            actions.push(EditorAction::Move(Motion::LineEnd));
            actions.push(EditorAction::InsertChar('\n'));
        },
        Key::Char('u') => actions.push(EditorAction::Undo),
        _ => {},
    }
}

/// Normal mode.
fn handle_normal(key: Key, pending: &mut VimPending, actions: &mut Vec<EditorAction>)
    ensures
        final(pending)@ == normal_step(key, old(pending)@).0,
        final(actions)@ == old(actions)@ + normal_step(key, old(pending)@).1,
{
    if let Some(op) = pending.operator() {
        if pending.g_prefix() {
            pending.clear();
            if key == Key::Char('g') {
                push_operation(op, Motion::FirstLine, actions);
                return;
            }
        }
    }
    if pending.collect(key) {
        return;
    }
    let n: usize = pending.count();
    if pending.g_prefix() {
        handle_g(key, n, actions);
        pending.clear();
        return;
    }
    if let Some(op) = pending.operator() {
        if key == Key::Char('g') {
            pending.set_g_prefix();
            return;
        }
        handle_operand(op, key, n, actions);
        pending.clear();
        return;
    }
    match key {
        Key::Char('g') => pending.set_g_prefix(),
        Key::Char('d') => pending.set_operator('d'),
        Key::Char('c') => pending.set_operator('c'),
        Key::Char('y') => pending.set_operator('y'),
        _ => {
            handle_command(key, n, actions);
            pending.clear();
        },
    }
}

/// Visual mode.
fn handle_visual(key: Key, pending: &mut VimPending, actions: &mut Vec<EditorAction>)
    ensures
        final(pending)@ == visual_step(key, old(pending)@).0,
        final(actions)@ == old(actions)@ + visual_step(key, old(pending)@).1,
{
    if pending.g_prefix() {
        pending.clear();
        if key == Key::Char('g') {
            actions.push(EditorAction::Move(Motion::FirstLine));
            return;
        }
    }
    if pending.collect(key) {
        return;
    }
    let n: usize = pending.count();
    if key == Key::Char('g') {
        pending.set_g_prefix();
        return;
    }
    match key {
        Key::Escape => actions.push(EditorAction::SetMode(Mode::Normal)),
        Key::Char('d') => actions.push(EditorAction::DeleteSelection),
        Key::Char('y') => actions.push(EditorAction::YankSelection),
        Key::Char('c') => {
            actions.push(EditorAction::DeleteSelection);
            actions.push(EditorAction::SetMode(Mode::Insert));
        },
        _ => {
            if let Some(motion) = key_to_motion(&key, n) {
                actions.push(EditorAction::Move(motion));
            }
        },
    }
    pending.clear();
}

} // verus!
