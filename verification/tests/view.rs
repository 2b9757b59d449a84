use todizzy::editor::{Key, Mode};
use todizzy::editor_view::{
    key_from_event, EditorView, KeyResponse, ScrollAction, ScrollEvent, DOUBLE_ESCAPE_NS,
};
use todizzy::gestures::{Movement, SwipeDir};
use todizzy::markdown::MdSpanKind;
use todizzy::settings::MotionMode;

fn view(mode: MotionMode, text: &str) -> EditorView {
    let mut v = EditorView::new(mode);
    v.load_content(text);
    v
}

fn shown(r: KeyResponse) -> (Option<String>, usize) {
    match r {
        KeyResponse::Show { new_text, cursor } => (new_text, cursor),
        other => panic!("{:?}", other),
    }
}

#[test]
fn key_events() {
    let special = [
        (36, Key::Enter),
        (48, Key::Tab),
        (51, Key::Backspace),
        (53, Key::Escape),
        (115, Key::Home),
        (116, Key::PageUp),
        (119, Key::End),
        (121, Key::PageDown),
        (123, Key::Left),
        (124, Key::Right),
        (125, Key::Down),
        (126, Key::Up),
    ];
    for (code, key) in special {
        assert_eq!(key_from_event(code, Some('x')), Some(key));
    }
    assert_eq!(key_from_event(0, Some('é')), Some(Key::Char('é')));
    assert_eq!(key_from_event(0, Some('\u{7f}')), None);
    assert_eq!(key_from_event(0, None), None);
}

#[test]
fn keys_of_normal_mode_are_shown() {
    let mut v = view(MotionMode::Vim, "😀ab");
    assert_eq!(shown(v.handle_key(Key::Char('l'), 0)), (None, 2));
    assert_eq!(shown(v.handle_key(Key::Char('x'), 0)), (Some("😀b".to_string()), 2));
    assert_eq!(v.current_content(), "😀b");
}

#[test]
fn keys_of_insert_mode_are_native() {
    let mut v = view(MotionMode::Vim, "ab");
    assert_eq!(shown(v.handle_key(Key::Char('i'), 0)), (None, 0));
    assert_eq!((v.current_mode(), v.mode_label()), (Mode::Insert, 'I'));
    assert!(matches!(v.handle_key(Key::Char('z'), 0), KeyResponse::Native));
    assert_eq!(v.current_content(), "ab");
    v.sync_text("zab".to_string(), 1);
    assert_eq!(shown(v.handle_key(Key::Escape, 0)), (None, 1));
    assert_eq!(v.mode_label(), 'N');
    v.handle_key(Key::Char('v'), 0);
    assert_eq!(v.mode_label(), 'V');
}

#[test]
fn double_escape_hides() {
    let mut v = view(MotionMode::Vim, "ab");
    assert_eq!(shown(v.handle_key(Key::Escape, 1_000)), (None, 0));
    assert!(matches!(v.handle_key(Key::Escape, 1_000 + DOUBLE_ESCAPE_NS - 1), KeyResponse::HideWindow));
    // The pair is used up.
    shown(v.handle_key(Key::Escape, 1_000 + DOUBLE_ESCAPE_NS));
    shown(v.handle_key(Key::Escape, 1_000 + 2 * DOUBLE_ESCAPE_NS));
    assert!(matches!(v.handle_key(Key::Escape, 5), KeyResponse::HideWindow));
    // The Escape that leaves Insert mode does not count.
    v.handle_key(Key::Char('i'), 6);
    shown(v.handle_key(Key::Escape, 7));
    shown(v.handle_key(Key::Escape, 8));
    assert!(matches!(v.handle_key(Key::Escape, 9), KeyResponse::HideWindow));
}

#[test]
fn block_cursor() {
    let v = view(MotionMode::Vim, "a😀\n\nb");
    // units: a 0, 😀 1..3, \n 3, \n 4, b 5
    assert_eq!(v.selection_range(0), (0, 1));
    assert_eq!(v.selection_range(1), (1, 1));
    assert_eq!(v.selection_range(3), (1, 1)); // end of line: the last visible character
    assert_eq!(v.selection_range(4), (4, 0)); // empty line
    assert_eq!(v.selection_range(5), (5, 1));
    assert_eq!(v.selection_range(6), (5, 1)); // end of the text
    assert_eq!(view(MotionMode::Vim, "").selection_range(0), (0, 0));
    let mut v = view(MotionMode::Vim, "ab");
    v.handle_key(Key::Char('i'), 0);
    assert_eq!(v.selection_range(1), (1, 0));
}

#[test]
fn helix_shows_the_selection() {
    let mut v = view(MotionMode::Helix, "😀 two x");
    assert_eq!(v.selection_range(0), (0, 2));
    let (_, cursor) = shown(v.handle_key(Key::Char('w'), 0));
    assert_eq!(cursor, 3);
    assert_eq!(v.selection_range(cursor), (0, 3));
    v.handle_key(Key::Char('$'), 0);
    v.handle_key(Key::Escape, 0);
    assert_eq!(v.selection_range(8), (8, 0));
}

#[test]
fn cursor_is_restored() {
    let mut v = view(MotionMode::Vim, "a😀b");
    v.sync_text("a😀b".to_string(), 0);
    v.restore_cursor("a😀b", 3);
    assert_eq!(shown(v.handle_key(Key::Char('x'), 0)), (Some("a😀".to_string()), 3));
}

#[test]
fn scrolling() {
    let still = Movement { lockable: false, sideways: false, full: false, leftward: false };
    let swipe = Movement { lockable: true, sideways: true, full: true, leftward: true };
    let ev = ScrollEvent { precise: true, began: false, ended: false, changed: false, movement: still };
    let mut v = view(MotionMode::Vim, "");
    assert_eq!(v.handle_scroll(ScrollEvent { precise: false, changed: true, ..ev }), ScrollAction::Scroll);
    assert_eq!(v.handle_scroll(ev), ScrollAction::Swallow);
    assert!(!v.swipe_active());
    assert_eq!(v.handle_scroll(ScrollEvent { began: true, ..ev }), ScrollAction::Scroll);
    assert!(v.swipe_active());
    assert_eq!(v.handle_scroll(ScrollEvent { changed: true, ..ev }), ScrollAction::Swallow);
    assert_eq!(
        v.handle_scroll(ScrollEvent { changed: true, movement: swipe, ..ev }),
        ScrollAction::TurnPage(SwipeDir::Left)
    );
    assert_eq!(v.handle_scroll(ScrollEvent { ended: true, ..ev }), ScrollAction::Scroll);
    assert!(!v.swipe_active());
    let vertical = Movement { sideways: false, ..swipe };
    assert_eq!(
        v.handle_scroll(ScrollEvent { changed: true, movement: vertical, ..ev }),
        ScrollAction::Scroll
    );
}

#[test]
fn formatting_is_not_entered_twice() {
    let mut v = view(MotionMode::Vim, "😀 *x*");
    let plan = v.begin_formatting().unwrap();
    assert_eq!(plan.length, 6);
    assert_eq!(plan.runs.len(), 1);
    let run = plan.runs[0];
    assert_eq!((run.location, run.length, run.kind), (3, 3, MdSpanKind::Italic));
    assert!(v.begin_formatting().is_none());
    v.end_formatting();
    assert!(v.begin_formatting().is_some());
    assert!(view(MotionMode::Vim, "").begin_formatting().is_none());
}

#[test]
fn dialect_of_the_view() {
    let mut v = view(MotionMode::Vim, "ab");
    v.set_motion_mode(MotionMode::Plain);
    assert_eq!(shown(v.handle_key(Key::Char('x'), 0)), (Some("xab".to_string()), 1));
}
