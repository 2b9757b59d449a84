use todizzy::app_core::{status_click, AppCore, ClickAction};
use todizzy::gestures::{GestureDir, Movement, SwipeDetector, SwipeDir, SwipeOutcome};
use todizzy::settings::{MotionMode, PanelState, Settings};
use todizzy::storage::{Index, NoteId, NoteStore};

fn movement(lockable: bool, sideways: bool, full: bool, leftward: bool) -> Movement {
    Movement { lockable, sideways, full, leftward }
}

#[test]
fn a_swipe_fires_once() {
    let mut d = SwipeDetector::default();
    d.began();
    assert_eq!(d.changed(movement(false, true, false, true)), SwipeOutcome::Consumed);
    assert_eq!(d.changed(movement(true, true, false, true)), SwipeOutcome::Consumed);
    assert_eq!(d.direction, GestureDir::Horizontal);
    assert_eq!(
        d.changed(movement(true, false, true, true)),
        SwipeOutcome::Triggered(SwipeDir::Left)
    );
    assert_eq!(d.changed(movement(true, true, true, true)), SwipeOutcome::Consumed);
    d.ended();
    assert_eq!(d, SwipeDetector::default());
    assert_eq!(
        d.changed(movement(true, true, true, false)),
        SwipeOutcome::Triggered(SwipeDir::Right)
    );
}

#[test]
fn a_vertical_gesture_stays_vertical() {
    let mut d = SwipeDetector::default();
    assert_eq!(d.changed(movement(true, false, false, true)), SwipeOutcome::PassThrough);
    assert!(d.active);
    assert_eq!(d.changed(movement(true, true, true, true)), SwipeOutcome::PassThrough);
    d.began();
    assert_eq!(d.changed(movement(true, true, false, true)), SwipeOutcome::Consumed);
}

#[test]
fn default_settings() {
    let s = Settings::default();
    assert_eq!(s.motion_mode, MotionMode::Vim);
    assert_eq!(MotionMode::default(), MotionMode::Vim);
    assert!(s.close_on_focus_loss && s.show_nav_arrows && s.show_page_dots);
    assert!(s.show_mode_indicator && !s.git_sync);
}

#[test]
fn settings_panel_round_trip() {
    for m in [MotionMode::Vim, MotionMode::Helix, MotionMode::Plain] {
        assert_eq!(MotionMode::from_segment(m.segment()), m);
        let s = Settings { motion_mode: m, git_sync: true, show_page_dots: false, ..Settings::default() };
        assert_eq!(Settings::from_panel(&s.to_panel()), s);
    }
    assert_eq!(MotionMode::from_segment(9), MotionMode::Plain);
}

#[test]
fn missing_controls_count_as_ticked() {
    let p = PanelState { segment: None, close: None, arrows: None, dots: None, mode: None, git: None };
    let s = Settings::from_panel(&p);
    assert_eq!(s, Settings { git_sync: true, ..Settings::default() });
    let p = PanelState { segment: Some(1), close: Some(0), git: Some(-1), ..p };
    let s = Settings::from_panel(&p);
    assert_eq!(
        (s.motion_mode, s.close_on_focus_loss, s.git_sync),
        (MotionMode::Helix, false, false)
    );
}

#[test]
fn focus_loss() {
    let s = Settings::default();
    assert!(s.hides_on_focus_loss(false));
    assert!(!s.hides_on_focus_loss(true));
    assert!(!Settings { close_on_focus_loss: false, ..s }.hides_on_focus_loss(false));
}

#[test]
fn clicks_on_the_icon() {
    assert_eq!(status_click(true, true), ClickAction::ShowMenu);
    assert_eq!(status_click(false, true), ClickAction::HideWindow);
    assert_eq!(status_click(false, false), ClickAction::ShowWindow);
}

fn notepad() -> AppCore {
    AppCore::new(NoteStore::open(Index::default()).0, Settings::default())
}

#[test]
fn pages_are_turned() {
    let mut c = notepad();
    assert_eq!((c.page_state(), c.current_id()), ((1, 0), NoteId(0)));
    c.go_prev_note();
    assert_eq!(c.page_state(), (1, 0));
    assert_eq!(c.go_next_note(), Some(NoteId(1)));
    assert_eq!((c.page_state(), c.current_id()), ((2, 1), NoteId(1)));
    assert_eq!(c.turn_page(SwipeDir::Right), None);
    assert_eq!(c.page_state(), (2, 0));
    assert_eq!(c.turn_page(SwipeDir::Left), None);
    assert_eq!(c.turn_page(SwipeDir::Left), Some(NoteId(2)));
    assert_eq!(c.page_state(), (3, 2));
    assert_eq!(c.store().len(), 3);
}

#[test]
fn a_pull_reloads_only_an_untouched_page() {
    let again = || Some(NoteStore::open(Index { notes: vec![NoteId(5)], next_id: 6 }).0);
    let mut c = notepad();
    c.start_pull("text".to_string());
    assert!(c.reload_notes_after_pull(again(), Some("text".to_string())));
    assert_eq!(c.current_id(), NoteId(5));
    assert!(!c.reload_notes_after_pull(None, Some("text".to_string())));
    c.start_pull("text".to_string());
    assert!(!c.reload_notes_after_pull(again(), Some("text!".to_string())));
    c.start_pull("text".to_string());
    assert!(!c.reload_notes_after_pull(None, None));
    assert_eq!(c.current_id(), NoteId(5));
}

#[test]
fn settings_can_be_replaced() {
    let mut c = notepad();
    let s = Settings { git_sync: true, ..Settings::default() };
    c.set_settings(s);
    assert_eq!(c.settings(), s);
}
