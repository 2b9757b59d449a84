use todizzy::editor::action::{EditorAction, Motion, MotionHandler};
use todizzy::editor::helix::HelixHandler;
use todizzy::editor::vim::{VimHandler, VimPending};
use todizzy::editor::{EditorEngine, Key, Mode};
use todizzy::settings::MotionMode;

fn vim_engine(s: &str) -> EditorEngine {
    EditorEngine::new(s.into(), MotionMode::Vim)
}

fn helix_engine(s: &str) -> EditorEngine {
    EditorEngine::new(s.into(), MotionMode::Helix)
}

fn keys(engine: &mut EditorEngine, seq: &[Key]) {
    for k in seq {
        engine.process_key(k.clone());
    }
}

fn press(engine: &mut EditorEngine, chars: &str) {
    for c in chars.chars() {
        engine.process_key(Key::Char(c));
    }
}

#[test]
fn vim_insert_then_esc() {
    let mut e = vim_engine("");
    keys(
        &mut e,
        &[
            Key::Char('i'),
            Key::Char('h'),
            Key::Char('i'),
            Key::Escape,
        ],
    );
    assert_eq!(e.buf.as_str(), "hi");
    assert_eq!(e.mode, Mode::Normal);
}

#[test]
fn vim_dd_deletes_line() {
    let mut e = vim_engine("hello\nworld");
    keys(&mut e, &[Key::Char('d'), Key::Char('d')]);
    assert!(!e.buf.as_str().contains("hello\n"));
}

#[test]
fn vim_word_forward() {
    let mut e = vim_engine("hello world foo");
    keys(&mut e, &[Key::Char('w')]);
    assert_eq!(e.buf.cursor(), 6);
}

#[test]
fn vim_undo() {
    let mut e = vim_engine("hi");
    e.buf.set_cursor(2);
    keys(
        &mut e,
        &[Key::Char('i'), Key::Char('!'), Key::Escape],
    );
    assert_eq!(e.buf.as_str(), "hi!");
    keys(&mut e, &[Key::Char('u')]);
    assert_eq!(e.buf.as_str(), "hi");
}

#[test]
fn vim_dd_and_paste_back() {
    let mut e = vim_engine("one\ntwo\nthree");
    e.buf.set_cursor(5);
    press(&mut e, "dd");
    assert_eq!((e.buf.as_str(), e.buf.cursor()), ("one\nthree", 4));
    press(&mut e, "P");
    assert_eq!(e.buf.as_str(), "one\ntwo\nthree");
}

#[test]
fn vim_operators_with_motions() {
    let mut e = vim_engine("one two three");
    press(&mut e, "dw");
    assert_eq!(e.buf.as_str(), "two three");
    press(&mut e, "2dw"); // the count before the operator goes to the motion
    assert_eq!(e.buf.as_str(), "");
    let mut e = vim_engine("one two three");
    press(&mut e, "d2w");
    assert_eq!(e.buf.as_str(), "three");
    press(&mut e, "P");
    assert_eq!(e.buf.as_str(), "one two three");
    let mut e = vim_engine("abc def");
    e.buf.set_cursor(4);
    press(&mut e, "d0");
    assert_eq!((e.buf.as_str(), e.buf.cursor()), ("def", 0));
    press(&mut e, "c$");
    assert_eq!((e.buf.as_str(), e.mode), ("", Mode::Insert));
    press(&mut e, "xyz");
    assert_eq!(e.buf.as_str(), "xyz");
}

#[test]
fn vim_yank_leaves_text_and_cursor() {
    let mut e = vim_engine("one two");
    e.buf.set_cursor(4);
    assert!(!e.process_key(Key::Char('y')));
    assert!(!e.process_key(Key::Char('b')));
    assert_eq!((e.buf.as_str(), e.buf.cursor()), ("one two", 4));
    press(&mut e, "P");
    assert_eq!((e.buf.as_str(), e.buf.cursor()), ("one one two", 8));
    let mut e = vim_engine("ab\ncd");
    press(&mut e, "yyjP");
    assert_eq!(e.buf.as_str(), "ab\nab\ncd");
}

#[test]
fn vim_cc_deletes_the_line_and_inserts() {
    let mut e = vim_engine("ab\ncd");
    press(&mut e, "cc");
    assert_eq!((e.buf.as_str(), e.mode), ("cd", Mode::Insert));
}

#[test]
fn vim_unknown_operand_calls_the_operator_off() {
    let mut e = vim_engine("ab cd");
    press(&mut e, "dzw");
    assert_eq!((e.buf.as_str(), e.buf.cursor()), ("ab cd", 3));
}

#[test]
fn vim_counts() {
    let t = "0\n1\n2\n3\n4\n5\n6\n7\n8\n9\n10\n11\n12";
    let mut e = vim_engine(t);
    press(&mut e, "5j");
    assert_eq!(e.buf.cursor_lc(), (5, 0));
    press(&mut e, "3k");
    assert_eq!(e.buf.cursor_lc(), (2, 0));
    press(&mut e, "10j");
    assert_eq!(e.buf.cursor_lc(), (12, 0));
    press(&mut e, "gg");
    assert_eq!(e.buf.cursor(), 0);
    press(&mut e, "G");
    assert_eq!(e.buf.cursor_lc(), (12, 0));
    let mut e = vim_engine("a b c d");
    press(&mut e, "3w");
    assert_eq!(e.buf.cursor(), 6);
    press(&mut e, "0");
    assert_eq!(e.buf.cursor(), 0);
}

#[test]
fn vim_count_too_large_counts_as_one() {
    let mut e = vim_engine("a b c d");
    press(&mut e, "99999999999999999999999w");
    assert_eq!(e.buf.cursor(), 2);
    press(&mut e, "18446744073709551615w");
    assert_eq!(e.buf.cursor(), 7);
}

#[test]
fn vim_ge_repeats_word_ends() {
    let mut e = vim_engine("aa bb cc dd");
    press(&mut e, "2ge");
    assert_eq!(e.buf.cursor(), 4);
    press(&mut e, "e");
    assert_eq!(e.buf.cursor(), 7);
}

#[test]
fn vim_word_ends_take_a_count() {
    let mut e = vim_engine("aa bb cc");
    press(&mut e, "2e");
    assert_eq!(e.buf.cursor(), 4);
    let mut e = vim_engine("aa bb cc");
    press(&mut e, "d2e");
    assert_eq!(e.buf.as_str(), "b cc");
    let mut e = vim_engine("aa bb cc");
    press(&mut e, "2de");
    assert_eq!(e.buf.as_str(), "b cc");
    let mut e = vim_engine("aa bb cc");
    press(&mut e, "v2e");
    assert_eq!((e.selection_anchor, e.buf.cursor()), (Some(0), 4));
    let mut e = helix_engine("aa bb cc");
    press(&mut e, "2e");
    assert_eq!((e.selection_anchor, e.buf.cursor()), (Some(0), 4));
}

#[test]
fn vim_operators_take_every_motion() {
    let mut e = vim_engine("  ab cd");
    e.buf.set_cursor(5);
    press(&mut e, "d^");
    assert_eq!((e.buf.as_str(), e.buf.cursor()), ("  cd", 2));
    let mut e = vim_engine("one\ntwo\nthree");
    press(&mut e, "dG");
    assert_eq!((e.buf.as_str(), e.buf.cursor()), ("three", 0));
    let mut e = vim_engine("one\ntwo\nthree");
    e.buf.set_cursor(4);
    press(&mut e, "dgg");
    assert_eq!((e.buf.as_str(), e.buf.cursor()), ("two\nthree", 0));
    let mut e = vim_engine("one\ntwo");
    e.buf.set_cursor(4);
    press(&mut e, "ygg");
    assert_eq!((e.buf.as_str(), e.buf.cursor()), ("one\ntwo", 4));
    press(&mut e, "P");
    assert_eq!(e.buf.as_str(), "one\none\ntwo");
}

#[test]
fn vim_only_g_is_a_motion_after_an_operator_and_g() {
    // Any other key calls the operator off and acts for itself.
    let mut e = vim_engine("aa bb");
    press(&mut e, "dge");
    assert_eq!((e.buf.as_str(), e.buf.cursor()), ("aa bb", 1));
    let mut e = vim_engine("aa bb");
    press(&mut e, "dgx");
    assert_eq!(e.buf.as_str(), "a bb");
    let mut e = vim_engine("aa bb cc");
    press(&mut e, "3dg2w");
    assert_eq!((e.buf.as_str(), e.buf.cursor()), ("aa bb cc", 6));
    let mut e = vim_engine("aa\nbb");
    press(&mut e, "cgdd");
    assert_eq!((e.buf.as_str(), e.mode), ("bb", Mode::Normal));
    let mut e = vim_engine("aa bb");
    press(&mut e, "vlgd");
    assert_eq!((e.buf.as_str(), e.mode), ("a bb", Mode::Normal));
}

#[test]
fn vim_line_visual_takes_whole_lines() {
    let text = "one\ntwo\nthree";
    for (sequence, result, cursor, mode) in [
        ("Vd", "one\nthree", 4, Mode::Normal),
        ("Vjd", "one\n", 4, Mode::Normal),
        ("Vkd", "three", 0, Mode::Normal),
        ("V$d", "one\nthree", 4, Mode::Normal),
        ("VGd", "one\n", 4, Mode::Normal),
        ("Vggd", "three", 0, Mode::Normal),
        ("Vc", "one\nthree", 4, Mode::Insert),
        ("VyP", "one\nttwo\nwo\nthree", 9, Mode::Normal),
    ] {
        let mut e = vim_engine(text);
        e.buf.set_cursor(5);
        press(&mut e, sequence);
        assert_eq!((sequence, e.buf.as_str()), (sequence, result));
        assert_eq!((sequence, e.buf.cursor(), e.mode), (sequence, cursor, mode));
    }
    let mut e = vim_engine("one");
    press(&mut e, "Vd");
    assert_eq!((e.buf.as_str(), e.buf.cursor()), ("", 0));
}

#[test]
fn vim_visual_mode_takes_every_motion() {
    let text = "one\n two tri\nfour";
    for (motion, cursor) in [
        ("h", 5),
        ("e", 7),
        ("0", 4),
        ("^", 5),
        ("$", 12),
        ("G", 13),
        ("gg", 0),
        ("2e", 11),
        ("2ge", 7),
    ] {
        let mut e = vim_engine(text);
        e.buf.set_cursor(6);
        press(&mut e, "v");
        press(&mut e, motion);
        assert_eq!((motion, e.buf.cursor()), (motion, cursor));
        assert_eq!((e.mode, e.selection_anchor), (Mode::Visual { line: false }, Some(6)));
    }
    let mut e = vim_engine(text);
    press(&mut e, "vg");
    e.process_key(Key::Escape);
    assert_eq!((e.mode, e.buf.cursor()), (Mode::Normal, 0));
}

#[test]
fn vim_opening_lines() {
    let mut e = vim_engine("ab\ncd");
    press(&mut e, "oxy");
    assert_eq!(e.buf.as_str(), "ab\nxy\ncd");
    let mut e = vim_engine("ab\ncd");
    e.buf.set_cursor(4);
    press(&mut e, "Oxy");
    assert_eq!(e.buf.as_str(), "ab\nxy\ncd");
    let mut e = vim_engine("ab\ncd");
    e.process_key(Key::Enter);
    assert_eq!((e.buf.as_str(), e.mode), ("ab\n\ncd", Mode::Normal));
}

#[test]
fn vim_ways_into_insert_mode() {
    for (key, result) in [('i', "  a-b"), ('I', "  -ab"), ('a', "  ab-"), ('A', "  ab-")] {
        let mut e = vim_engine("  ab");
        e.buf.set_cursor(3);
        press(&mut e, &key.to_string());
        assert_eq!(e.mode, Mode::Insert);
        press(&mut e, "-");
        assert_eq!(e.buf.as_str(), result);
    }
}

#[test]
fn vim_x_and_paste_after_multibyte() {
    let mut e = vim_engine("éa€");
    press(&mut e, "x");
    assert_eq!(e.buf.as_str(), "a€");
    press(&mut e, "X");
    assert_eq!(e.buf.as_str(), "a€");
    // Yank `a`, stand on `€`, paste behind it.
    press(&mut e, "ylwp");
    assert_eq!(e.buf.as_str(), "a€a");
}

#[test]
fn paste_after_stands_behind_a_wide_character() {
    let mut e = vim_engine("x€y");
    press(&mut e, "ylp");
    assert_eq!((e.buf.as_str(), e.buf.cursor()), ("xx€y", 2));
    press(&mut e, "p");
    assert_eq!((e.buf.as_str(), e.buf.cursor()), ("xx€xy", 6));
}

#[test]
fn vim_visual_mode() {
    let mut e = vim_engine("one two three");
    press(&mut e, "vwy");
    assert_eq!((e.mode, e.selection_anchor), (Mode::Normal, None));
    press(&mut e, "P");
    assert_eq!(e.buf.as_str(), "one one two three");
    let mut e = vim_engine("one two three");
    press(&mut e, "wv");
    assert_eq!((e.mode, e.selection_anchor), (Mode::Visual { line: false }, Some(4)));
    press(&mut e, "bd");
    assert_eq!((e.buf.as_str(), e.buf.cursor()), ("two three", 0));
    press(&mut e, "V");
    assert_eq!(e.mode, Mode::Visual { line: true });
    e.process_key(Key::Escape);
    assert_eq!((e.mode, e.selection_anchor), (Mode::Normal, None));
    press(&mut e, "v2wc");
    assert_eq!((e.buf.as_str(), e.mode), ("", Mode::Insert));
}

#[test]
fn undo_is_taken_back_by_undo() {
    let mut e = vim_engine("abc");
    press(&mut e, "x");
    assert_eq!(e.buf.as_str(), "bc");
    press(&mut e, "u");
    assert_eq!(e.buf.as_str(), "abc");
    press(&mut e, "u");
    assert_eq!(e.buf.as_str(), "bc");
}

#[test]
fn undo_without_history_is_quiet() {
    let mut e = vim_engine("abc");
    assert!(!e.process_key(Key::Char('u')));
    assert_eq!(e.buf.as_str(), "abc");
}

#[test]
fn undo_brings_back_the_cursor() {
    let mut e = vim_engine("abc def");
    e.buf.set_cursor(5);
    press(&mut e, "d0");
    press(&mut e, "llu");
    assert_eq!((e.buf.as_str(), e.buf.cursor()), ("abc def", 5));
}

#[test]
fn undo_works_after_many_changes() {
    let mut e = vim_engine("");
    press(&mut e, "i");
    for _ in 0..300 {
        press(&mut e, "z");
    }
    e.process_key(Key::Escape);
    press(&mut e, "u");
    assert_eq!(e.buf.len(), 299);
}

#[test]
fn changes_are_reported() {
    let mut e = vim_engine("ab");
    assert!(!e.process_key(Key::Char('l')));
    assert!(e.process_key(Key::Char('x')));
    assert!(!e.process_key(Key::Char('i')));
    assert!(e.process_key(Key::Char('x')));
    // An edit that finds nothing to take out is no change.
    let mut e = vim_engine("");
    assert!(!e.process_key(Key::Char('x')));
    assert!(!e.process_key(Key::Char('X')));
    assert!(!e.process_key(Key::Char('P')));
    press(&mut e, "d");
    assert!(!e.process_key(Key::Char('d')));
    press(&mut e, "i");
    assert!(!e.process_key(Key::Backspace));
    assert_eq!(e.buf.as_str(), "");
    let mut e = helix_engine("ab");
    e.process_key(Key::Escape);
    assert!(!e.process_key(Key::Char('d')));
    assert_eq!(e.buf.as_str(), "ab");
}

#[test]
fn only_changes_go_through_undo() {
    let mut e = vim_engine("abc");
    press(&mut e, "xX");
    assert_eq!(e.buf.as_str(), "bc");
    assert!(e.process_key(Key::Char('u')));
    assert_eq!(e.buf.as_str(), "abc");
}

#[test]
fn actions_report_changes() {
    let mut e = vim_engine("one\ntwo");
    e.buf.set_cursor(1);
    let mut f = vim_engine("one\ntwo");
    f.buf.set_cursor(1);
    assert!(e.apply_actions(vec![EditorAction::DeleteLine]));
    assert!(f.apply_actions(vec![EditorAction::SelectLine, EditorAction::DeleteSelection]));
    assert_eq!((e.buf.as_str(), e.buf.cursor()), ("two", 0));
    assert_eq!((f.buf.as_str(), f.buf.cursor()), ("two", 0));
    assert_eq!((f.mode, f.selection_anchor), (Mode::Normal, None));
    assert!(e.apply_actions(vec![EditorAction::PasteBefore]));
    assert!(f.apply_actions(vec![EditorAction::PasteBefore]));
    assert_eq!((e.buf.as_str(), f.buf.as_str()), ("one\ntwo", "one\ntwo"));
    assert!(!e.apply_actions(vec![EditorAction::DeleteLine, EditorAction::PasteBefore]));
}

#[test]
fn helix_words_select() {
    let mut e = helix_engine("one two three");
    press(&mut e, "w");
    assert_eq!((e.selection_anchor, e.buf.cursor()), (Some(0), 4));
    press(&mut e, "w");
    assert_eq!((e.selection_anchor, e.buf.cursor()), (Some(0), 8));
    press(&mut e, "d");
    assert_eq!((e.buf.as_str(), e.buf.cursor(), e.mode), ("three", 0, Mode::Normal));
    press(&mut e, "P");
    assert_eq!(e.buf.as_str(), "one two three");
}

#[test]
fn helix_always_has_an_anchor_in_normal_mode() {
    let mut e = helix_engine("one\ntwo\n");
    for c in "jlwxXdpPuyhkgge0$Gzo".chars() {
        e.process_key(Key::Char(c));
        assert!(e.mode != Mode::Normal || e.selection_anchor.is_some());
        e.process_key(Key::Escape);
        assert_eq!(e.mode, Mode::Normal);
        assert_eq!(e.selection_anchor, Some(e.buf.cursor()));
    }
}

#[test]
fn helix_lines() {
    let mut e = helix_engine("one\ntwo\nthree");
    press(&mut e, "x");
    assert_eq!((e.selection_anchor, e.buf.cursor()), (Some(0), 4));
    press(&mut e, "X");
    assert_eq!((e.selection_anchor, e.buf.cursor()), (Some(0), 8));
    press(&mut e, "c");
    assert_eq!((e.buf.as_str(), e.mode, e.selection_anchor), ("three", Mode::Insert, None));
}

#[test]
fn helix_insert_and_append_at_the_ends_of_the_selection() {
    let mut e = helix_engine("one two");
    press(&mut e, "wi-");
    assert_eq!(e.buf.as_str(), "-one two");
    let mut e = helix_engine("one two");
    press(&mut e, "wa-");
    assert_eq!(e.buf.as_str(), "one -two");
    let mut e = helix_engine("one two");
    e.buf.set_cursor(4);
    press(&mut e, "ba-");
    assert_eq!(e.buf.as_str(), "one -two");
    let mut e = helix_engine("one");
    press(&mut e, "ha-");
    assert_eq!(e.buf.as_str(), "o-ne");
}

#[test]
fn helix_selection_survives_a_shorter_text() {
    let mut e = helix_engine("one two three");
    press(&mut e, "G$");
    e.process_key(Key::Escape);
    e.buf.set_content("ab".to_string());
    press(&mut e, "d");
    assert_eq!(e.buf.as_str(), "");
}

#[test]
fn plain_mode_just_types() {
    let mut e = EditorEngine::new(String::new(), MotionMode::Plain);
    for c in "dd".chars() {
        assert!(e.process_key(Key::Char(c)));
    }
    assert!(e.process_key(Key::Enter));
    assert!(e.process_key(Key::Char('x')));
    assert_eq!(e.buf.as_str(), "dd\nx");
    assert!(!e.process_key(Key::Up));
    assert!(!e.process_key(Key::Left));
    assert!(!e.process_key(Key::Escape));
    assert_eq!(e.buf.cursor(), 0);
    assert!(!e.process_key(Key::Backspace));
    assert_eq!((e.buf.as_str(), e.mode), ("dd\nx", Mode::Normal));
    assert!(!e.process_key(Key::Right));
    assert!(!e.process_key(Key::Down));
    assert!(!e.process_key(Key::Tab));
}

#[test]
fn set_content_starts_over_and_keeps_the_register() {
    let mut e = vim_engine("one two");
    press(&mut e, "dwv");
    e.set_content("x".to_string());
    assert_eq!((e.mode, e.selection_anchor), (Mode::Normal, None));
    assert!(!e.process_key(Key::Char('u')));
    press(&mut e, "P");
    assert_eq!(e.buf.as_str(), "one x");
}

#[test]
fn dialect_can_be_switched() {
    let mut e = vim_engine("one two");
    e.set_motion_mode(MotionMode::Plain);
    assert_eq!(e.motion_mode(), MotionMode::Plain);
    press(&mut e, "x");
    assert_eq!(e.buf.as_str(), "xone two");
}

#[test]
fn handlers_turn_keys_into_actions() {
    let mut pending = VimPending::default();
    let mut actions = Vec::new();
    VimHandler.handle_key(Key::Char('3'), &Mode::Normal, &mut pending, &mut actions);
    assert!(actions.is_empty());
    assert_eq!(pending.count(), 3);
    VimHandler.handle_key(Key::Char('d'), &Mode::Normal, &mut pending, &mut actions);
    VimHandler.handle_key(Key::Char('w'), &Mode::Normal, &mut pending, &mut actions);
    assert_eq!(actions, vec![EditorAction::DeleteMotion(Motion::WordForward(3))]);
    assert_eq!(pending.count(), 1);
    actions.clear();
    VimHandler.handle_key(Key::Char('7'), &Mode::Visual { line: false }, &mut pending, &mut actions);
    pending.clear();
    VimHandler.handle_key(Key::Char('k'), &Mode::Visual { line: false }, &mut pending, &mut actions);
    assert_eq!(actions, vec![EditorAction::Move(Motion::Up(1))]);
    actions.clear();
    HelixHandler.handle_key(Key::Char('2'), &Mode::Normal, &mut pending, &mut actions);
    HelixHandler.handle_key(Key::Char('b'), &Mode::Normal, &mut pending, &mut actions);
    HelixHandler.handle_key(Key::Char('x'), &Mode::Insert, &mut pending, &mut actions);
    assert_eq!(
        actions,
        vec![
            EditorAction::MoveExtend(Motion::WordBackward(2)),
            EditorAction::InsertChar('x'),
        ]
    );
}
