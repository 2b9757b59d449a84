use todizzy::editor::buffer::Buffer;

#[test]
fn insert_and_cursor() {
    let mut b = Buffer::new(String::new());
    b.insert("hello");
    assert_eq!(b.as_str(), "hello");
    assert_eq!(b.cursor(), 5);
}

#[test]
fn delete_backward() {
    let mut b = Buffer::new("hello".into());
    b.set_cursor(5);
    b.delete_backward();
    assert_eq!(b.as_str(), "hell");
}

#[test]
fn move_word() {
    let mut b = Buffer::new("hello world foo".into());
    b.move_word_forward(1);
    assert_eq!(b.cursor(), 6); // start of "world"
}

#[test]
fn line_navigation() {
    let mut b = Buffer::new("line1\nline2\nline3".into());
    b.move_down(1);
    assert_eq!(b.cursor_lc(), (1, 0));
    b.move_to_line_end();
    assert_eq!(b.cursor_lc(), (1, 5));
}

fn at(content: &str, cursor: usize) -> Buffer {
    let mut b = Buffer::new(content.to_string());
    b.set_cursor(cursor);
    b
}

#[test]
fn cursor_is_taken_down_to_a_boundary() {
    let mut b = Buffer::new("aé€😀".to_string());
    // boundaries: 0 1 3 6 10
    let expected = [0, 1, 1, 3, 3, 3, 6, 6, 6, 6, 10, 10];
    for (i, e) in expected.iter().enumerate() {
        b.set_cursor(i);
        assert_eq!(b.cursor(), *e);
    }
    b.set_cursor(usize::MAX);
    assert_eq!(b.cursor(), 10);
    assert_eq!(b.len(), 10);
}

#[test]
fn backspace_removes_whole_characters() {
    let mut b = at("a😀é", 7);
    b.delete_backward();
    assert_eq!((b.as_str(), b.cursor()), ("a😀", 5));
    b.delete_backward();
    assert_eq!((b.as_str(), b.cursor()), ("a", 1));
    b.delete_backward();
    b.delete_backward();
    assert_eq!((b.as_str(), b.cursor()), ("", 0));
}

#[test]
fn insert_then_backspace_is_nothing() {
    for c in ['x', 'é', '€', '😀', '\n'] {
        let mut b = at("one two", 3);
        b.insert(&c.to_string());
        b.delete_backward();
        assert_eq!((b.as_str(), b.cursor()), ("one two", 3));
    }
}

#[test]
fn delete_char_forward_removes_whole_characters() {
    let mut b = at("é😀\nx", 2);
    b.delete_char_forward();
    assert_eq!((b.as_str(), b.cursor()), ("é\nx", 2));
    b.delete_char_forward();
    assert_eq!(b.as_str(), "éx");
    b.set_cursor(3);
    b.delete_char_forward();
    assert_eq!((b.as_str(), b.cursor()), ("éx", 3));
}

#[test]
fn ranges_are_clamped() {
    let mut b = at("héllo", 0);
    b.delete_range(2, 4); // 2 is inside `é`
    assert_eq!((b.as_str(), b.cursor()), ("hlo", 1));
    b.delete_range(3, 1);
    assert_eq!((b.as_str(), b.cursor()), ("hlo", 1));
    b.delete_range(1, 100);
    assert_eq!((b.as_str(), b.cursor()), ("h", 1));
    b.replace_range(0, 100, "wörld");
    assert_eq!((b.as_str(), b.cursor()), ("wörld", 6));
    b.replace_range(4, 1, "!");
    assert_eq!((b.as_str(), b.cursor()), ("wör!ld", 5));
}

#[test]
fn line_counts() {
    for (t, n) in [("", 1), ("a", 1), ("a\n", 1), ("\n", 1), ("a\nb", 2), ("a\n\n", 2), ("\n\nx", 3)] {
        assert_eq!(Buffer::new(t.to_string()).line_count(), n);
    }
}

#[test]
fn line_starts_and_ends() {
    let b = Buffer::new("ab\n\ncd".to_string());
    let starts: Vec<usize> = (0..5).map(|k| b.line_start(k)).collect();
    assert_eq!(starts, vec![0, 3, 4, 6, 6]);
    let ends: Vec<usize> = (0..5).map(|k| b.line_end(k)).collect();
    assert_eq!(ends, vec![2, 3, 6, 6, 6]);
}

#[test]
fn line_of_cursor_has_its_number() {
    let t = "ab\n\nécd\n";
    for i in 0..=t.len() {
        let b = at(t, i);
        let (line, col) = b.cursor_lc();
        assert_eq!(b.line_start(line) + col, b.cursor());
    }
}

#[test]
fn push_newline_keeps_the_cursor() {
    let mut b = at("ab", 1);
    b.push_newline_at_end();
    assert_eq!((b.as_str(), b.cursor()), ("ab\n", 1));
}

#[test]
fn left_and_right() {
    let mut b = at("aé\nb", 3);
    b.move_left(1);
    assert_eq!(b.cursor(), 1);
    b.move_left(9);
    assert_eq!(b.cursor(), 0);
    b.move_right(9);
    assert_eq!(b.cursor(), 1); // the next step would land on the newline
    b.set_cursor(3);
    b.move_right(1);
    assert_eq!(b.cursor(), 4);
    b.move_right(5);
    assert_eq!(b.cursor(), 5);
}

#[test]
fn vertical_motion_keeps_to_boundaries() {
    let mut b = at("abcd\né€\nxyz", 3);
    b.move_down(1); // byte column 3 is inside `€`
    assert_eq!(b.cursor(), 7);
    b.insert("-");
    assert_eq!(b.as_str(), "abcd\né-€\nxyz");
    let mut b = at("a\nlonger", 7);
    b.move_up(usize::MAX);
    assert_eq!(b.cursor(), 1);
    b.move_down(usize::MAX);
    assert_eq!(b.cursor(), 3);
}

#[test]
fn down_from_behind_a_final_newline() {
    // The place behind the last newline is no line of its own for `move_down`.
    let mut b = at("ab\n", 3);
    assert_eq!(b.cursor_lc(), (1, 0));
    b.move_down(1);
    assert_eq!(b.cursor(), 0);
    let mut b = at("ab\ncd\n", 1);
    b.move_down(5);
    assert_eq!(b.cursor(), 4);
}

#[test]
fn line_start_end_and_first_nonblank() {
    let mut b = at("x\n \u{3000}\tfoo bar\n", 9);
    b.move_to_line_start();
    assert_eq!(b.cursor(), 2);
    b.move_to_first_nonblank();
    assert_eq!(b.cursor(), 7);
    b.move_to_line_end();
    assert_eq!(b.cursor(), 14);
    let mut b = at("   \nx", 2);
    b.move_to_first_nonblank();
    assert_eq!(b.cursor(), 0);
}

#[test]
fn first_and_last_line() {
    let mut b = at("one\ntwo\nthree", 5);
    b.move_to_last_line();
    assert_eq!(b.cursor(), 8);
    b.move_to_first_line();
    assert_eq!(b.cursor(), 0);
    let mut b = at("one\ntwo\n", 0);
    b.move_to_last_line();
    assert_eq!(b.cursor(), 4);
}

#[test]
fn word_motions() {
    let t = "foo_1, bär  baz";
    let mut b = at(t, 0);
    b.move_word_forward(1);
    assert_eq!(b.cursor(), 7);
    b.move_word_forward(1); // `ä` is no word byte
    assert_eq!(b.cursor(), 10);
    b.move_word_forward(9);
    assert_eq!(b.cursor(), t.len());
    b.move_word_backward(1);
    assert_eq!(b.cursor(), 13);
    b.move_word_backward(usize::MAX);
    assert_eq!(b.cursor(), 0);
    b.move_word_end(1);
    assert_eq!(b.cursor(), 4);
    b.move_word_end(1);
    assert_eq!(b.cursor(), 7);
    b.move_word_end(usize::MAX);
    assert_eq!(b.cursor(), t.len() - 1);
    let mut b = at("a  ", 0);
    b.move_word_end(1);
    assert_eq!(b.cursor(), 3);
}

#[test]
fn current_line_ranges() {
    assert_eq!(at("ab\ncd", 1).current_line_range(), (0, 3));
    assert_eq!(at("ab\ncd", 4).current_line_range(), (3, 5));
    assert_eq!(at("ab\n", 3).current_line_range(), (3, 3));
}

#[test]
fn set_content_and_clone() {
    let mut b = at("abc", 2);
    let c = b.clone();
    b.set_content("x".to_string());
    assert_eq!((b.as_str(), b.cursor()), ("x", 0));
    assert_eq!((c.as_str(), c.cursor()), ("abc", 2));
}
