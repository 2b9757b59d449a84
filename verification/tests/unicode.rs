use todizzy::decimal::decimal;
use todizzy::unicode::{
    char_text, is_control, is_white_space, utf16_to_utf8, utf16_width_of, utf8_to_utf16,
    utf8_width_of,
};

#[test]
fn character_properties_agree_with_the_standard_library() {
    for c in '\0'..=char::MAX {
        assert_eq!(is_white_space(c), c.is_whitespace());
        assert_eq!(is_control(c), c.is_control());
        assert_eq!(utf8_width_of(c), c.len_utf8());
        assert_eq!(utf16_width_of(c), c.len_utf16());
    }
}

#[test]
fn char_text_is_one_character() {
    for c in ['a', '\n', 'é', '€', '😀'] {
        assert_eq!(char_text(c), c.to_string());
    }
}

#[test]
fn utf16_offsets() {
    let t = "aé€😀b";
    // bytes: 0 1 3 6 10 11
    assert_eq!(utf8_to_utf16(t, 0), 0);
    assert_eq!(utf8_to_utf16(t, 3), 2);
    assert_eq!(utf8_to_utf16(t, 6), 3);
    assert_eq!(utf8_to_utf16(t, 10), 5);
    assert_eq!(utf8_to_utf16(t, 11), 6);
    assert_eq!(utf8_to_utf16(t, 500), 6);
    assert_eq!(utf16_to_utf8(t, 2), 3);
    assert_eq!(utf16_to_utf8(t, 4), 10); // inside the pair: behind it
    assert_eq!(utf16_to_utf8(t, 500), 11);
    assert_eq!(utf16_to_utf8("", 3), 0);
}

#[test]
fn utf16_round_trip_on_boundaries() {
    let t = "x😀\né€ y";
    let mut last = None;
    for i in 0..=t.len() {
        if t.is_char_boundary(i) {
            let u = utf8_to_utf16(t, i);
            assert_eq!(utf16_to_utf8(t, u), i);
            assert!(last < Some(u));
            last = Some(u);
        }
    }
}

#[test]
fn numbers_in_decimal() {
    for n in [0, 1, 9, 10, 99, 100, 1234567890, u32::MAX] {
        assert_eq!(decimal(n), n.to_string());
    }
}
