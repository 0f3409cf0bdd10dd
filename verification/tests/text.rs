use vaultify::text::{chars_of, decimal_string, digit, mount_char, name_char, path_char, scan, space, string_of, Class};

#[test]
fn white_space_is_what_std_calls_so() {
    for code in 0..=0x10ffffu32 {
        if let Some(c) = char::from_u32(code) {
            assert_eq!(space(c), c.is_whitespace(), "U+{:04X}", code);
        }
    }
}

#[test]
fn classes_hold_their_characters() {
    for code in 0..=0x10ffffu32 {
        if let Some(c) = char::from_u32(code) {
            let name = c.is_ascii_alphanumeric() || c == '_';
            assert_eq!(digit(c), c.is_ascii_digit());
            assert_eq!(name_char(c), name);
            assert_eq!(mount_char(c), name || c == '-' || c == '@');
            assert_eq!(path_char(c), name || c == '-' || c == '@' || c == '/');
            assert_eq!(Class::Line.test(c), c != '\n');
        }
    }
}

#[test]
fn decimal_is_what_std_prints() {
    for n in [0usize, 1, 9, 10, 11, 99, 100, 101, 404, 65535, 1_000_000, usize::MAX] {
        assert_eq!(decimal_string(n), n.to_string());
    }
    assert_eq!(decimal_string(1203), "1203");
}

#[test]
fn scans_stop_at_the_first_other_character() {
    let line = chars_of("ab_1-@/x#y");
    assert_eq!(scan(&line, 0, Class::Name), 4);
    assert_eq!(scan(&line, 0, Class::Mount), 6);
    assert_eq!(scan(&line, 0, Class::Path), 8);
    assert_eq!(scan(&line, 8, Class::Path), 8);
    assert_eq!(scan(&line, 0, Class::Line), 10);
    assert_eq!(scan(&line, 10, Class::Name), 10);
    assert_eq!(string_of(&line, 4, 8), "-@/x");
    assert_eq!(chars_of("\u{e9}x"), vec!['\u{e9}', 'x']);
}
