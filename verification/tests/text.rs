use chia_compiler::common::text::{char_is_digit, char_is_whitespace, decimal_string};

#[test]
fn white_space_is_what_the_standard_library_calls_so() {
    let mut count = 0;
    for code in 0..=0x10ffff_u32 {
        match char::from_u32(code) {
            Some(c) => {
                assert_eq!(char_is_whitespace(c), c.is_whitespace(), "{:?}", c);
                if char_is_whitespace(c) {
                    count += 1;
                }
            }
            None => {}
        }
    }
    assert_eq!(count, 25);
}

#[test]
fn white_space_on_chosen_characters() {
    for c in [' ', '\t', '\n', '\r', '\u{b}', '\u{c}', '\u{a0}', '\u{2003}', '\u{3000}'] {
        assert!(char_is_whitespace(c), "{:?}", c);
    }
    for c in ['a', '0', ';', '_', '\u{8}', '\u{e}', '\u{200b}', '\u{180e}', '\u{feff}'] {
        assert!(!char_is_whitespace(c), "{:?}", c);
    }
}

#[test]
fn digits_are_the_ten_decimal_digits() {
    for code in 0..=0x10ffff_u32 {
        match char::from_u32(code) {
            Some(c) => assert_eq!(char_is_digit(c), c.is_digit(10), "{:?}", c),
            None => {}
        }
    }
    assert!(char_is_digit('0') && char_is_digit('9'));
    assert!(!char_is_digit('/') && !char_is_digit(':') && !char_is_digit('\u{663}'));
}

#[test]
fn numbers_are_rendered_in_decimal() {
    assert_eq!(decimal_string(0), "0");
    assert_eq!(decimal_string(7), "7");
    assert_eq!(decimal_string(10), "10");
    assert_eq!(decimal_string(109), "109");
    assert_eq!(decimal_string(9_876_543_210), "9876543210");
    assert_eq!(decimal_string(usize::MAX), usize::MAX.to_string());
    for n in 0..2000 {
        assert_eq!(decimal_string(n), n.to_string());
    }
}
