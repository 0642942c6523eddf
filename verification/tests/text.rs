use imgtool::text::{
    char_is_whitespace, char_to_ascii_lower, chars_of, eq_lowercase, find_char, find_last_char,
    str_eq, trim_bounds,
};

fn trimmed(s: &str) -> String {
    let v = chars_of(s);
    let (lo, hi) = trim_bounds(&v, 0, v.len());
    v[lo..hi].iter().collect()
}

#[test]
fn white_space_is_that_of_unicode() {
    for code in 0..=0x10_ffffu32 {
        if let Some(c) = char::from_u32(code) {
            assert_eq!(char_is_whitespace(c), c.is_whitespace(), "{:#x}", code);
        }
    }
    assert!(char_is_whitespace(' '));
    assert!(char_is_whitespace('\u{3000}'));
    assert!(!char_is_whitespace('\u{200b}'));
    assert!(!char_is_whitespace('a'));
}

#[test]
fn lower_case_is_that_of_ascii() {
    for code in 0..=0x10_ffffu32 {
        if let Some(c) = char::from_u32(code) {
            assert_eq!(char_to_ascii_lower(c), c.to_ascii_lowercase(), "{:#x}", code);
        }
    }
    assert_eq!(char_to_ascii_lower('A'), 'a');
    assert_eq!(char_to_ascii_lower('Z'), 'z');
    assert_eq!(char_to_ascii_lower('É'), 'É');
    assert_eq!(char_to_ascii_lower('['), '[');
}

#[test]
fn characters_of_a_string() {
    assert_eq!(chars_of(""), Vec::<char>::new());
    assert_eq!(chars_of("aé日"), vec!['a', 'é', '日']);
}

#[test]
fn trimming_is_that_of_strings() {
    let inputs = ["", " ", "a", " a", "a ", "  a b  ", "\t\n x \r\n", "\u{a0}é\u{2003}", " \u{200b} ", "   "];
    for input in inputs {
        assert_eq!(trimmed(input), input.trim(), "{:?}", input);
    }
    assert_eq!(trimmed("  a b  "), "a b");
}

#[test]
fn trimming_a_part() {
    let v = chars_of("ab  cd  ef");
    assert_eq!(trim_bounds(&v, 2, 8), (4, 6));
    assert_eq!(trim_bounds(&v, 2, 4), (4, 4));
    assert_eq!(trim_bounds(&v, 0, 10), (0, 10));
    assert_eq!(trim_bounds(&v, 3, 3), (3, 3));
}

#[test]
fn first_and_last_position_of_a_character() {
    let v = chars_of("a=b=c");
    assert_eq!(find_char(&v, 0, 5, '='), 1);
    assert_eq!(find_char(&v, 2, 5, '='), 3);
    assert_eq!(find_char(&v, 4, 5, '='), 5);
    assert_eq!(find_char(&v, 0, 1, '='), 1);
    assert_eq!(find_char(&v, 0, 5, 'x'), 5);
    assert_eq!(find_last_char(&v, '='), Some(3));
    assert_eq!(find_last_char(&v, 'a'), Some(0));
    assert_eq!(find_last_char(&v, 'x'), None);
    assert_eq!(find_last_char(&Vec::new(), 'x'), None);
}

#[test]
fn equal_strings() {
    assert!(str_eq("", ""));
    assert!(str_eq("abc", "abc"));
    assert!(!str_eq("abc", "abd"));
    assert!(!str_eq("abc", "ab"));
    assert!(!str_eq("abc", "ABC"));
}

#[test]
fn equal_in_lower_case() {
    assert!(eq_lowercase("JPEG", "jpeg"));
    assert!(eq_lowercase("jPeG", "jpeg"));
    assert!(eq_lowercase("", ""));
    assert!(!eq_lowercase("jpeg", "JPEG"));
    assert!(!eq_lowercase("jpeg ", "jpeg"));
    assert!(!eq_lowercase("JPÉG", "jpég"));
    assert!(eq_lowercase("JPéG", "jpég"));
}
