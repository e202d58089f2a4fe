use minicel::text::{
    chars_of, is_whitespace_char, push_decimal, run_end, same_text, split_lines, split_trimmed,
    split_untrimmed, string_from, trimmed_str, CharClass,
};

fn chars(text: &str) -> Vec<char> {
    text.chars().collect()
}

#[test]
fn chars_of_gives_the_characters() {
    assert_eq!(chars_of("aé✓"), vec!['a', 'é', '✓']);
    assert_eq!(chars_of(""), Vec::<char>::new());
}

#[test]
fn push_decimal_writes_a_number() {
    let mut s = String::from("n=");
    push_decimal(&mut s, 0);
    push_decimal(&mut s, 7);
    push_decimal(&mut s, 1205);
    assert_eq!(s, "n=071205");
    let mut s = String::new();
    push_decimal(&mut s, u128::MAX);
    assert_eq!(s, u128::MAX.to_string());
}

#[test]
fn white_space_is_what_std_takes_for_it() {
    for code in 0..0x3100u32 {
        if let Some(c) = char::from_u32(code) {
            assert_eq!(is_whitespace_char(c), c.is_whitespace(), "{:x}", code);
        }
    }
}

#[test]
fn trimming_is_what_std_does() {
    for text in ["", " ", " a ", "\t a b \r\n", "a", "  =x", "\u{3000}x\u{a0}"] {
        assert_eq!(trimmed_str(text), text.trim());
    }
}

#[test]
fn same_text_compares_strings() {
    assert!(same_text("sum", "sum"));
    assert!(!same_text("sum", "sun"));
    assert!(!same_text("sum", "su"));
    assert!(same_text("", ""));
}

#[test]
fn run_end_stops_at_the_first_other_character() {
    assert_eq!(run_end(&chars("abc1"), 0, CharClass::Letter), 3);
    assert_eq!(run_end(&chars("abc1"), 3, CharClass::Letter), 3);
    assert_eq!(run_end(&chars("==a"), 0, CharClass::Only('=')), 2);
    assert_eq!(run_end(&chars("a_1 "), 0, CharClass::Word), 3);
    assert_eq!(run_end(&chars("12"), 0, CharClass::Digit), 2);
}

#[test]
fn string_from_takes_a_range() {
    assert_eq!(string_from(&chars("hello"), 1, 3), "el");
    assert_eq!(string_from(&chars("hello"), 2, 2), "");
}

#[test]
fn splitting_is_what_std_does() {
    for text in ["", "a", "a,b", "a,,b", ",", "a,", ",a", " a , b "] {
        let expected: Vec<String> = text.split(',').map(|f| f.to_string()).collect();
        assert_eq!(split_untrimmed(&chars(text), ','), expected);
        let expected: Vec<String> = text.split(',').map(|f| f.trim().to_string()).collect();
        assert_eq!(split_trimmed(&chars(text), ','), expected);
    }
}

#[test]
fn lines_are_what_std_takes_for_them() {
    for text in ["", "a", "a\n", "a\nb", "a\r\nb\r\n", "\n", "\n\n", "a\n\nb", "a\r", "a\rb\n", "\r\n"] {
        let expected: Vec<String> = text.lines().map(|l| l.to_string()).collect();
        assert_eq!(split_lines(&chars(text)), expected, "{:?}", text);
    }
}
