use icobasic::charset::{
    char_hex_value, char_is_digit, char_is_operator, char_is_space, char_is_word, char_of_byte,
};
use icobasic::compiler::{compile, compile_for, knows_target};
use icobasic::lexar::{lowercase_of, spells_keyword};
use icobasic::number::parse_i32;
use icobasic::parser::Instruction;

#[test]
fn decimal_text_with_and_without_sign() {
    assert_eq!(parse_i32("0"), Some(0));
    assert_eq!(parse_i32("42"), Some(42));
    assert_eq!(parse_i32("+42"), Some(42));
    assert_eq!(parse_i32("-42"), Some(-42));
    assert_eq!(parse_i32("-0"), Some(0));
    assert_eq!(parse_i32("0042"), Some(42));
    assert_eq!(parse_i32("2147483647"), Some(i32::MAX));
    assert_eq!(parse_i32("-2147483648"), Some(i32::MIN));
}

#[test]
fn text_that_writes_no_integer() {
    for text in ["", "+", "-", "--1", "+-1", "1-", "1 ", " 1", "12a", "a", "1_000", "\u{ff11}", "2147483648",
        "-2147483649", "99999999999999999999999999"]
    {
        assert_eq!(parse_i32(text), None);
    }
}

#[test]
fn decimal_text_as_the_standard_library_reads_it() {
    let samples = [
        "", "0", "7", "+7", "-7", "+", "-", "00", "-00", "+-7", "2147483647", "2147483648",
        "-2147483648", "-2147483649", "000000000002147483647", "21474836470", "1e3", "0x10", "١٢",
        "12\n", "4294967296", "-4294967296", "18446744073709551616",
    ];
    for text in samples {
        assert_eq!(parse_i32(text), text.parse::<i32>().ok());
    }
    for value in [-1000i32, -1, 0, 1, 9, 10, 99, 100, 65535, 1 << 30, i32::MAX, i32::MIN] {
        assert_eq!(parse_i32(&value.to_string()), Some(value));
    }
}

#[test]
fn ascii_classes_as_the_standard_library_has_them() {
    for code in 0u32..128 {
        let c = char::from_u32(code).unwrap();
        assert_eq!(char_is_space(c), c.is_whitespace());
        assert_eq!(char_is_digit(c), c.is_digit(10));
        assert_eq!(char_is_word(c), c.is_alphanumeric() || c == '$');
        assert_eq!(char_hex_value(c).map(|v| v as u32), c.to_digit(16));
    }
}

#[test]
fn classes_beyond_ascii_as_the_standard_library_has_them() {
    for code in 128u32..0x3000 {
        let c = char::from_u32(code).unwrap();
        assert_eq!(char_is_space(c), c.is_whitespace());
        assert_eq!(char_is_word(c), c.is_alphanumeric());
        assert!(!char_is_digit(c));
    }
    assert!(char_is_space('\u{a0}'));
    assert!(char_is_word('\u{e9}'));
    assert!(!char_is_word('\u{d7}'));
}

#[test]
fn the_five_operators() {
    for c in ['=', '+', '-', '/', '*'] {
        assert!(char_is_operator(c));
    }
    for c in ['%', '<', '>', '!', '&', '^', ',', ';', 'a', '1', ' '] {
        assert!(!char_is_operator(c));
    }
}

#[test]
fn bytes_are_code_points() {
    assert_eq!(char_of_byte(0x41), 'A');
    assert_eq!(char_of_byte(0), '\0');
    assert_eq!(char_of_byte(0xff), '\u{ff}');
}

#[test]
fn lower_casing_as_the_standard_library_does() {
    for text in ["LET", "Let", "let", "a$B9", "", "\u{c9}T\u{c9}", "brea\u{212a}", "\u{130}f", "\u{3a3}"] {
        let chars: Vec<char> = text.chars().collect();
        let low: String = lowercase_of(&chars).iter().collect();
        assert_eq!(low, text.to_lowercase());
    }
}

#[test]
fn the_six_reserved_words() {
    for word in ["if", "else", "for", "while", "break", "let"] {
        assert!(spells_keyword(&word.chars().collect()));
    }
    for word in ["", "i", "iff", "lets", "LET", "fn", "return"] {
        assert!(!spells_keyword(&word.chars().collect()));
    }
}

#[test]
fn known_targets_give_nothing_yet() {
    let instructions: Vec<Instruction> = Vec::new();
    for target in ["x86_64-linux-c99", "x86_64-win32-c99", "i686-linux-c99", "i686-win32-c99"] {
        assert!(knows_target(target));
        assert_eq!(compile_for(&instructions, target), Some(String::new()));
        assert_eq!(compile(&instructions, target.to_string()), "");
    }
}

#[test]
fn unknown_targets_give_none() {
    let instructions: Vec<Instruction> = Vec::new();
    for target in ["", "x86_64-linux", "X86_64-LINUX-C99", "arm-linux-c99", "i686-win32-c99 "] {
        assert!(!knows_target(target));
        assert_eq!(compile_for(&instructions, target), None);
    }
}
