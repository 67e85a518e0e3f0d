use icobasic::lexar::token::Token;
use icobasic::lexar::{lexar, next_token, scan_text, split_lines};

fn ident(s: &str) -> Token {
    Token::Identifier(s.to_string())
}

fn keyword(s: &str) -> Token {
    Token::Keyword(s.to_string())
}

fn number(s: &str) -> Token {
    Token::Number(s.to_string())
}

fn string(s: &str) -> Token {
    Token::String(s.to_string())
}

fn operator(s: &str) -> Token {
    Token::Operator(s.to_string())
}

fn comma() -> Token {
    Token::Seperator(",".to_string())
}

fn end(s: &str) -> Token {
    Token::ExpressionEnd(s.to_string())
}

fn unknown(s: &str) -> Token {
    Token::Unknown(s.to_string())
}

#[test]
fn declaration_without_semicolon() {
    assert_eq!(
        lexar("let x = 42"),
        vec![keyword("let"), ident("x"), operator("="), number("42"), end("")]
    );
}

#[test]
fn declaration_with_semicolon_closes_twice() {
    assert_eq!(
        lexar("let x = 42;"),
        vec![keyword("let"), ident("x"), operator("="), number("42"), end(";"), end("")]
    );
}

#[test]
fn call_with_three_numbers() {
    assert_eq!(
        lexar("foo 1, 2, 3;"),
        vec![
            ident("foo"),
            number("1"),
            comma(),
            number("2"),
            comma(),
            number("3"),
            end(";"),
            end("")
        ]
    );
}

#[test]
fn escaped_newline_is_decoded() {
    let tokens = lexar("\"a\\nb\"");
    assert_eq!(tokens, vec![string("a\nb"), end("")]);
}

#[test]
fn all_simple_escapes() {
    let tokens = lexar(r#""\n\r\t\\\"""#);
    assert_eq!(tokens, vec![string("\n\r\t\\\""), end("")]);
}

#[test]
fn byte_escape_of_either_case() {
    assert_eq!(lexar(r#""\x41\x6a\x6A\xe9""#), vec![string("Ajj\u{e9}"), end("")]);
}

#[test]
fn byte_escape_cut_short_is_dropped() {
    // One character is left behind the `x`: it goes with the escape.
    assert_eq!(lexar(r#""ab\x4"#), vec![string("ab"), end("")]);
    // None is left.
    assert_eq!(lexar(r#""ab\x"#), vec![string("ab"), end("")]);
    // The closing quote is taken for the first of the two.
    assert_eq!(lexar(r#""ab\x"c"#), vec![string("ab"), end("")]);
}

#[test]
fn byte_escape_without_hex_digits_is_dropped() {
    assert_eq!(lexar(r#""a\xzzb""#), vec![string("ab"), end("")]);
    assert_eq!(lexar(r#""a\x+fb""#), vec![string("ab"), end("")]);
}

#[test]
fn unknown_escape_is_kept_and_warned_of() {
    let lexing = scan_text(r#""a\qb" "\z""#);
    assert_eq!(lexing.tokens, vec![string("aqb"), string("z"), end("")]);
    assert_eq!(lexing.warnings, vec!['q', 'z']);
}

#[test]
fn lone_backslash_at_the_end_is_dropped() {
    let lexing = scan_text("\"ab\\");
    assert_eq!(lexing.tokens, vec![string("ab"), end("")]);
    assert_eq!(lexing.warnings, Vec::<char>::new());
}

#[test]
fn unclosed_literal_runs_to_the_end_of_the_line() {
    assert_eq!(lexar("\"abc; 1\nx"), vec![string("abc; 1"), end(""), ident("x"), end("")]);
}

#[test]
fn empty_literal_gives_no_token() {
    assert_eq!(lexar("\"\""), vec![end("")]);
    assert_eq!(lexar("foo \"\", 1"), vec![ident("foo"), comma(), number("1"), end("")]);
    assert_eq!(lexar("print \"\";"), vec![ident("print"), end(";"), end("")]);
}

#[test]
fn empty_literal_leaves_nothing_behind() {
    assert_eq!(lexar("foo \"\" 1"), vec![ident("foo"), number("1"), end("")]);
    assert_eq!(lexar("foo \"\" 1"), lexar("foo  1"));
    assert_eq!(lexar("\"\" x"), vec![ident("x"), end("")]);
    assert_eq!(lexar("\"\"abc"), vec![ident("abc"), end("")]);
    assert_eq!(lexar("\"\" \"\""), vec![end("")]);
    assert_eq!(lexar("\"\"\"\"\"a\""), vec![string("a"), end("")]);
    assert_eq!(lexar("\"\"+\"\"!"), vec![operator("+"), unknown("!"), end("")]);
}

#[test]
fn unclosed_empty_literal_closes_the_line() {
    assert_eq!(lexar("a \""), vec![ident("a"), end("")]);
    assert_eq!(lexar("a \"\\"), vec![ident("a"), end("")]);
}

#[test]
fn next_token_goes_on_behind_an_empty_literal() {
    let chars: Vec<char> = "\"\"\nrest".chars().collect();
    let mut cursor = 0usize;
    let mut warnings = Vec::new();
    let token = next_token(&chars, &mut cursor, &mut warnings);
    assert_eq!(token, ident("rest"));
    assert_eq!(cursor, 7);
    let token = next_token(&chars, &mut cursor, &mut warnings);
    assert_eq!(token, Token::LineEnd(String::new()));
    assert_eq!(cursor, 7);
    assert_eq!(warnings, Vec::<char>::new());
}

#[test]
fn keywords_in_any_casing_come_out_in_lower_case() {
    assert_eq!(
        lexar("IF Else fOr WHILE Break LET"),
        vec![
            keyword("if"),
            keyword("else"),
            keyword("for"),
            keyword("while"),
            keyword("break"),
            keyword("let"),
            end("")
        ]
    );
}

#[test]
fn identifiers_keep_their_casing() {
    assert_eq!(lexar("Foo $bar lets"), vec![ident("Foo"), ident("$bar"), ident("lets"), end("")]);
}

#[test]
fn digits_first_then_the_word() {
    assert_eq!(lexar("12ab"), vec![number("12"), ident("ab"), end("")]);
    assert_eq!(lexar("ab12"), vec![ident("ab12"), end("")]);
}

#[test]
fn operators_are_single_characters() {
    assert_eq!(
        lexar("a == b += 1"),
        vec![
            ident("a"),
            operator("="),
            operator("="),
            ident("b"),
            operator("+"),
            operator("="),
            number("1"),
            end("")
        ]
    );
    assert_eq!(lexar("-/*"), vec![operator("-"), operator("/"), operator("*"), end("")]);
}

#[test]
fn other_characters_are_unknown_one_by_one() {
    assert_eq!(lexar("!@"), vec![unknown("!"), unknown("@"), end("")]);
}

#[test]
fn words_beyond_ascii() {
    assert_eq!(lexar("\u{e9}t\u{e9} \u{3b1}1"), vec![ident("\u{e9}t\u{e9}"), ident("\u{3b1}1"), end("")]);
    // A full-width digit is no decimal digit but is alphanumeric.
    assert_eq!(lexar("\u{ff11}"), vec![ident("\u{ff11}"), end("")]);
    // The Kelvin sign lower-cases to the letter k.
    assert_eq!(lexar("brea\u{212a}"), vec![keyword("break"), end("")]);
}

#[test]
fn white_space_beyond_ascii_is_skipped() {
    assert_eq!(lexar("a\u{a0}\u{2003}b\u{b}\u{c}c"), vec![ident("a"), ident("b"), ident("c"), end("")]);
}

#[test]
fn every_line_closes_its_statement() {
    assert_eq!(
        lexar("a 1\nb 2\r\n\nc 3"),
        vec![
            ident("a"),
            number("1"),
            end(""),
            ident("b"),
            number("2"),
            end(""),
            end(""),
            ident("c"),
            number("3"),
            end("")
        ]
    );
}

#[test]
fn empty_text_has_no_tokens() {
    assert_eq!(lexar(""), Vec::<Token>::new());
    assert_eq!(lexar("\n"), vec![end("")]);
    assert_eq!(lexar("   "), vec![end("")]);
}

#[test]
fn lines_are_cut_at_line_feeds() {
    let chars: Vec<char> = "ab\r\ncd\n\nef\r".chars().collect();
    let lines: Vec<String> = split_lines(&chars).iter().map(|l| l.iter().collect()).collect();
    assert_eq!(lines, vec!["ab", "cd", "", "ef\r"]);
    let expected: Vec<String> = "ab\r\ncd\n\nef\r".lines().map(|l| l.to_string()).collect();
    assert_eq!(expected, vec!["ab", "cd", "", "ef\r"]);
}

#[test]
fn scanning_twice_gives_the_same() {
    let text = "let a = 1;\nfoo a, \"x\\q\"\n1 2 3;";
    assert_eq!(lexar(text), lexar(text));
    assert_eq!(scan_text(text).warnings, scan_text(text).warnings);
}
