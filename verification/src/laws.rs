//! What holds of the tokenizer and the parser together, proved from
//! their definitions.

use vstd::prelude::*;
use crate::charset::{is_digit, is_operator, is_space, is_word, lowercase, CharClass};
use crate::lexar::token::Lexeme;
use crate::lexar::{
    is_handed_on, is_keyword, lemma_line_break, lemma_literal_end, lemma_run_end, lemma_run_end_is,
    lemma_scan_advances, line_break, line_lexed, lines_from, lines_lexed, literal, punctuation,
    run_end, scan, text_lexed, word_token, Lexed, Scan,
};

use crate::number::{
    all_digits, digits_value, has_sign, int_of_text, lemma_digits_value_nonnegative,
};
use crate::parser::{
    is_declaration, lemma_statement_end, parsed, parsed_from, statement, statement_end,
    Diagnostic, InstructionModel,
    ParsedModel, ValueModel, VariableModel,
};

verus! {

/// The scanner gives no string token with an empty text.
pub proof fn law_scan_gives_no_empty_string(s: Seq<char>, pos: int)
    requires
        0 <= pos <= s.len(),
    ensures
        scan(s, pos).token is String ==> scan(s, pos).token.text().len() > 0,
    decreases s.len() - pos,
{
    let a = run_end(s, pos, CharClass::Space);
    lemma_run_end(s, pos, CharClass::Space);
    lemma_run_end(s, a, CharClass::Digit);
    lemma_run_end(s, a, CharClass::Word);
    if a < s.len() && s[a] == '"' {
        lemma_literal_end(s, a + 1);
        let lit = literal(s, a + 1);
        if lit.text.len() == 0 {
            law_scan_gives_no_empty_string(s, lit.end);
        }
    }
}

/// An empty string literal leaves nothing behind: where white space
/// runs from `pos` up to an opening quote that its closing quote
/// follows at once, the token at `pos`, the place behind it and its
/// warnings are those of the scan from behind the literal.
pub proof fn law_empty_literal_leaves_nothing(s: Seq<char>, pos: int, a: int)
    requires
        0 <= pos <= a,
        a + 1 < s.len(),
        forall|k: int| pos <= k < a ==> is_space(#[trigger] s[k]),
        s[a] == '"',
        s[a + 1] == '"',
    ensures
        scan(s, pos) == scan(s, a + 2),
{
    lemma_run_end_is(s, pos, a, CharClass::Space);
    lemma_run_end_is(s, a, a, CharClass::Digit);
    lemma_run_end_is(s, a, a, CharClass::Word);
    let lit = literal(s, a + 1);
    assert(lit.text.len() == 0 && lit.end == a + 2);
    assert(lit.warnings + scan(s, a + 2).warnings =~= scan(s, a + 2).warnings);
}

/// The tokens of a line are never none, the last of them ends a
/// statement, none of them is the end of a line, and none is a string
/// without a text.
pub proof fn law_line_closes_its_statement(s: Seq<char>, pos: int)
    requires
        0 <= pos <= s.len(),
    ensures
        line_lexed(s, pos).tokens.len() > 0,
        line_lexed(s, pos).tokens.last() is ExpressionEnd,
        forall|i: int|
            0 <= i < line_lexed(s, pos).tokens.len() ==> is_handed_on(
                #[trigger] line_lexed(s, pos).tokens[i],
            ),
    decreases s.len() - pos,
{
    let first = scan(s, pos);
    lemma_scan_advances(s, pos);
    law_scan_gives_no_empty_string(s, pos);
    if !(first.token is LineEnd) {
        law_line_closes_its_statement(s, first.end);
        let rest = line_lexed(s, first.end).tokens;
        assert(line_lexed(s, pos).tokens =~= seq![first.token] + rest);
        assert forall|i: int| 0 <= i < line_lexed(s, pos).tokens.len() implies is_handed_on(
            #[trigger] line_lexed(s, pos).tokens[i],
        ) by {
            if i > 0 {
                assert(line_lexed(s, pos).tokens[i] == rest[i - 1]);
            }
        }
    }
}

/// The scanner ends a statement only at a semicolon.
pub proof fn law_scan_ends_at_semicolon(s: Seq<char>, pos: int)
    requires
        0 <= pos <= s.len(),
        scan(s, pos).token is ExpressionEnd,
    ensures
        exists|k: int| pos <= k < s.len() && s[k] == ';',
    decreases s.len() - pos,
{
    let a = run_end(s, pos, CharClass::Space);
    lemma_run_end(s, pos, CharClass::Space);
    lemma_run_end(s, a, CharClass::Digit);
    lemma_run_end(s, a, CharClass::Word);
    if a < s.len() && s[a] == '"' {
        lemma_literal_end(s, a + 1);
        let lit = literal(s, a + 1);
        if lit.text.len() == 0 {
            law_scan_ends_at_semicolon(s, lit.end);
            let k = choose|k: int| lit.end <= k < s.len() && s[k] == ';';
            assert(pos <= k < s.len() && s[k] == ';');
        }
    } else {
        assert(pos <= a < s.len() && s[a] == ';');
    }
}

/// A line that holds no semicolon is one statement all the same: its
/// last token ends a statement, and no token before the last does.
pub proof fn law_line_without_semicolon(s: Seq<char>, pos: int)
    requires
        0 <= pos <= s.len(),
        forall|k: int| pos <= k < s.len() ==> s[k] != ';',
    ensures
        line_lexed(s, pos).tokens.len() > 0,
        line_lexed(s, pos).tokens.last() is ExpressionEnd,
        forall|i: int|
            0 <= i < line_lexed(s, pos).tokens.len() - 1 ==> !(
            #[trigger] line_lexed(s, pos).tokens[i] is ExpressionEnd),
    decreases s.len() - pos,
{
    let first = scan(s, pos);
    lemma_scan_advances(s, pos);
    law_line_closes_its_statement(s, pos);
    if !(first.token is LineEnd) {
        law_line_without_semicolon(s, first.end);
        let rest = line_lexed(s, first.end).tokens;
        assert(line_lexed(s, pos).tokens =~= seq![first.token] + rest);
        if first.token is ExpressionEnd {
            law_scan_ends_at_semicolon(s, pos);
        }
        assert forall|i: int| 0 <= i < line_lexed(s, pos).tokens.len() - 1 implies !(
        #[trigger] line_lexed(s, pos).tokens[i] is ExpressionEnd) by {
            if i > 0 {
                assert(line_lexed(s, pos).tokens[i] == rest[i - 1]);
            }
        }
    }
}

/// Where white space runs from `pos` up to `a` and a run of digits
/// from `a` up to `d`, the token at `pos` is the number of that run.
pub proof fn lemma_scan_number(s: Seq<char>, pos: int, a: int, d: int)
    requires
        0 <= pos <= a < d <= s.len(),
        forall|k: int| pos <= k < a ==> is_space(#[trigger] s[k]),
        forall|k: int| a <= k < d ==> is_digit(#[trigger] s[k]),
        d < s.len() ==> !is_digit(s[d]),
    ensures
        scan(s, pos) == (Scan { token: Lexeme::Number(s.subrange(a, d)), end: d, warnings: seq![] }),
{
    assert(!is_space(s[a]));
    lemma_run_end_is(s, pos, a, CharClass::Space);
    lemma_run_end_is(s, a, d, CharClass::Digit);
}

/// Where white space runs from `pos` up to `a` and a run of word
/// characters from `a` up to `w`, the first of them no digit, the
/// token at `pos` is the word of that run.
pub proof fn lemma_scan_word(s: Seq<char>, pos: int, a: int, w: int)
    requires
        0 <= pos <= a < w <= s.len(),
        forall|k: int| pos <= k < a ==> is_space(#[trigger] s[k]),
        !is_space(s[a]),
        !is_digit(s[a]),
        forall|k: int| a <= k < w ==> is_word(#[trigger] s[k]),
        w < s.len() ==> !is_word(s[w]),
    ensures
        scan(s, pos) == (Scan { token: word_token(s.subrange(a, w)), end: w, warnings: seq![] }),
{
    lemma_run_end_is(s, pos, a, CharClass::Space);
    lemma_run_end_is(s, a, a, CharClass::Digit);
    lemma_run_end_is(s, a, w, CharClass::Word);
}

/// Where white space runs from `pos` up to an operator character, the
/// token at `pos` is that operator.
pub proof fn lemma_scan_operator(s: Seq<char>, pos: int, a: int)
    requires
        0 <= pos <= a < s.len(),
        forall|k: int| pos <= k < a ==> is_space(#[trigger] s[k]),
        is_operator(s[a]),
    ensures
        scan(s, pos) == (Scan { token: Lexeme::Operator(seq![s[a]]), end: a + 1, warnings: seq![] }),
{
    lemma_run_end_is(s, pos, a, CharClass::Space);
    lemma_run_end_is(s, a, a, CharClass::Digit);
    lemma_run_end_is(s, a, a, CharClass::Word);
}

/// Where white space runs from `pos` up to a comma, a semicolon or
/// the end of the line, the token at `pos` is the punctuation there.
pub proof fn lemma_scan_punctuation(s: Seq<char>, pos: int, a: int)
    requires
        0 <= pos <= a <= s.len(),
        forall|k: int| pos <= k < a ==> is_space(#[trigger] s[k]),
        a < s.len() ==> s[a] == ',' || s[a] == ';',
    ensures
        scan(s, pos) == punctuation(s, a),
{
    lemma_run_end_is(s, pos, a, CharClass::Space);
    lemma_run_end_is(s, a, a, CharClass::Digit);
    lemma_run_end_is(s, a, a, CharClass::Word);
}

/// A text without a line feed that is not empty is one line.
pub proof fn lemma_single_line(s: Seq<char>)
    requires
        s.len() > 0,
        forall|k: int| 0 <= k < s.len() ==> s[k] != '\n',
    ensures
        lines_from(s, 0) == seq![s],
        text_lexed(s) == line_lexed(s, 0),
{
    lemma_line_break(s, 0);
    assert(line_break(s, 0) == s.len());
    assert(s.subrange(0, s.len() as int) =~= s);
    let lines = lines_from(s, 0);
    assert(lines =~= seq![s]);
    assert(lines.drop_last() =~= Seq::<Seq<char>>::empty());
    assert(lines_lexed(lines.drop_last()) == Lexed::nothing());
    let line = line_lexed(s, 0);
    assert(Lexed::nothing().then_also(line).tokens =~= line.tokens);
    assert(Lexed::nothing().then_also(line).warnings =~= line.warnings);
}

/// A text that the scanner reads as one identifier: word characters,
/// the first of them no digit and no white space, that spell no
/// reserved word in any casing.
pub open spec fn is_identifier_text(ident: Seq<char>) -> bool {
    &&& ident.len() > 0
    &&& forall|k: int| 0 <= k < ident.len() ==> is_word(#[trigger] ident[k])
    &&& !is_digit(ident[0])
    &&& !is_space(ident[0])
    &&& !is_keyword(lowercase(ident))
}

/// Decimal digits that write a number which a 32-bit signed integer
/// holds.
pub open spec fn is_number_text(digits: Seq<char>) -> bool {
    &&& digits.len() > 0
    &&& all_digits(digits)
    &&& digits_value(digits) <= i32::MAX
}

/// The declaration of `ident` with the number `digits`, without a
/// semicolon.
pub open spec fn declaration_line(ident: Seq<char>, digits: Seq<char>) -> Seq<char> {
    "let "@ + ident + " = "@ + digits
}

/// The four tokens of such a declaration.
pub open spec fn declaration_tokens(ident: Seq<char>, digits: Seq<char>) -> Seq<Lexeme> {
    seq![
        Lexeme::Keyword("let"@),
        Lexeme::Identifier(ident),
        Lexeme::Operator("="@),
        Lexeme::Number(digits),
    ]
}

/// The instruction of such a declaration.
pub open spec fn declared(ident: Seq<char>, digits: Seq<char>) -> InstructionModel {
    InstructionModel::VariableCreate(
        VariableModel {
            identifier: ident,
            value: Some(ValueModel::Number(digits_value(digits) as i32)),
        },
    )
}

/// Whether the line `s` starts with the declaration of `ident` with
/// `digits`, character by character.
#[verifier::opaque]
spec fn starts_with_declaration(s: Seq<char>, ident: Seq<char>, digits: Seq<char>) -> bool {
    let n = ident.len() as int;
    let m = digits.len() as int;
    &&& s.len() >= 7 + n + m
    &&& s[0] == 'l' && s[1] == 'e' && s[2] == 't' && s[3] == ' '
    &&& forall|k: int| 4 <= k < 4 + n ==> #[trigger] s[k] == ident[k - 4]
    &&& s[4 + n] == ' ' && s[5 + n] == '=' && s[6 + n] == ' '
    &&& forall|k: int| 7 + n <= k < 7 + n + m ==> #[trigger] s[k] == digits[k - 7 - n]
    &&& s.len() > 7 + n + m ==> s[7 + n + m] == ';'
}

proof fn lemma_declaration_chars(ident: Seq<char>, digits: Seq<char>, tail: Seq<char>)
    requires
        tail.len() == 0 || tail == seq![';'],
    ensures
        starts_with_declaration(declaration_line(ident, digits) + tail, ident, digits),
        (declaration_line(ident, digits) + tail).len() == 7 + ident.len() + digits.len()
            + tail.len(),
        tail.len() > 0 ==> (declaration_line(ident, digits) + tail)[7 + ident.len() as int
            + digits.len() as int] == ';',
{
    reveal(starts_with_declaration);
    reveal_strlit("let ");
    reveal_strlit(" = ");
    let s = declaration_line(ident, digits) + tail;
    let n = ident.len() as int;
    let m = digits.len() as int;
    let a = "let "@;
    let b = " = "@;
    assert(a.len() == 4 && b.len() == 3);
    assert(s =~= a + (ident + (b + (digits + tail))));
    assert forall|k: int| 4 <= k < 4 + n implies #[trigger] s[k] == ident[k - 4] by {}
    assert forall|k: int| 7 + n <= k < 7 + n + m implies #[trigger] s[k] == digits[k - 7
        - n] by {}
}

proof fn lemma_declaration_keyword(s: Seq<char>, ident: Seq<char>, digits: Seq<char>)
    requires
        is_identifier_text(ident),
        starts_with_declaration(s, ident, digits),
    ensures
        scan(s, 0) == (Scan { token: Lexeme::Keyword("let"@), end: 3, warnings: seq![] }),
{
    reveal(starts_with_declaration);
    reveal_strlit("let");
    assert forall|k: int| 0 <= k < 3 implies is_word(#[trigger] s[k]) by {}
    lemma_scan_word(s, 0, 0, 3);
    let word = s.subrange(0, 3);
    assert(word =~= "let"@);
    assert(lowercase(word) =~= "let"@);
}

proof fn lemma_declaration_identifier(s: Seq<char>, ident: Seq<char>, digits: Seq<char>)
    requires
        is_identifier_text(ident),
        starts_with_declaration(s, ident, digits),
    ensures
        scan(s, 3) == (Scan {
            token: Lexeme::Identifier(ident),
            end: 4 + ident.len() as int,
            warnings: seq![],
        }),
{
    reveal(starts_with_declaration);
    let n = ident.len() as int;
    assert forall|k: int| 4 <= k < 4 + n implies is_word(#[trigger] s[k]) by {
        assert(s[k] == ident[k - 4]);
    }
    assert forall|k: int| 3 <= k < 4 implies is_space(#[trigger] s[k]) by {}
    assert(s[4] == ident[0]);
    lemma_scan_word(s, 3, 4, 4 + n);
    assert(s.subrange(4, 4 + n) =~= ident);
}

proof fn lemma_declaration_operator(s: Seq<char>, ident: Seq<char>, digits: Seq<char>)
    requires
        starts_with_declaration(s, ident, digits),
    ensures
        scan(s, 4 + ident.len() as int) == (Scan {
            token: Lexeme::Operator("="@),
            end: 6 + ident.len() as int,
            warnings: seq![],
        }),
{
    reveal(starts_with_declaration);
    reveal_strlit("=");
    let n = ident.len() as int;
    assert forall|k: int| 4 + n <= k < 5 + n implies is_space(#[trigger] s[k]) by {}
    lemma_scan_operator(s, 4 + n, 5 + n);
    assert(seq![s[5 + n]] =~= "="@);
}

proof fn lemma_declaration_number(s: Seq<char>, ident: Seq<char>, digits: Seq<char>)
    requires
        is_number_text(digits),
        starts_with_declaration(s, ident, digits),
    ensures
        scan(s, 6 + ident.len() as int) == (Scan {
            token: Lexeme::Number(digits),
            end: 7 + ident.len() as int + digits.len() as int,
            warnings: seq![],
        }),
{
    reveal(starts_with_declaration);
    let n = ident.len() as int;
    let m = digits.len() as int;
    assert forall|k: int| 7 + n <= k < 7 + n + m implies is_digit(#[trigger] s[k]) by {
        assert(s[k] == digits[k - 7 - n]);
    }
    assert forall|k: int| 6 + n <= k < 7 + n implies is_space(#[trigger] s[k]) by {}
    lemma_scan_number(s, 6 + n, 7 + n, 7 + n + m);
    assert(s.subrange(7 + n, 7 + n + m) =~= digits);
}

/// A token that is not the end of the line comes first, and the rest
/// of the line follows it.
pub proof fn lemma_line_goes_on(s: Seq<char>, pos: int, token: Lexeme, end: int)
    requires
        0 <= pos <= s.len(),
        scan(s, pos) == (Scan { token, end, warnings: seq![] }),
        !(token is LineEnd),
    ensures
        line_lexed(s, pos).tokens == seq![token] + line_lexed(s, end).tokens,
        line_lexed(s, pos).warnings == line_lexed(s, end).warnings,
{
    lemma_scan_advances(s, pos);
    let rest = line_lexed(s, end);
    assert(line_lexed(s, pos).tokens =~= seq![token] + rest.tokens);
    assert(line_lexed(s, pos).warnings =~= rest.warnings);
}

proof fn lemma_declaration_has_no_line_feed(s: Seq<char>, ident: Seq<char>, digits: Seq<char>)
    requires
        is_identifier_text(ident),
        is_number_text(digits),
        starts_with_declaration(s, ident, digits),
        s.len() <= 8 + ident.len() + digits.len(),
    ensures
        forall|k: int| 0 <= k < s.len() ==> s[k] != '\n',
{
    reveal(starts_with_declaration);
    let n = ident.len() as int;
    let m = digits.len() as int;
    assert forall|k: int| 0 <= k < s.len() implies s[k] != '\n' by {
        if 4 <= k < 4 + n {
            assert(s[k] == ident[k - 4]);
            assert(is_word(s[k]));
        } else if 7 + n <= k < 7 + n + m {
            assert(s[k] == digits[k - 7 - n]);
            assert(is_digit(s[k]));
        }
    }
}

/// The first four tokens of a line that starts with a declaration.
proof fn lemma_declaration_tokens(s: Seq<char>, ident: Seq<char>, digits: Seq<char>)
    requires
        is_identifier_text(ident),
        is_number_text(digits),
        starts_with_declaration(s, ident, digits),
        s.len() >= 7 + ident.len() + digits.len(),
    ensures
        line_lexed(s, 0).tokens == declaration_tokens(ident, digits) + line_lexed(
            s,
            7 + ident.len() as int + digits.len() as int,
        ).tokens,
        line_lexed(s, 0).warnings == line_lexed(
            s,
            7 + ident.len() as int + digits.len() as int,
        ).warnings,
{
    let n = ident.len() as int;
    let m = digits.len() as int;
    let stop: int = 7 + n + m;
    lemma_declaration_keyword(s, ident, digits);
    lemma_declaration_identifier(s, ident, digits);
    lemma_declaration_operator(s, ident, digits);
    lemma_declaration_number(s, ident, digits);
    lemma_line_goes_on(s, 0, Lexeme::Keyword("let"@), 3);
    lemma_line_goes_on(s, 3, Lexeme::Identifier(ident), 4 + n);
    lemma_line_goes_on(s, 4 + n, Lexeme::Operator("="@), 6 + n);
    lemma_line_goes_on(s, 6 + n, Lexeme::Number(digits), stop);
    let t1 = line_lexed(s, 3).tokens;
    let t2 = line_lexed(s, 4 + n).tokens;
    let t3 = line_lexed(s, 6 + n).tokens;
    let t4 = line_lexed(s, stop).tokens;
    lemma_four_tokens(
        Lexeme::Keyword("let"@),
        Lexeme::Identifier(ident),
        Lexeme::Operator("="@),
        Lexeme::Number(digits),
        t4,
    );
}

proof fn lemma_four_tokens(a: Lexeme, b: Lexeme, c: Lexeme, d: Lexeme, rest: Seq<Lexeme>)
    ensures
        seq![a] + (seq![b] + (seq![c] + (seq![d] + rest))) == seq![a, b, c, d] + rest,
{
    assert(seq![a] + (seq![b] + (seq![c] + (seq![d] + rest))) =~= seq![a, b, c, d] + rest);
}

/// The first four tokens of a declaration line, whatever closes it.
proof fn lemma_declaration_scans(ident: Seq<char>, digits: Seq<char>, tail: Seq<char>)
    requires
        is_identifier_text(ident),
        is_number_text(digits),
        tail.len() == 0 || tail == seq![';'],
    ensures
        ({
            let s = declaration_line(ident, digits) + tail;
            let stop: int = 7 + ident.len() as int + digits.len() as int;
            &&& s.len() == stop + tail.len()
            &&& line_lexed(s, 0).tokens == declaration_tokens(ident, digits) + line_lexed(
                s,
                stop,
            ).tokens
            &&& line_lexed(s, 0).warnings == line_lexed(s, stop).warnings
            &&& forall|k: int| 0 <= k < s.len() ==> s[k] != '\n'
            &&& tail.len() > 0 ==> s[stop] == ';'
        }),
{
    let s = declaration_line(ident, digits) + tail;
    lemma_declaration_chars(ident, digits, tail);
    lemma_declaration_has_no_line_feed(s, ident, digits);
    lemma_declaration_tokens(s, ident, digits);
}

/// What the parser makes of the four tokens of a declaration and the
/// statement end behind them.
proof fn lemma_declaration_parses(ident: Seq<char>, digits: Seq<char>, tokens: Seq<Lexeme>)
    requires
        is_number_text(digits),
        tokens.len() > 4,
        tokens.subrange(0, 4) == declaration_tokens(ident, digits),
        tokens[4] is ExpressionEnd,
    ensures
        statement_end(tokens, 0) == 4,
        statement(tokens.subrange(0, 4)) == Ok::<ParsedModel, Seq<char>>(
            ParsedModel::instruction(declared(ident, digits)),
        ),
{
    let head = declaration_tokens(ident, digits);
    assert forall|k: int| 0 <= k < 4 implies tokens[k] == head[k] by {
        assert(tokens.subrange(0, 4)[k] == tokens[k]);
    }
    assert(statement_end(tokens, 4) == 4);
    assert(statement_end(tokens, 3) == 4);
    assert(statement_end(tokens, 2) == 4);
    assert(statement_end(tokens, 1) == 4);
    assert(statement_end(tokens, 0) == 4);
    lemma_digits_value_nonnegative(digits);
    assert(!has_sign(digits));
    assert(int_of_text(digits) == Some(digits_value(digits)));
    assert(is_declaration(head));
}

/// A declaration of an identifier with a number, written in one line
/// without a semicolon, is scanned as the keyword, the identifier, the
/// operator, the number and the end of the statement, with no warning,
/// and parsed as the one instruction that creates the variable with
/// that number, with no diagnostic.
pub proof fn law_declaration(ident: Seq<char>, digits: Seq<char>)
    requires
        is_identifier_text(ident),
        is_number_text(digits),
    ensures
        text_lexed(declaration_line(ident, digits)) == (Lexed {
            tokens: declaration_tokens(ident, digits) + seq![Lexeme::ExpressionEnd(seq![])],
            warnings: seq![],
        }),
        parsed(text_lexed(declaration_line(ident, digits)).tokens) == Ok::<ParsedModel, Seq<char>>(
            ParsedModel::instruction(declared(ident, digits)),
        ),
{
    let s = declaration_line(ident, digits);
    let stop: int = 7 + ident.len() as int + digits.len() as int;
    assert(s + Seq::<char>::empty() =~= s);
    lemma_declaration_scans(ident, digits, seq![]);
    lemma_single_line(s);
    lemma_scan_punctuation(s, stop, stop);
    let tokens = line_lexed(s, 0).tokens;
    assert(line_lexed(s, stop).tokens =~= seq![Lexeme::ExpressionEnd(seq![])]);
    assert(tokens.subrange(0, 4) =~= declaration_tokens(ident, digits));
    lemma_declaration_parses(ident, digits, tokens);
}

/// The same declaration closed by a semicolon. The semicolon ends the
/// statement and the end of the line ends one more, an empty one: the
/// tokens hold two statement ends, and the parser gives the same one
/// instruction, with the diagnostic of the empty statement.
pub proof fn law_declaration_with_semicolon(ident: Seq<char>, digits: Seq<char>)
    requires
        is_identifier_text(ident),
        is_number_text(digits),
    ensures
        text_lexed(declaration_line(ident, digits) + ";"@) == (Lexed {
            tokens: declaration_tokens(ident, digits) + seq![
                Lexeme::ExpressionEnd(";"@),
                Lexeme::ExpressionEnd(seq![]),
            ],
            warnings: seq![],
        }),
        parsed(text_lexed(declaration_line(ident, digits) + ";"@).tokens) == Ok::<
            ParsedModel,
            Seq<char>,
        >(
            ParsedModel {
                instructions: seq![declared(ident, digits)],
                diagnostics: seq![Diagnostic::InvalidCall],
            },
        ),
{
    reveal_strlit(";");
    let tail = seq![';'];
    assert(tail =~= ";"@);
    let s = declaration_line(ident, digits) + tail;
    let stop: int = 7 + ident.len() as int + digits.len() as int;
    lemma_declaration_scans(ident, digits, tail);
    assert(s[stop] == ';');
    lemma_single_line(s);
    lemma_scan_punctuation(s, stop, stop);
    lemma_scan_punctuation(s, stop + 1, stop + 1);
    let tokens = line_lexed(s, 0).tokens;
    assert(seq![s[stop]] =~= ";"@);
    assert(line_lexed(s, stop + 1).tokens =~= seq![Lexeme::ExpressionEnd(seq![])]);
    assert(line_lexed(s, stop).tokens =~= seq![
        Lexeme::ExpressionEnd(";"@),
        Lexeme::ExpressionEnd(seq![]),
    ]);
    assert(line_lexed(s, stop).warnings =~= Seq::<char>::empty());
    assert(tokens.subrange(0, 4) =~= declaration_tokens(ident, digits));
    lemma_declaration_parses(ident, digits, tokens);
    assert(statement_end(tokens, 5) == 5);
    assert(tokens.subrange(5, 5) =~= Seq::<Lexeme>::empty());
    let first = ParsedModel::instruction(declared(ident, digits));
    let second = ParsedModel::diagnostic(Diagnostic::InvalidCall);
    assert(parsed_from(tokens, 5) == Ok::<ParsedModel, Seq<char>>(second));
    assert(first.then_also(second).instructions =~= seq![declared(ident, digits)]);
    assert(first.then_also(second).diagnostics =~= seq![Diagnostic::InvalidCall]);
}

/// Of the tokens of some lines none is the end of a line and none a
/// string without a text, and the last of them, if there is one, ends
/// a statement.
pub proof fn law_lines_are_handed_on(lines: Seq<Seq<char>>)
    ensures
        forall|i: int|
            0 <= i < lines_lexed(lines).tokens.len() ==> is_handed_on(
                #[trigger] lines_lexed(lines).tokens[i],
            ),
        lines.len() > 0 ==> lines_lexed(lines).tokens.len() > 0 && lines_lexed(
            lines,
        ).tokens.last() is ExpressionEnd,
    decreases lines.len(),
{
    if lines.len() > 0 {
        law_lines_are_handed_on(lines.drop_last());
        law_line_closes_its_statement(lines.last(), 0);
        let before = lines_lexed(lines.drop_last()).tokens;
        let line = line_lexed(lines.last(), 0).tokens;
        assert(lines_lexed(lines).tokens =~= before + line);
        assert forall|i: int| 0 <= i < lines_lexed(lines).tokens.len() implies is_handed_on(
            #[trigger] lines_lexed(lines).tokens[i],
        ) by {
            if i >= before.len() {
                assert(lines_lexed(lines).tokens[i] == line[i - before.len()]);
            }
        }
    }
}

/// A statement gives one instruction or none, never more.
pub proof fn law_statement_gives_one_at_most(slice: Seq<Lexeme>)
    ensures
        statement(slice) is Ok ==> statement(slice)->Ok_0.instructions.len() <= 1,
{
}

/// The parser's view of what follows a statement end is that of the
/// following tokens by themselves.
pub proof fn lemma_parsed_behind(before: Seq<Lexeme>, after: Seq<Lexeme>, start: int)
    requires
        0 <= start <= after.len(),
    ensures
        statement_end(before + after, before.len() + start) == before.len() + statement_end(
            after,
            start,
        ),
        parsed_from(before + after, before.len() + start) == parsed_from(after, start),
    decreases after.len() - start,
{
    let all = before + after;
    let n = before.len() as int;
    lemma_statement_end_behind(before, after, start);
    lemma_statement_end(after, start);
    let stop = statement_end(after, start);
    assert(all.subrange(n + start, n + stop) =~= after.subrange(start, stop));
    if stop + 1 < after.len() {
        lemma_parsed_behind(before, after, stop + 1);
    }
}

proof fn lemma_statement_end_behind(before: Seq<Lexeme>, after: Seq<Lexeme>, start: int)
    requires
        0 <= start <= after.len(),
    ensures
        statement_end(before + after, before.len() + start) == before.len() + statement_end(
            after,
            start,
        ),
    decreases after.len() - start,
{
    let all = before + after;
    if start < after.len() {
        assert(all[before.len() + start] == after[start]);
        if !(after[start] is ExpressionEnd) {
            lemma_statement_end_behind(before, after, start + 1);
        }
    }
}

/// Statements do not reach into one another. Where a statement is
/// closed and tokens follow, the whole gives what the statement gives,
/// whether an instruction or only a diagnostic, and then what the
/// following tokens give by themselves.
pub proof fn law_statements_are_independent(first: Seq<Lexeme>, end: Lexeme, rest: Seq<Lexeme>)
    requires
        forall|k: int| 0 <= k < first.len() ==> !(#[trigger] first[k] is ExpressionEnd),
        end is ExpressionEnd,
        rest.len() > 0,
    ensures
        parsed(first + seq![end] + rest) == match statement(first) {
            Ok(m) => m.then_try(parsed(rest)),
            Err(e) => Err(e),
        },
{
    let before = first + seq![end];
    let all = before + rest;
    let n = first.len() as int;
    lemma_statement_end(all, 0);
    let stop = statement_end(all, 0);
    if stop < n {
        assert(all[stop] == first[stop]);
    }
    if stop > n {
        assert(all[n] == end);
    }
    assert(stop == n);
    assert(all.subrange(0, n) =~= first);
    lemma_parsed_behind(before, rest, 0);
}

} // verus!
