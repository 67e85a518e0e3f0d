//! The tokenizer: from the characters of a line to its tokens.

use vstd::prelude::*;
use crate::charset::{
    ascii_lower, byte_char, char_ascii_lower, char_hex_value, char_is_ascii,
    char_is_operator, char_of_byte, hex_value, is_ascii, is_operator, lowercase,
    to_unicode_lowercase,
    CharClass,
};
use crate::laws::law_lines_are_handed_on;
use crate::lexar::token::{lexemes, Lexeme, Token};
use crate::text::{chars_of, chars_of_range, spells, string_of, string_of_char, string_of_range};

pub mod token;

verus! {

/// Where the maximal run of characters of `class` that starts at `i`
/// ends: `i` itself where there is none.
pub open spec fn run_end(s: Seq<char>, i: int, class: CharClass) -> int
    decreases s.len() - i,
{
    if 0 <= i < s.len() && class.contains(s[i]) {
        run_end(s, i + 1, class)
    } else {
        i
    }
}

/// A run is made of characters of its class and stops at the first
/// character that is not, or at the end of the line.
pub proof fn lemma_run_end(s: Seq<char>, i: int, class: CharClass)
    requires
        0 <= i <= s.len(),
    ensures
        i <= run_end(s, i, class) <= s.len(),
        forall|k: int| i <= k < run_end(s, i, class) ==> class.contains(#[trigger] s[k]),
        run_end(s, i, class) < s.len() ==> !class.contains(s[run_end(s, i, class)]),
    decreases s.len() - i,
{
    if i < s.len() && class.contains(s[i]) {
        lemma_run_end(s, i + 1, class);
    }
}

/// Whatever position has these two properties is the end of the run.
pub proof fn lemma_run_end_is(s: Seq<char>, i: int, end: int, class: CharClass)
    requires
        0 <= i <= end <= s.len(),
        forall|k: int| i <= k < end ==> class.contains(#[trigger] s[k]),
        end < s.len() ==> !class.contains(s[end]),
    ensures
        run_end(s, i, class) == end,
    decreases end - i,
{
    if i < end {
        lemma_run_end_is(s, i + 1, end, class);
    }
}

/// Walks over the maximal run of `class` from `start`.
pub fn scan_run(chars: &Vec<char>, start: usize, class: CharClass) -> (end: usize)
    requires
        start <= chars.len(),
    ensures
        end == run_end(chars@, start as int, class),
        start <= end <= chars.len(),
{
    let mut pos: usize = start;
    while pos < chars.len() && class.holds(chars[pos])
        invariant
            start <= pos <= chars.len(),
            run_end(chars@, start as int, class) == run_end(chars@, pos as int, class),
        decreases chars.len() - pos,
    {
        pos += 1;
    }
    pos
}

/// The six reserved words.
pub open spec fn is_keyword(s: Seq<char>) -> bool {
    s == "if"@ || s == "else"@ || s == "for"@ || s == "while"@ || s == "break"@ || s == "let"@
}

/// The token of a run of word characters: a keyword, in lower case, where
/// the lower-cased run is a reserved word, else an identifier as written.
pub open spec fn word_token(run: Seq<char>) -> Lexeme {
    if is_keyword(lowercase(run)) {
        Lexeme::Keyword(lowercase(run))
    } else {
        Lexeme::Identifier(run)
    }
}

/// What one escape sequence contributes, `at` being the place of the
/// character behind the backslash.
pub struct Escape {
    /// The decoded characters: one, or none.
    pub text: Seq<char>,
    /// How many characters behind the backslash belong to the escape.
    pub used: int,
    /// The escaped character, where it names no escape.
    pub warnings: Seq<char>,
}

/// How many characters follow the `x` at `at`, up to the two that a
/// byte escape takes.
pub open spec fn hex_width(s: Seq<char>, at: int) -> int {
    if s.len() - (at + 1) >= 2 {
        2
    } else {
        s.len() - (at + 1)
    }
}

pub open spec fn escape(s: Seq<char>, at: int) -> Escape
    recommends
        0 <= at < s.len(),
{
    let c = s[at];
    if c == 'n' {
        Escape { text: seq!['\n'], used: 1, warnings: seq![] }
    } else if c == 'r' {
        Escape { text: seq!['\r'], used: 1, warnings: seq![] }
    } else if c == 't' {
        Escape { text: seq!['\t'], used: 1, warnings: seq![] }
    } else if c == '\\' {
        Escape { text: seq!['\\'], used: 1, warnings: seq![] }
    } else if c == '"' {
        Escape { text: seq!['"'], used: 1, warnings: seq![] }
    } else if c == 'x' {
        if hex_width(s, at) == 2 && hex_value(s[at + 1]) is Some && hex_value(s[at + 2]) is Some {
            Escape {
                text: seq![byte_char(16 * hex_value(s[at + 1])->0 + hex_value(s[at + 2])->0)],
                used: 3,
                warnings: seq![],
            }
        } else {
            Escape { text: seq![], used: 1 + hex_width(s, at), warnings: seq![] }
        }
    } else {
        Escape { text: seq![c], used: 1, warnings: seq![c] }
    }
}

/// A string literal as decoded from the place behind its opening quote.
pub struct Literal {
    /// The decoded text.
    pub text: Seq<char>,
    /// The place behind the closing quote, or the end of the line where
    /// the literal is not closed.
    pub end: int,
    /// The characters of the escapes that name no escape, in order.
    pub warnings: Seq<char>,
}

pub open spec fn literal(s: Seq<char>, i: int) -> Literal
    decreases s.len() - i,
{
    if i < 0 || i >= s.len() {
        Literal { text: seq![], end: i, warnings: seq![] }
    } else if s[i] == '"' {
        Literal { text: seq![], end: i + 1, warnings: seq![] }
    } else if s[i] == '\\' {
        if i + 1 >= s.len() {
            Literal { text: seq![], end: i + 1, warnings: seq![] }
        } else {
            let e = escape(s, i + 1);
            let rest = literal(s, i + 1 + e.used);
            Literal { text: e.text + rest.text, end: rest.end, warnings: e.warnings + rest.warnings }
        }
    } else {
        let rest = literal(s, i + 1);
        Literal { text: seq![s[i]] + rest.text, end: rest.end, warnings: rest.warnings }
    }
}

/// One scanned token, the place behind it, and the warnings that
/// scanning it gave.
pub struct Scan {
    pub token: Lexeme,
    pub end: int,
    pub warnings: Seq<char>,
}

/// The token at `p` where no number, word, operator or string starts
/// there: a comma, a semicolon, the end of the line, or one character
/// that is none of these.
pub open spec fn punctuation(s: Seq<char>, p: int) -> Scan {
    if p < 0 || p >= s.len() {
        Scan { token: Lexeme::LineEnd(seq![]), end: p, warnings: seq![] }
    } else if s[p] == ',' {
        Scan { token: Lexeme::Seperator(seq![s[p]]), end: p + 1, warnings: seq![] }
    } else if s[p] == ';' {
        Scan { token: Lexeme::ExpressionEnd(seq![s[p]]), end: p + 1, warnings: seq![] }
    } else if s[p] == '\n' {
        Scan { token: Lexeme::LineEnd(seq![s[p]]), end: p + 1, warnings: seq![] }
    } else {
        Scan { token: Lexeme::Unknown(seq![s[p]]), end: p + 1, warnings: seq![] }
    }
}

/// The next token of the line `s` from `pos` on. White space is skipped
/// first; then the first rule that applies gives the token: a run of
/// digits, a run of word characters, an operator, a string literal
/// whose text is not empty, and last the punctuation. A literal with an
/// empty text gives no token: the line is scanned on from the place
/// behind it, as if the literal were not there.
pub open spec fn scan(s: Seq<char>, pos: int) -> Scan
    decreases s.len() - pos,
    via scan_decreases
{
    let a = run_end(s, pos, CharClass::Space);
    let d = run_end(s, a, CharClass::Digit);
    let w = run_end(s, a, CharClass::Word);
    if d > a {
        Scan { token: Lexeme::Number(s.subrange(a, d)), end: d, warnings: seq![] }
    } else if w > a {
        Scan { token: word_token(s.subrange(a, w)), end: w, warnings: seq![] }
    } else if 0 <= a < s.len() && is_operator(s[a]) {
        Scan { token: Lexeme::Operator(seq![s[a]]), end: a + 1, warnings: seq![] }
    } else if 0 <= a < s.len() && s[a] == '"' {
        let lit = literal(s, a + 1);
        if lit.text.len() > 0 {
            Scan { token: Lexeme::String(lit.text), end: lit.end, warnings: lit.warnings }
        } else {
            let next = scan(s, lit.end);
            Scan { token: next.token, end: next.end, warnings: lit.warnings + next.warnings }
        }
    } else {
        punctuation(s, a)
    }
}

#[via_fn]
proof fn scan_decreases(s: Seq<char>, pos: int) {
    let a = run_end(s, pos, CharClass::Space);
    if 0 <= pos <= s.len() {
        lemma_run_end(s, pos, CharClass::Space);
    }
    if 0 <= a < s.len() {
        lemma_literal_end(s, a + 1);
    }
}

/// Lower-cases a run of characters.
pub fn lowercase_of(run: &Vec<char>) -> (low: Vec<char>)
    ensures
        low@ == lowercase(run@),
{
    let mut low: Vec<char> = Vec::new();
    let mut i: usize = 0;
    while i < run.len()
        invariant
            i <= run.len(),
            low.len() == i,
            forall|k: int| 0 <= k < i ==> is_ascii(#[trigger] run@[k]),
            forall|k: int| 0 <= k < i ==> low@[k] == ascii_lower(run@[k]),
        decreases run.len() - i,
    {
        if !char_is_ascii(run[i]) {
            let whole = string_of(run);
            let lowered = to_unicode_lowercase(whole.as_str());
            return chars_of(lowered.as_str());
        }
        low.push(char_ascii_lower(run[i]));
        i += 1;
    }
    proof {
        assert(low@ =~= run@.map_values(|c: char| ascii_lower(c)));
    }
    low
}

/// Whether a lower-cased run is a reserved word.
pub fn spells_keyword(low: &Vec<char>) -> (b: bool)
    ensures
        b == is_keyword(low@),
{
    spells(low, "if") || spells(low, "else") || spells(low, "for") || spells(low, "while")
        || spells(low, "break") || spells(low, "let")
}

fn read_word(chars: &Vec<char>, from: usize, to: usize) -> (token: Token)
    requires
        from <= to <= chars.len(),
    ensures
        token@ == word_token(chars@.subrange(from as int, to as int)),
{
    let run = chars_of_range(chars, from, to);
    let low = lowercase_of(&run);
    if spells_keyword(&low) {
        Token::Keyword(string_of(&low))
    } else {
        Token::Identifier(string_of(&run))
    }
}

fn read_escape(chars: &Vec<char>, at: usize, text: &mut String, warnings: &mut Vec<char>) -> (used:
    usize)
    requires
        at < chars.len(),
    ensures
        used == escape(chars@, at as int).used,
        1 <= used <= 3,
        at + used <= chars.len(),
        final(text)@ == old(text)@ + escape(chars@, at as int).text,
        final(warnings)@ == old(warnings)@ + escape(chars@, at as int).warnings,
{
    let c = chars[at];
    let ghost text0 = text@;
    let ghost warnings0 = warnings@;
    proof {
        assert(text0 + Seq::<char>::empty() =~= text0);
        assert(warnings0 + Seq::<char>::empty() =~= warnings0);
        assert forall|x: char| text0.push(x) =~= text0 + seq![x] by {}
        assert forall|x: char| warnings0.push(x) =~= warnings0 + seq![x] by {}
    }
    if c == 'n' {
        text.push('\n');
        1
    } else if c == 'r' {
        text.push('\r');
        1
    } else if c == 't' {
        text.push('\t');
        1
    } else if c == '\\' {
        text.push('\\');
        1
    } else if c == '"' {
        text.push('"');
        1
    } else if c == 'x' {
        if chars.len() - (at + 1) >= 2 {
            match (char_hex_value(chars[at + 1]), char_hex_value(chars[at + 2])) {
                (Some(high), Some(low)) => {
                    text.push(char_of_byte(16 * high + low));
                },
                _ => {},
            }
            3
        } else {
            1 + (chars.len() - (at + 1))
        }
    } else {
        text.push(c);
        warnings.push(c);
        1
    }
}

fn read_literal(chars: &Vec<char>, start: usize, warnings: &mut Vec<char>) -> (out: (String, usize))
    requires
        start <= chars.len(),
    ensures
        out.0@ == literal(chars@, start as int).text,
        out.1 == literal(chars@, start as int).end,
        start <= out.1 <= chars.len(),
        final(warnings)@ == old(warnings)@ + literal(chars@, start as int).warnings,
{
    let ghost warnings0 = warnings@;
    let ghost whole = literal(chars@, start as int);
    let mut text = String::new();
    let mut pos: usize = start;
    proof {
        assert(text@ + whole.text =~= whole.text);
    }
    while pos < chars.len()
        invariant
            start <= pos <= chars.len(),
            whole == literal(chars@, start as int),
            warnings0 == old(warnings)@,
            whole.text == text@ + literal(chars@, pos as int).text,
            whole.end == literal(chars@, pos as int).end,
            warnings0 + whole.warnings == warnings@ + literal(chars@, pos as int).warnings,
        decreases chars.len() - pos,
    {
        let c = chars[pos];
        let ghost text1 = text@;
        let ghost warnings1 = warnings@;
        let ghost here = literal(chars@, pos as int);
        if c == '"' {
            proof {
                assert(text1 + here.text =~= text1);
                assert(warnings1 + here.warnings =~= warnings1);
            }
            return (text, pos + 1);
        } else if c == '\\' {
            if pos + 1 >= chars.len() {
                proof {
                    assert(text1 + here.text =~= text1);
                    assert(warnings1 + here.warnings =~= warnings1);
                }
                return (text, pos + 1);
            }
            let used = read_escape(chars, pos + 1, &mut text, warnings);
            proof {
                let e = escape(chars@, pos + 1);
                let rest = literal(chars@, pos + 1 + e.used);
                assert(text1 + (e.text + rest.text) =~= (text1 + e.text) + rest.text);
                assert(warnings1 + (e.warnings + rest.warnings) =~= (warnings1 + e.warnings)
                    + rest.warnings);
            }
            pos = pos + 1 + used;
        } else {
            text.push(c);
            proof {
                let rest = literal(chars@, pos + 1);
                assert(text1 + (seq![c] + rest.text) =~= text1.push(c) + rest.text);
            }
            pos += 1;
        }
    }
    proof {
        let here = literal(chars@, pos as int);
        assert(text@ + here.text =~= text@);
        assert(warnings@ + here.warnings =~= warnings@);
    }
    (text, pos)
}

fn read_punctuation(chars: &Vec<char>, p: usize) -> (out: (Token, usize))
    requires
        p <= chars.len(),
    ensures
        out.0@ == punctuation(chars@, p as int).token,
        out.1 == punctuation(chars@, p as int).end,
        p <= out.1 <= chars.len(),
{
    if p >= chars.len() {
        return (Token::LineEnd(String::new()), p);
    }
    let c = chars[p];
    if c == ',' {
        (Token::Seperator(string_of_char(c)), p + 1)
    } else if c == ';' {
        (Token::ExpressionEnd(string_of_char(c)), p + 1)
    } else if c == '\n' {
        (Token::LineEnd(string_of_char(c)), p + 1)
    } else {
        (Token::Unknown(string_of_char(c)), p + 1)
    }
}

/// Scans the next token of the line from the cursor on and moves the
/// cursor behind it. An escape in a string literal that names no escape
/// adds its character to `warnings`.
pub fn next_token(chars: &Vec<char>, cursor: &mut usize, warnings: &mut Vec<char>) -> (token: Token)
    requires
        *old(cursor) <= chars.len(),
    ensures
        token@ == scan(chars@, *old(cursor) as int).token,
        *final(cursor) == scan(chars@, *old(cursor) as int).end,
        *final(cursor) <= chars.len(),
        final(warnings)@ == old(warnings)@ + scan(chars@, *old(cursor) as int).warnings,
{
    let ghost whole = scan(chars@, *cursor as int);
    let ghost warnings0 = warnings@;
    let mut from: usize = *cursor;
    loop
        invariant
            from <= chars.len(),
            whole == scan(chars@, *old(cursor) as int),
            warnings0 == old(warnings)@,
            whole.token == scan(chars@, from as int).token,
            whole.end == scan(chars@, from as int).end,
            warnings0 + whole.warnings == warnings@ + scan(chars@, from as int).warnings,
        decreases chars.len() - from,
    {
        let ghost here = scan(chars@, from as int);
        let ghost warnings1 = warnings@;
        proof {
            assert(warnings1 + Seq::<char>::empty() =~= warnings1);
        }
        let a = scan_run(chars, from, CharClass::Space);
        let d = scan_run(chars, a, CharClass::Digit);
        if d > a {
            *cursor = d;
            return Token::Number(string_of_range(chars, a, d));
        }
        let w = scan_run(chars, a, CharClass::Word);
        if w > a {
            *cursor = w;
            return read_word(chars, a, w);
        }
        if a < chars.len() && char_is_operator(chars[a]) {
            *cursor = a + 1;
            return Token::Operator(string_of_char(chars[a]));
        }
        if a < chars.len() && chars[a] == '"' {
            let (text, end) = read_literal(chars, a + 1, warnings);
            if text.as_str().unicode_len() > 0 {
                *cursor = end;
                return Token::String(text);
            }
            proof {
                let lit = literal(chars@, a + 1);
                let next = scan(chars@, end as int);
                assert(warnings1 + (lit.warnings + next.warnings) =~= (warnings1 + lit.warnings)
                    + next.warnings);
            }
            from = end;
        } else {
            let (token, end) = read_punctuation(chars, a);
            *cursor = end;
            return token;
        }
    }
}

/// A literal ends between its start and the end of the line.
pub proof fn lemma_literal_end(s: Seq<char>, i: int)
    requires
        0 <= i <= s.len(),
    ensures
        i <= literal(s, i).end <= s.len(),
    decreases s.len() - i,
{
    if i < s.len() && s[i] != '"' {
        if s[i] == '\\' {
            if i + 1 < s.len() {
                lemma_literal_end(s, i + 1 + escape(s, i + 1).used);
            }
        } else {
            lemma_literal_end(s, i + 1);
        }
    }
}

/// The scanner never moves back nor beyond the line, and every token
/// but the end of the line takes at least one character.
pub proof fn lemma_scan_advances(s: Seq<char>, pos: int)
    requires
        0 <= pos <= s.len(),
    ensures
        pos <= scan(s, pos).end <= s.len(),
        !(scan(s, pos).token is LineEnd) ==> pos < scan(s, pos).end,
    decreases s.len() - pos,
{
    let a = run_end(s, pos, CharClass::Space);
    lemma_run_end(s, pos, CharClass::Space);
    lemma_run_end(s, a, CharClass::Digit);
    lemma_run_end(s, a, CharClass::Word);
    if a < s.len() && s[a] == '"' {
        lemma_literal_end(s, a + 1);
        let lit = literal(s, a + 1);
        if lit.text.len() == 0 {
            lemma_scan_advances(s, lit.end);
        }
    }
}

/// The tokens of a stretch of text and the warnings that scanning it
/// gave, each in order.
pub struct Lexed {
    pub tokens: Seq<Lexeme>,
    pub warnings: Seq<char>,
}

impl Lexed {
    pub open spec fn nothing() -> Lexed {
        Lexed { tokens: seq![], warnings: seq![] }
    }

    /// What `self` holds, followed by what `next` holds.
    pub open spec fn then_also(self, next: Lexed) -> Lexed {
        Lexed { tokens: self.tokens + next.tokens, warnings: self.warnings + next.warnings }
    }
}

/// The tokens of the line `s` from `pos` on. The end of the line is
/// handed on as the end of a statement, and closes the line: what
/// stands behind it in the line is not scanned.
pub open spec fn line_lexed(s: Seq<char>, pos: int) -> Lexed
    decreases s.len() - pos,
    when 0 <= pos <= s.len()
    via line_lexed_decreases
{
    let first = scan(s, pos);
    match first.token {
        Lexeme::LineEnd(text) => Lexed {
            tokens: seq![Lexeme::ExpressionEnd(text)],
            warnings: first.warnings,
        },
        _ => Lexed { tokens: seq![first.token], warnings: first.warnings }.then_also(
            line_lexed(s, first.end),
        ),
    }
}

#[via_fn]
proof fn line_lexed_decreases(s: Seq<char>, pos: int) {
    lemma_scan_advances(s, pos);
}

/// The place of the first line feed at or behind `i`, or the end of the
/// text.
pub open spec fn line_break(s: Seq<char>, i: int) -> int
    decreases s.len() - i,
{
    if 0 <= i < s.len() && s[i] != '\n' {
        line_break(s, i + 1)
    } else {
        i
    }
}

pub proof fn lemma_line_break(s: Seq<char>, i: int)
    requires
        0 <= i <= s.len(),
    ensures
        i <= line_break(s, i) <= s.len(),
        forall|k: int| i <= k < line_break(s, i) ==> #[trigger] s[k] != '\n',
        line_break(s, i) < s.len() ==> s[line_break(s, i)] == '\n',
    decreases s.len() - i,
{
    if i < s.len() && s[i] != '\n' {
        lemma_line_break(s, i + 1);
    }
}

/// A line as it is handed to the scanner: without the carriage return
/// that stands before the line feed, where a line feed closes the line.
pub open spec fn without_return(raw: Seq<char>, closed: bool) -> Seq<char> {
    if closed && raw.len() > 0 && raw.last() == '\r' {
        raw.drop_last()
    } else {
        raw
    }
}

/// The lines of the text `s` from `start` on. A line feed closes a line
/// and belongs to none; text behind the last line feed is a line of its
/// own, and an empty text has no line.
pub open spec fn lines_from(s: Seq<char>, start: int) -> Seq<Seq<char>>
    decreases s.len() - start,
    when 0 <= start
    via lines_from_decreases
{
    if start >= s.len() {
        seq![]
    } else {
        let stop = line_break(s, start);
        let line = without_return(s.subrange(start, stop), stop < s.len());
        if stop < s.len() {
            seq![line] + lines_from(s, stop + 1)
        } else {
            seq![line]
        }
    }
}

#[via_fn]
proof fn lines_from_decreases(s: Seq<char>, start: int) {
    if 0 <= start < s.len() {
        lemma_line_break(s, start);
    }
}

/// The tokens and warnings of some lines, line after line.
pub open spec fn lines_lexed(lines: Seq<Seq<char>>) -> Lexed
    decreases lines.len(),
{
    if lines.len() == 0 {
        Lexed::nothing()
    } else {
        lines_lexed(lines.drop_last()).then_also(line_lexed(lines.last(), 0))
    }
}

/// A token as the line driver hands it on: never the end of a line,
/// and a string only with a text.
pub open spec fn is_handed_on(t: Lexeme) -> bool {
    &&& !(t is LineEnd)
    &&& t is String ==> t.text().len() > 0
}

/// The tokens and warnings of a whole text.
pub open spec fn text_lexed(s: Seq<char>) -> Lexed {
    lines_lexed(lines_from(s, 0))
}

/// The views of some lines of characters.
pub open spec fn line_views(lines: Seq<Vec<char>>) -> Seq<Seq<char>> {
    lines.map_values(|l: Vec<char>| l@)
}

/// Cuts a text into its lines.
pub fn split_lines(chars: &Vec<char>) -> (lines: Vec<Vec<char>>)
    ensures
        line_views(lines@) == lines_from(chars@, 0),
{
    let mut lines: Vec<Vec<char>> = Vec::new();
    let mut start: usize = 0;
    proof {
        assert(line_views(lines@) + lines_from(chars@, 0) =~= lines_from(chars@, 0));
    }
    while start < chars.len()
        invariant
            start <= chars.len(),
            line_views(lines@) + lines_from(chars@, start as int) == lines_from(chars@, 0),
        decreases chars.len() - start,
    {
        let mut stop: usize = start;
        while stop < chars.len() && chars[stop] != '\n'
            invariant
                start <= stop <= chars.len(),
                line_break(chars@, start as int) == line_break(chars@, stop as int),
            decreases chars.len() - stop,
        {
            stop += 1;
        }
        let closed = stop < chars.len();
        let trimmed = closed && stop > start && chars[stop - 1] == '\r';
        let line = if trimmed {
            chars_of_range(chars, start, stop - 1)
        } else {
            chars_of_range(chars, start, stop)
        };
        proof {
            let raw = chars@.subrange(start as int, stop as int);
            if trimmed {
                assert(raw.drop_last() =~= chars@.subrange(start as int, stop - 1));
            }
            assert(line@ == without_return(raw, closed));
            let rest = if closed {
                lines_from(chars@, stop + 1)
            } else {
                lines_from(chars@, stop as int)
            };
            assert(lines_from(chars@, start as int) =~= seq![line@] + rest);
            assert(line_views(lines@.push(line)) =~= line_views(lines@).push(line@));
            assert(line_views(lines@).push(line@) + rest =~= line_views(lines@) + (seq![line@]
                + rest));
        }
        lines.push(line);
        if closed {
            start = stop + 1;
        } else {
            start = stop;
        }
    }
    proof {
        assert(line_views(lines@) + lines_from(chars@, start as int) =~= line_views(lines@));
    }
    lines
}

/// The tokens of a text with the warnings of its string literals.
#[derive(Debug, Clone, PartialEq, Eq)]
pub struct Lexing {
    pub tokens: Vec<Token>,
    /// For each escape that names no escape, its character.
    pub warnings: Vec<char>,
}

impl View for Lexing {
    type V = Lexed;

    open spec fn view(&self) -> Lexed {
        Lexed { tokens: lexemes(self.tokens@), warnings: self.warnings@ }
    }
}

/// Scans one line and appends its tokens and warnings to `lexing`.
pub fn scan_line(chars: &Vec<char>, lexing: &mut Lexing)
    ensures
        final(lexing)@ == old(lexing)@.then_also(line_lexed(chars@, 0)),
{
    let mut cursor: usize = 0;
    let ghost before = lexing@;
    proof {
        assert(before.then_also(Lexed::nothing()).tokens =~= before.tokens);
        assert(before.then_also(Lexed::nothing()).warnings =~= before.warnings);
    }
    let ghost mut done = Lexed::nothing();
    loop
        invariant_except_break
            lexing@ == before.then_also(done),
            line_lexed(chars@, 0) == done.then_also(line_lexed(chars@, cursor as int)),
        invariant
            cursor <= chars.len(),
        ensures
            lexing@ == before.then_also(line_lexed(chars@, 0)),
        decreases chars.len() - cursor,
    {
        let ghost at = cursor as int;
        let ghost first = scan(chars@, at);
        let ghost tokens1 = lexing.tokens@;
        let ghost warnings1 = lexing.warnings@;
        proof {
            lemma_scan_advances(chars@, at);
        }
        let token = next_token(chars, &mut cursor, &mut lexing.warnings);
        match token {
            Token::LineEnd(text) => {
                let end = Token::ExpressionEnd(text);
                lexing.tokens.push(end);
                proof {
                    let last = line_lexed(chars@, at);
                    assert(lexemes(tokens1.push(end)) =~= lexemes(tokens1) + last.tokens);
                    assert(lexing@.tokens =~= before.then_also(done.then_also(last)).tokens);
                    assert(lexing@.warnings =~= before.then_also(done.then_also(last)).warnings);
                }
                break;
            },
            other => {
                lexing.tokens.push(other);
                proof {
                    let one = Lexed { tokens: seq![first.token], warnings: first.warnings };
                    let rest = line_lexed(chars@, first.end);
                    assert(line_lexed(chars@, at) == one.then_also(rest));
                    let next = done.then_also(one);
                    assert(lexemes(tokens1.push(other)) =~= lexemes(tokens1) + one.tokens);
                    assert(lexing@.tokens =~= before.then_also(next).tokens);
                    assert(lexing@.warnings =~= before.then_also(next).warnings);
                    assert(next.then_also(rest).tokens =~= done.then_also(one.then_also(rest)).tokens);
                    assert(next.then_also(rest).warnings =~= done.then_also(
                        one.then_also(rest),
                    ).warnings);
                    done = next;
                }
            },
        }
    }
}

/// Scans a text line by line and keeps the warnings.
pub fn scan_text(input: &str) -> (lexing: Lexing)
    ensures
        lexing@ == text_lexed(input@),
{
    let chars = chars_of(input);
    let lines = split_lines(&chars);
    let mut lexing = Lexing { tokens: Vec::new(), warnings: Vec::new() };
    let mut i: usize = 0;
    proof {
        assert(line_views(lines@).take(0) =~= Seq::<Seq<char>>::empty());
        assert(lexing@.tokens =~= Lexed::nothing().tokens);
    }
    while i < lines.len()
        invariant
            i <= lines.len(),
            lexing@ == lines_lexed(line_views(lines@).take(i as int)),
        decreases lines.len() - i,
    {
        scan_line(&lines[i], &mut lexing);
        proof {
            let upto = line_views(lines@).take(i + 1);
            assert(upto.drop_last() =~= line_views(lines@).take(i as int));
            assert(upto.last() == lines@[i as int]@);
        }
        i += 1;
    }
    proof {
        assert(line_views(lines@).take(lines@.len() as int) =~= line_views(lines@));
    }
    lexing
}

/// The tokens of a text. Each line is scanned by itself and closes
/// with the end of a statement, so that no statement spans two lines.
pub fn lexar(input: &str) -> (tokens: Vec<Token>)
    ensures
        lexemes(tokens@) == text_lexed(input@).tokens,
        forall|i: int| 0 <= i < tokens.len() ==> is_handed_on(#[trigger] tokens[i]@),
        tokens.len() > 0 ==> tokens[tokens.len() - 1]@ is ExpressionEnd,
{
    let tokens = scan_text(input).tokens;
    proof {
        law_lines_are_handed_on(lines_from(input@, 0));
        assert forall|i: int| 0 <= i < tokens.len() implies is_handed_on(#[trigger] tokens[i]@) by {
            assert(lexemes(tokens@)[i] == tokens[i]@);
        }
        if tokens.len() > 0 {
            assert(lexemes(tokens@).last() == tokens[tokens.len() - 1]@);
            if lines_from(input@, 0).len() == 0 {
                assert(text_lexed(input@).tokens.len() == 0);
            }
        }
    }
    tokens
}

} // verus!
