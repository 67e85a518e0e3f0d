//! The front end of a small line-oriented scripting language: a
//! tokenizer, and a parser that groups the tokens into instructions.
//!
//! Text becomes tokens, tokens become instructions, and each step is a
//! function of what it is given and of nothing else.

use vstd::prelude::*;
use crate::lexar::{scan_text, text_lexed, Lexed, Lexing};
use crate::parser::{parse, parsed, InvalidNumber, Parsed, ParsedModel};

pub mod charset;
pub mod compiler;
pub mod laws;
pub mod lexar;
pub mod number;
pub mod parser;
pub mod text;

verus! {

/// What the front end makes of a text: its tokens with their warnings,
/// and the instructions of those tokens with their diagnostics.
#[derive(Debug, Clone, PartialEq, Eq)]
pub struct Translation {
    pub lexing: Lexing,
    pub parsed: Parsed,
}

pub struct TranslationModel {
    pub lexed: Lexed,
    pub parsed: ParsedModel,
}

impl View for Translation {
    type V = TranslationModel;

    open spec fn view(&self) -> TranslationModel {
        TranslationModel { lexed: self.lexing@, parsed: self.parsed@ }
    }
}

/// What the front end makes of the text `s`: the text is scanned in
/// full, and then its tokens are parsed. A number that fits no 32-bit
/// integer leaves nothing but its own text.
pub open spec fn translated(s: Seq<char>) -> Result<TranslationModel, Seq<char>> {
    match parsed(text_lexed(s).tokens) {
        Ok(p) => Ok(TranslationModel { lexed: text_lexed(s), parsed: p }),
        Err(e) => Err(e),
    }
}

/// The view of what `translate` returns.
pub open spec fn outcome(r: Result<Translation, InvalidNumber>) -> Result<
    TranslationModel,
    Seq<char>,
> {
    match r {
        Ok(t) => Ok(t@),
        Err(e) => Err(e@),
    }
}

/// Scans a text and parses its tokens.
pub fn translate(input: &str) -> (r: Result<Translation, InvalidNumber>)
    ensures
        outcome(r) == translated(input@),
{
    let lexing = scan_text(input);
    match parse(&lexing.tokens) {
        Ok(parsed) => Ok(Translation { lexing, parsed }),
        Err(e) => Err(e),
    }
}

/// The front end is a function of the text: two runs on the same text
/// give the same tokens, warnings, instructions and diagnostics, or
/// fail with the same text.
pub proof fn law_same_text_same_translation(
    a: Seq<char>,
    b: Seq<char>,
    first: Result<Translation, InvalidNumber>,
    second: Result<Translation, InvalidNumber>,
)
    requires
        a == b,
        outcome(first) == translated(a),
        outcome(second) == translated(b),
    ensures
        outcome(first) == outcome(second),
{
}

} // verus!
