//! The instruction parser: from tokens to instructions.
//!
//! The tokens between two statement ends are one statement. A statement
//! is held against the productions in their order, and the first that
//! fits decides what becomes of it.

use vstd::prelude::*;
use crate::lexar::token::{lexemes, Lexeme, Token};
use crate::number::{int_of_text, parse_i32};
use crate::text::text_is;

verus! {

/// The value that a variable is given.
#[derive(Debug, Clone, PartialEq, Eq)]
pub enum VariableType {
    Number(i32),
    String(String),
}

/// A variable by name, with the value it is given, if any.
#[derive(Debug, Clone, PartialEq, Eq)]
pub struct Variable {
    pub identifier: String,
    pub value: Option<VariableType>,
}

/// One argument of a call.
#[derive(Debug, Clone, PartialEq, Eq)]
pub enum FunctionArgument {
    /// A variable, by its name.
    Variable(String),
    String(String),
    Number(i32),
}

/// A call of a function by name, with its arguments in the order of the
/// source.
#[derive(Debug, Clone, PartialEq, Eq)]
pub struct FunctionCall {
    pub func_name: String,
    pub arguments: Vec<FunctionArgument>,
}

/// One parsed statement.
#[derive(Debug, Clone, PartialEq, Eq)]
pub enum Instruction {
    VariableCreate(Variable),
    VariableAssign(Variable),
    FunctionCall(FunctionCall),
}

/// Why a statement, or a part of one, gave nothing.
#[derive(Debug, Clone, Copy, PartialEq, Eq)]
pub enum Diagnostic {
    /// The value of a declaration or an assignment is no number, string
    /// or identifier.
    InvalidAssignment,
    /// An argument of a call is no number, string or identifier.
    InvalidArgument,
    /// In the arguments of a call a value stands where a comma is due,
    /// or the other way round.
    InvalidSeparation,
    /// The statement fits no production.
    InvalidCall,
}

/// The text of a number token that writes no 32-bit signed integer.
#[derive(Debug, Clone, PartialEq, Eq)]
pub struct InvalidNumber {
    pub text: String,
}

pub enum ValueModel {
    Number(i32),
    String(Seq<char>),
}

pub struct VariableModel {
    pub identifier: Seq<char>,
    pub value: Option<ValueModel>,
}

pub enum ArgumentModel {
    Variable(Seq<char>),
    String(Seq<char>),
    Number(i32),
}

pub struct CallModel {
    pub func_name: Seq<char>,
    pub arguments: Seq<ArgumentModel>,
}

pub enum InstructionModel {
    VariableCreate(VariableModel),
    VariableAssign(VariableModel),
    FunctionCall(CallModel),
}

impl View for VariableType {
    type V = ValueModel;

    open spec fn view(&self) -> ValueModel {
        match self {
            VariableType::Number(n) => ValueModel::Number(*n),
            VariableType::String(s) => ValueModel::String(s@),
        }
    }
}

impl View for Variable {
    type V = VariableModel;

    open spec fn view(&self) -> VariableModel {
        VariableModel {
            identifier: self.identifier@,
            value: match self.value {
                Some(v) => Some(v@),
                None => None,
            },
        }
    }
}

impl View for FunctionArgument {
    type V = ArgumentModel;

    open spec fn view(&self) -> ArgumentModel {
        match self {
            FunctionArgument::Variable(s) => ArgumentModel::Variable(s@),
            FunctionArgument::String(s) => ArgumentModel::String(s@),
            FunctionArgument::Number(n) => ArgumentModel::Number(*n),
        }
    }
}

/// The views of some arguments, in order.
pub open spec fn argument_models(arguments: Seq<FunctionArgument>) -> Seq<ArgumentModel> {
    arguments.map_values(|a: FunctionArgument| a@)
}

impl View for FunctionCall {
    type V = CallModel;

    open spec fn view(&self) -> CallModel {
        CallModel { func_name: self.func_name@, arguments: argument_models(self.arguments@) }
    }
}

impl View for Instruction {
    type V = InstructionModel;

    open spec fn view(&self) -> InstructionModel {
        match self {
            Instruction::VariableCreate(v) => InstructionModel::VariableCreate(v@),
            Instruction::VariableAssign(v) => InstructionModel::VariableAssign(v@),
            Instruction::FunctionCall(c) => InstructionModel::FunctionCall(c@),
        }
    }
}

/// The views of some instructions, in order.
pub open spec fn instruction_models(instructions: Seq<Instruction>) -> Seq<InstructionModel> {
    instructions.map_values(|i: Instruction| i@)
}

impl View for InvalidNumber {
    type V = Seq<char>;

    open spec fn view(&self) -> Seq<char> {
        self.text@
    }
}

/// Whether a token can stand for a value: a number, a string or an
/// identifier.
pub open spec fn is_value(t: Lexeme) -> bool {
    t is Number || t is String || t is Identifier
}

/// The 32-bit integer that the text of a number token writes, or the
/// text itself where it writes none.
pub open spec fn number_of(text: Seq<char>) -> Result<i32, Seq<char>> {
    match int_of_text(text) {
        Some(v) => Ok(v as i32),
        None => Err(text),
    }
}

/// The argument that a token writes, `None` where the token is no
/// value. A number token that writes no 32-bit integer is an error,
/// with its text.
pub open spec fn argument(t: Lexeme) -> Result<Option<ArgumentModel>, Seq<char>> {
    match t {
        Lexeme::Number(n) => match number_of(n) {
            Ok(v) => Ok(Some(ArgumentModel::Number(v))),
            Err(e) => Err(e),
        },
        Lexeme::String(s) => Ok(Some(ArgumentModel::String(s))),
        Lexeme::Identifier(i) => Ok(Some(ArgumentModel::Variable(i))),
        _ => Ok(None),
    }
}

/// The variable that `name`, followed by the operator `=` and the token
/// `value`, stands for. A number or a string is the value of the
/// variable `name`. An identifier gives a variable of the identifier's
/// own name, without a value: `name` is then not kept. Any other token
/// gives `None`.
pub open spec fn assigned(name: Seq<char>, value: Lexeme) -> Result<Option<VariableModel>, Seq<char>> {
    match value {
        Lexeme::Number(n) => match number_of(n) {
            Ok(v) => Ok(Some(VariableModel { identifier: name, value: Some(ValueModel::Number(v)) })),
            Err(e) => Err(e),
        },
        Lexeme::String(s) => Ok(
            Some(VariableModel { identifier: name, value: Some(ValueModel::String(s)) }),
        ),
        Lexeme::Identifier(i) => Ok(Some(VariableModel { identifier: i, value: None })),
        _ => Ok(None),
    }
}

/// The instructions of a stretch of tokens, with the diagnostics of the
/// statements that gave none, each in order.
pub struct ParsedModel {
    pub instructions: Seq<InstructionModel>,
    pub diagnostics: Seq<Diagnostic>,
}

impl ParsedModel {
    pub open spec fn nothing() -> ParsedModel {
        ParsedModel { instructions: seq![], diagnostics: seq![] }
    }

    pub open spec fn instruction(i: InstructionModel) -> ParsedModel {
        ParsedModel { instructions: seq![i], diagnostics: seq![] }
    }

    pub open spec fn diagnostic(d: Diagnostic) -> ParsedModel {
        ParsedModel { instructions: seq![], diagnostics: seq![d] }
    }

    /// What `self` holds, followed by what `next` holds.
    pub open spec fn then_also(self, next: ParsedModel) -> ParsedModel {
        ParsedModel {
            instructions: self.instructions + next.instructions,
            diagnostics: self.diagnostics + next.diagnostics,
        }
    }

    /// What `self` holds, followed by what `next` holds, unless `next`
    /// is an error.
    pub open spec fn then_try(self, next: Result<ParsedModel, Seq<char>>) -> Result<
        ParsedModel,
        Seq<char>,
    > {
        match next {
            Ok(p) => Ok(self.then_also(p)),
            Err(e) => Err(e),
        }
    }
}

/// The arguments of a call behind its first, with the diagnostics of
/// the tokens that gave none.
pub struct ArgumentsModel {
    pub arguments: Seq<ArgumentModel>,
    pub diagnostics: Seq<Diagnostic>,
}

impl ArgumentsModel {
    pub open spec fn nothing() -> ArgumentsModel {
        ArgumentsModel { arguments: seq![], diagnostics: seq![] }
    }

    /// What `self` holds, followed by what `next` holds, unless `next`
    /// is an error.
    pub open spec fn then_try(self, next: Result<ArgumentsModel, Seq<char>>) -> Result<
        ArgumentsModel,
        Seq<char>,
    > {
        match next {
            Ok(a) => Ok(
                ArgumentsModel {
                    arguments: self.arguments + a.arguments,
                    diagnostics: self.diagnostics + a.diagnostics,
                },
            ),
            Err(e) => Err(e),
        }
    }
}

/// The arguments that the tokens of `slice` from `i` on write, read
/// from left to right. While a value is expected, a value token is the
/// next argument, and a comma is expected behind it; while a comma is
/// expected, a comma makes a value expected again. Any other token is
/// passed over with a diagnostic and changes nothing. The first number
/// token that is taken as an argument and writes no 32-bit integer is
/// an error.
pub open spec fn arguments_from(slice: Seq<Lexeme>, i: int, expecting: bool) -> Result<
    ArgumentsModel,
    Seq<char>,
>
    decreases slice.len() - i,
{
    if i < 0 || i >= slice.len() {
        Ok(ArgumentsModel::nothing())
    } else if expecting && is_value(slice[i]) {
        match argument(slice[i]) {
            Ok(a) => ArgumentsModel { arguments: seq![a->0], diagnostics: seq![] }.then_try(
                arguments_from(slice, i + 1, false),
            ),
            Err(e) => Err(e),
        }
    } else if !expecting && slice[i] is Seperator {
        arguments_from(slice, i + 1, true)
    } else {
        ArgumentsModel {
            arguments: seq![],
            diagnostics: seq![Diagnostic::InvalidSeparation],
        }.then_try(arguments_from(slice, i + 1, expecting))
    }
}

/// `let`, an identifier, `=` and one more token.
pub open spec fn is_declaration(slice: Seq<Lexeme>) -> bool {
    &&& slice.len() == 4
    &&& slice[0] == Lexeme::Keyword("let"@)
    &&& slice[1] is Identifier
    &&& slice[2] == Lexeme::Operator("="@)
}

/// An identifier, `=` and one more token.
pub open spec fn is_assignment(slice: Seq<Lexeme>) -> bool {
    &&& slice.len() == 3
    &&& slice[0] is Identifier
    &&& slice[1] == Lexeme::Operator("="@)
}

/// An identifier and one more token.
pub open spec fn is_simple_call(slice: Seq<Lexeme>) -> bool {
    &&& slice.len() == 2
    &&& slice[0] is Identifier
}

/// An identifier, one more token, a comma, and whatever follows.
pub open spec fn is_list_call(slice: Seq<Lexeme>) -> bool {
    &&& slice.len() >= 3
    &&& slice[0] is Identifier
    &&& slice[2] is Seperator
}

/// What a declaration or an assignment of `name` with the token `value`
/// gives, `create` telling the two apart.
pub open spec fn assignment(create: bool, name: Seq<char>, value: Lexeme) -> Result<
    ParsedModel,
    Seq<char>,
> {
    match assigned(name, value) {
        Ok(Some(v)) => Ok(
            ParsedModel::instruction(
                if create {
                    InstructionModel::VariableCreate(v)
                } else {
                    InstructionModel::VariableAssign(v)
                },
            ),
        ),
        Ok(None) => Ok(ParsedModel::diagnostic(Diagnostic::InvalidAssignment)),
        Err(e) => Err(e),
    }
}

/// What a call of `name` gives whose first argument is the token
/// `first` and whose further arguments are `rest`. Where `first` is no
/// value there is no call, and `rest` is not looked at.
pub open spec fn call(name: Seq<char>, first: Lexeme, rest: Result<ArgumentsModel, Seq<char>>) -> Result<
    ParsedModel,
    Seq<char>,
> {
    match argument(first) {
        Ok(Some(a)) => match rest {
            Ok(more) => Ok(
                ParsedModel {
                    instructions: seq![
                        InstructionModel::FunctionCall(
                            CallModel { func_name: name, arguments: seq![a] + more.arguments },
                        ),
                    ],
                    diagnostics: more.diagnostics,
                },
            ),
            Err(e) => Err(e),
        },
        Ok(None) => Ok(ParsedModel::diagnostic(Diagnostic::InvalidArgument)),
        Err(e) => Err(e),
    }
}

/// What one statement gives: the first production that fits decides.
/// A statement that fits none gives a diagnostic and no instruction.
pub open spec fn statement(slice: Seq<Lexeme>) -> Result<ParsedModel, Seq<char>> {
    if is_declaration(slice) {
        assignment(true, slice[1].text(), slice[3])
    } else if is_assignment(slice) {
        assignment(false, slice[0].text(), slice[2])
    } else if is_simple_call(slice) {
        call(slice[0].text(), slice[1], Ok(ArgumentsModel::nothing()))
    } else if is_list_call(slice) {
        call(slice[0].text(), slice[1], arguments_from(slice, 3, true))
    } else {
        Ok(ParsedModel::diagnostic(Diagnostic::InvalidCall))
    }
}

/// The place of the first statement end at or behind `i`, or the end of
/// the tokens.
pub open spec fn statement_end(tokens: Seq<Lexeme>, i: int) -> int
    decreases tokens.len() - i,
{
    if 0 <= i < tokens.len() && !(tokens[i] is ExpressionEnd) {
        statement_end(tokens, i + 1)
    } else {
        i
    }
}

pub proof fn lemma_statement_end(tokens: Seq<Lexeme>, i: int)
    requires
        0 <= i <= tokens.len(),
    ensures
        i <= statement_end(tokens, i) <= tokens.len(),
        forall|k: int| i <= k < statement_end(tokens, i) ==> !(#[trigger] tokens[k] is ExpressionEnd),
        statement_end(tokens, i) < tokens.len() ==> tokens[statement_end(tokens, i)] is ExpressionEnd,
    decreases tokens.len() - i,
{
    if i < tokens.len() && !(tokens[i] is ExpressionEnd) {
        lemma_statement_end(tokens, i + 1);
    }
}

/// What the tokens from `start` on give. The tokens up to the next
/// statement end are one statement, and the statement end belongs to
/// none. Parsing goes on behind it only where a token is left, so a
/// statement end that closes the tokens opens no further statement. No
/// tokens at all are one statement, which fits no production. The
/// first error ends it all.
pub open spec fn parsed_from(tokens: Seq<Lexeme>, start: int) -> Result<ParsedModel, Seq<char>>
    decreases tokens.len() - start,
    when 0 <= start <= tokens.len()
    via parsed_from_decreases
{
    let stop = statement_end(tokens, start);
    match statement(tokens.subrange(start, stop)) {
        Ok(first) => if stop + 1 < tokens.len() {
            first.then_try(parsed_from(tokens, stop + 1))
        } else {
            Ok(first)
        },
        Err(e) => Err(e),
    }
}

#[via_fn]
proof fn parsed_from_decreases(tokens: Seq<Lexeme>, start: int) {
    lemma_statement_end(tokens, start);
}

/// What a sequence of tokens gives.
pub open spec fn parsed(tokens: Seq<Lexeme>) -> Result<ParsedModel, Seq<char>> {
    parsed_from(tokens, 0)
}

/// The instructions of some tokens with the diagnostics of the
/// statements that gave none.
#[derive(Debug, Clone, PartialEq, Eq)]
pub struct Parsed {
    pub instructions: Vec<Instruction>,
    pub diagnostics: Vec<Diagnostic>,
}

impl View for Parsed {
    type V = ParsedModel;

    open spec fn view(&self) -> ParsedModel {
        ParsedModel {
            instructions: instruction_models(self.instructions@),
            diagnostics: self.diagnostics@,
        }
    }
}

fn is_identifier(token: &Token) -> (b: bool)
    ensures
        b == (token@ is Identifier),
{
    match token {
        Token::Identifier(_) => true,
        _ => false,
    }
}

fn is_separator(token: &Token) -> (b: bool)
    ensures
        b == (token@ is Seperator),
{
    match token {
        Token::Seperator(_) => true,
        _ => false,
    }
}

fn is_expression_end(token: &Token) -> (b: bool)
    ensures
        b == (token@ is ExpressionEnd),
{
    match token {
        Token::ExpressionEnd(_) => true,
        _ => false,
    }
}

fn is_let(token: &Token) -> (b: bool)
    ensures
        b == (token@ == Lexeme::Keyword("let"@)),
{
    match token {
        Token::Keyword(k) => text_is(k.as_str(), "let"),
        _ => false,
    }
}

fn is_equals(token: &Token) -> (b: bool)
    ensures
        b == (token@ == Lexeme::Operator("="@)),
{
    match token {
        Token::Operator(o) => text_is(o.as_str(), "="),
        _ => false,
    }
}

fn text_of(token: &Token) -> (text: String)
    ensures
        text@ == token@.text(),
{
    match token {
        Token::Identifier(s) => s.clone(),
        Token::Keyword(s) => s.clone(),
        Token::Number(s) => s.clone(),
        Token::String(s) => s.clone(),
        Token::Operator(s) => s.clone(),
        Token::Seperator(s) => s.clone(),
        Token::LineEnd(s) => s.clone(),
        Token::ExpressionEnd(s) => s.clone(),
        Token::Unknown(s) => s.clone(),
    }
}

fn read_number(text: &String) -> (r: Result<i32, InvalidNumber>)
    ensures
        match number_of(text@) {
            Ok(v) => r is Ok && r->Ok_0 == v,
            Err(e) => r is Err && r->Err_0@ == e,
        },
{
    match parse_i32(text.as_str()) {
        Some(v) => Ok(v),
        None => Err(InvalidNumber { text: text.clone() }),
    }
}

fn read_argument(token: &Token) -> (r: Result<Option<FunctionArgument>, InvalidNumber>)
    ensures
        match argument(token@) {
            Ok(Some(a)) => r is Ok && r->Ok_0 is Some && r->Ok_0->0@ == a,
            Ok(None) => r is Ok && r->Ok_0 is None,
            Err(e) => r is Err && r->Err_0@ == e,
        },
{
    match token {
        Token::Number(n) => match read_number(n) {
            Ok(v) => Ok(Some(FunctionArgument::Number(v))),
            Err(e) => Err(e),
        },
        Token::String(s) => Ok(Some(FunctionArgument::String(s.clone()))),
        Token::Identifier(i) => Ok(Some(FunctionArgument::Variable(i.clone()))),
        _ => Ok(None),
    }
}

fn read_assigned(name: String, value: &Token) -> (r: Result<Option<Variable>, InvalidNumber>)
    ensures
        match assigned(name@, value@) {
            Ok(Some(v)) => r is Ok && r->Ok_0 is Some && r->Ok_0->0@ == v,
            Ok(None) => r is Ok && r->Ok_0 is None,
            Err(e) => r is Err && r->Err_0@ == e,
        },
{
    match value {
        Token::Number(n) => match read_number(n) {
            Ok(v) => Ok(Some(Variable { identifier: name, value: Some(VariableType::Number(v)) })),
            Err(e) => Err(e),
        },
        Token::String(s) => Ok(
            Some(Variable { identifier: name, value: Some(VariableType::String(s.clone())) }),
        ),
        Token::Identifier(i) => Ok(Some(Variable { identifier: i.clone(), value: None })),
        _ => Ok(None),
    }
}

fn read_assignment(create: bool, name: String, value: &Token, out: &mut Parsed) -> (r: Result<
    (),
    InvalidNumber,
>)
    ensures
        match assignment(create, name@, value@) {
            Ok(m) => r is Ok && final(out)@ == old(out)@.then_also(m),
            Err(e) => r is Err && r->Err_0@ == e,
        },
{
    let ghost before = out@;
    match read_assigned(name, value) {
        Ok(Some(v)) => {
            let instruction = if create {
                Instruction::VariableCreate(v)
            } else {
                Instruction::VariableAssign(v)
            };
            proof {
                lemma_push_instruction(*out, instruction);
            }
            out.instructions.push(instruction);
            Ok(())
        },
        Ok(None) => {
            proof {
                lemma_push_diagnostic(*out, Diagnostic::InvalidAssignment);
            }
            out.diagnostics.push(Diagnostic::InvalidAssignment);
            Ok(())
        },
        Err(e) => Err(e),
    }
}

proof fn lemma_push_instruction(out: Parsed, instruction: Instruction)
    ensures
        (ParsedModel {
            instructions: instruction_models(out.instructions@.push(instruction)),
            diagnostics: out.diagnostics@,
        }) == out@.then_also(ParsedModel::instruction(instruction@)),
{
    let pushed = instruction_models(out.instructions@.push(instruction));
    assert(pushed =~= out@.instructions + seq![instruction@]);
    assert(out.diagnostics@ =~= out@.diagnostics + Seq::<Diagnostic>::empty());
}

proof fn lemma_push_diagnostic(out: Parsed, diagnostic: Diagnostic)
    ensures
        (ParsedModel {
            instructions: instruction_models(out.instructions@),
            diagnostics: out.diagnostics@.push(diagnostic),
        }) == out@.then_also(ParsedModel::diagnostic(diagnostic)),
{
    assert(out.diagnostics@.push(diagnostic) =~= out@.diagnostics + seq![diagnostic]);
    assert(out@.instructions =~= out@.instructions + Seq::<InstructionModel>::empty());
}

/// Reads the arguments of a call behind its first: the tokens from the
/// fourth of the statement on. The arguments are appended to
/// `arguments`, the diagnostics to `diagnostics`.
fn read_arguments(
    tokens: &Vec<Token>,
    start: usize,
    stop: usize,
    arguments: &mut Vec<FunctionArgument>,
    diagnostics: &mut Vec<Diagnostic>,
) -> (r: Result<(), InvalidNumber>)
    requires
        start + 3 <= stop <= tokens.len(),
    ensures
        match arguments_from(lexemes(tokens@).subrange(start as int, stop as int), 3, true) {
            Ok(m) => {
                &&& r is Ok
                &&& argument_models(final(arguments)@) == argument_models(old(arguments)@)
                    + m.arguments
                &&& final(diagnostics)@ == old(diagnostics)@ + m.diagnostics
            },
            Err(e) => r is Err && r->Err_0@ == e,
        },
{
    let ghost slice = lexemes(tokens@).subrange(start as int, stop as int);
    let ghost arguments0 = argument_models(arguments@);
    let ghost diagnostics0 = diagnostics@;
    let ghost mut done = ArgumentsModel::nothing();
    let mut expecting = true;
    let mut i: usize = start + 3;
    proof {
        assert(arguments0 + done.arguments =~= arguments0);
        assert(diagnostics0 + done.diagnostics =~= diagnostics0);
        lemma_arguments_then(done, ArgumentsModel::nothing(), arguments_from(slice, 3, true));
    }
    while i < stop
        invariant
            start + 3 <= i <= stop <= tokens.len(),
            slice == lexemes(tokens@).subrange(start as int, stop as int),
            arguments_from(slice, 3, true) == done.then_try(
                arguments_from(slice, i - start, expecting),
            ),
            argument_models(arguments@) == arguments0 + done.arguments,
            diagnostics@ == diagnostics0 + done.diagnostics,
            arguments0 == argument_models(old(arguments)@),
            diagnostics0 == old(diagnostics)@,
        decreases stop - i,
    {
        let token = &tokens[i];
        let ghost at = i - start;
        let ghost arguments1 = arguments@;
        assert(slice[at] == token@);
        let value = match token {
            Token::Number(_) => true,
            Token::String(_) => true,
            Token::Identifier(_) => true,
            _ => false,
        };
        if expecting && value {
            match read_argument(token) {
                Ok(Some(a)) => {
                    arguments.push(a);
                    proof {
                        let one = ArgumentsModel { arguments: seq![a@], diagnostics: seq![] };
                        lemma_arguments_then(done, one, arguments_from(slice, at + 1, false));
                        assert(argument_models(arguments1.push(a)) =~= argument_models(arguments1)
                            + seq![a@]);
                        assert(arguments0 + (done.arguments + one.arguments) =~= (arguments0
                            + done.arguments) + one.arguments);
                        assert(diagnostics0 + (done.diagnostics + one.diagnostics)
                            =~= diagnostics0 + done.diagnostics);
                        done =
                        ArgumentsModel {
                            arguments: done.arguments + one.arguments,
                            diagnostics: done.diagnostics + one.diagnostics,
                        };
                    }
                    expecting = false;
                },
                Ok(None) => {},
                Err(e) => {
                    return Err(e);
                },
            }
        } else if !expecting && is_separator(token) {
            expecting = true;
        } else {
            diagnostics.push(Diagnostic::InvalidSeparation);
            proof {
                let one = ArgumentsModel {
                    arguments: seq![],
                    diagnostics: seq![Diagnostic::InvalidSeparation],
                };
                lemma_arguments_then(done, one, arguments_from(slice, at + 1, expecting));
                assert(arguments0 + (done.arguments + one.arguments) =~= arguments0
                    + done.arguments);
                assert(diagnostics0 + (done.diagnostics + one.diagnostics) =~= (diagnostics0
                    + done.diagnostics).push(Diagnostic::InvalidSeparation));
                done =
                ArgumentsModel {
                    arguments: done.arguments + one.arguments,
                    diagnostics: done.diagnostics + one.diagnostics,
                };
            }
        }
        i += 1;
    }
    proof {
        assert(done.arguments + ArgumentsModel::nothing().arguments =~= done.arguments);
        assert(done.diagnostics + ArgumentsModel::nothing().diagnostics =~= done.diagnostics);
    }
    Ok(())
}

/// Putting one stretch of arguments before another, and that before a
/// third, is putting the first before the two others.
proof fn lemma_arguments_then(
    a: ArgumentsModel,
    b: ArgumentsModel,
    rest: Result<ArgumentsModel, Seq<char>>,
)
    ensures
        a.then_try(b.then_try(rest)) == (ArgumentsModel {
            arguments: a.arguments + b.arguments,
            diagnostics: a.diagnostics + b.diagnostics,
        }).then_try(rest),
{
    if let Ok(r) = rest {
        assert(a.arguments + (b.arguments + r.arguments) =~= (a.arguments + b.arguments)
            + r.arguments);
        assert(a.diagnostics + (b.diagnostics + r.diagnostics) =~= (a.diagnostics + b.diagnostics)
            + r.diagnostics);
    }
}

/// Reads a call whose name is the first token of the statement and
/// whose first argument is the second; `list` tells whether further
/// arguments follow a comma.
fn read_call(tokens: &Vec<Token>, start: usize, stop: usize, list: bool, out: &mut Parsed) -> (r:
    Result<(), InvalidNumber>)
    requires
        start + 2 <= stop <= tokens.len(),
        list ==> start + 3 <= stop,
    ensures
        match call(
            tokens@[start as int]@.text(),
            tokens@[start + 1]@,
            if list {
                arguments_from(lexemes(tokens@).subrange(start as int, stop as int), 3, true)
            } else {
                Ok(ArgumentsModel::nothing())
            },
        ) {
            Ok(m) => r is Ok && final(out)@ == old(out)@.then_also(m),
            Err(e) => r is Err && r->Err_0@ == e,
        },
{
    let ghost before = out@;
    match read_argument(&tokens[start + 1]) {
        Ok(Some(first)) => {
            let mut arguments: Vec<FunctionArgument> = Vec::new();
            arguments.push(first);
            proof {
                assert(argument_models(arguments@) =~= seq![first@]);
                assert(before.diagnostics + Seq::<Diagnostic>::empty() =~= before.diagnostics);
                assert(seq![first@] + ArgumentsModel::nothing().arguments =~= seq![first@]);
            }
            if list {
                match read_arguments(tokens, start, stop, &mut arguments, &mut out.diagnostics) {
                    Ok(()) => {},
                    Err(e) => {
                        return Err(e);
                    },
                }
            }
            let instruction = Instruction::FunctionCall(
                FunctionCall { func_name: text_of(&tokens[start]), arguments },
            );
            proof {
                assert(instruction_models(out.instructions@.push(instruction))
                    =~= before.instructions + seq![instruction@]);
            }
            out.instructions.push(instruction);
            Ok(())
        },
        Ok(None) => {
            proof {
                lemma_push_diagnostic(*out, Diagnostic::InvalidArgument);
            }
            out.diagnostics.push(Diagnostic::InvalidArgument);
            Ok(())
        },
        Err(e) => Err(e),
    }
}

/// Holds the statement made of the tokens from `start` up to `stop`
/// against the productions and appends what it gives to `out`.
pub fn parse_statement(tokens: &Vec<Token>, start: usize, stop: usize, out: &mut Parsed) -> (r:
    Result<(), InvalidNumber>)
    requires
        start <= stop <= tokens.len(),
    ensures
        match statement(lexemes(tokens@).subrange(start as int, stop as int)) {
            Ok(m) => r is Ok && final(out)@ == old(out)@.then_also(m),
            Err(e) => r is Err && r->Err_0@ == e,
        },
{
    let ghost slice = lexemes(tokens@).subrange(start as int, stop as int);
    let len = stop - start;
    proof {
        assert forall|k: int| 0 <= k < len implies slice[k] == tokens@[start + k]@ by {}
    }
    if len == 4 && is_let(&tokens[start]) && is_identifier(&tokens[start + 1]) && is_equals(
        &tokens[start + 2],
    ) {
        read_assignment(true, text_of(&tokens[start + 1]), &tokens[start + 3], out)
    } else if len == 3 && is_identifier(&tokens[start]) && is_equals(&tokens[start + 1]) {
        read_assignment(false, text_of(&tokens[start]), &tokens[start + 2], out)
    } else if len == 2 && is_identifier(&tokens[start]) {
        read_call(tokens, start, stop, false, out)
    } else if len >= 3 && is_identifier(&tokens[start]) && is_separator(&tokens[start + 2]) {
        read_call(tokens, start, stop, true, out)
    } else {
        proof {
            lemma_push_diagnostic(*out, Diagnostic::InvalidCall);
        }
        out.diagnostics.push(Diagnostic::InvalidCall);
        Ok(())
    }
}

/// Parses the tokens statement by statement. The result is an error
/// exactly where a number token that a production reads writes no
/// 32-bit integer; the error holds the text of the first such token.
pub fn parse(tokens: &Vec<Token>) -> (r: Result<Parsed, InvalidNumber>)
    ensures
        match parsed(lexemes(tokens@)) {
            Ok(m) => r is Ok && r->Ok_0@ == m,
            Err(e) => r is Err && r->Err_0@ == e,
        },
{
    let ghost all = lexemes(tokens@);
    let mut out = Parsed { instructions: Vec::new(), diagnostics: Vec::new() };
    let mut start: usize = 0;
    proof {
        assert(out@.instructions =~= Seq::<InstructionModel>::empty());
        lemma_parsed_then(ParsedModel::nothing(), ParsedModel::nothing(), parsed_from(all, 0));
        lemma_nothing_then(parsed_from(all, 0));
    }
    loop
        invariant_except_break
            parsed(all) == out@.then_try(parsed_from(all, start as int)),
        invariant
            start <= tokens.len(),
            all == lexemes(tokens@),
        ensures
            parsed(all) == Ok::<ParsedModel, Seq<char>>(out@),
        decreases tokens.len() - start,
    {
        let mut stop: usize = start;
        while stop < tokens.len() && !is_expression_end(&tokens[stop])
            invariant
                start <= stop <= tokens.len(),
                all == lexemes(tokens@),
                statement_end(all, start as int) == statement_end(all, stop as int),
            decreases tokens.len() - stop,
        {
            stop += 1;
        }
        let ghost before = out@;
        let ghost first = statement(all.subrange(start as int, stop as int));
        match parse_statement(tokens, start, stop, &mut out) {
            Ok(()) => {},
            Err(e) => {
                return Err(e);
            },
        }
        if stop < tokens.len() && stop + 1 < tokens.len() {
            proof {
                lemma_parsed_then(before, first->Ok_0, parsed_from(all, stop + 1));
            }
            start = stop + 1;
        } else {
            break;
        }
    }
    Ok(out)
}

proof fn lemma_parsed_then(a: ParsedModel, b: ParsedModel, rest: Result<ParsedModel, Seq<char>>)
    ensures
        a.then_try(b.then_try(rest)) == a.then_also(b).then_try(rest),
{
    if let Ok(r) = rest {
        assert(a.instructions + (b.instructions + r.instructions) =~= (a.instructions
            + b.instructions) + r.instructions);
        assert(a.diagnostics + (b.diagnostics + r.diagnostics) =~= (a.diagnostics + b.diagnostics)
            + r.diagnostics);
    }
}

proof fn lemma_nothing_then(rest: Result<ParsedModel, Seq<char>>)
    ensures
        ParsedModel::nothing().then_try(rest) == rest,
{
    if let Ok(r) = rest {
        assert(ParsedModel::nothing().instructions + r.instructions =~= r.instructions);
        assert(ParsedModel::nothing().diagnostics + r.diagnostics =~= r.diagnostics);
    }
}

/// The instructions of the tokens, for tokens whose numbers all fit.
pub fn parser(tokens: &Vec<Token>) -> (instructions: Vec<Instruction>)
    requires
        parsed(lexemes(tokens@)) is Ok,
    ensures
        instruction_models(instructions@) == parsed(lexemes(tokens@))->Ok_0.instructions,
{
    match parse(tokens) {
        Ok(out) => out.instructions,
        Err(_) => vstd::pervasive::unreached(),
    }
}

} // verus!
