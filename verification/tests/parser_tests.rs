use icobasic::lexar::lexar;
use icobasic::lexar::token::Token;
use icobasic::parser::{
    parse, parse_statement, parser, Diagnostic, FunctionArgument, FunctionCall, Instruction,
    InvalidNumber, Parsed, Variable, VariableType,
};
use icobasic::{translate, Translation};

fn create(name: &str, value: Option<VariableType>) -> Instruction {
    Instruction::VariableCreate(Variable { identifier: name.to_string(), value })
}

fn assign(name: &str, value: Option<VariableType>) -> Instruction {
    Instruction::VariableAssign(Variable { identifier: name.to_string(), value })
}

fn call(name: &str, arguments: Vec<FunctionArgument>) -> Instruction {
    Instruction::FunctionCall(FunctionCall { func_name: name.to_string(), arguments })
}

fn text(s: &str) -> VariableType {
    VariableType::String(s.to_string())
}

fn run(source: &str) -> Parsed {
    parse(&lexar(source)).unwrap()
}

#[test]
fn declaration_of_a_number() {
    let tokens = lexar("let x = 42;");
    assert_eq!(parser(&tokens), vec![create("x", Some(VariableType::Number(42)))]);
    let tokens = lexar("let x = 42");
    assert_eq!(parser(&tokens), vec![create("x", Some(VariableType::Number(42)))]);
}

#[test]
fn declaration_at_the_limit() {
    assert_eq!(
        run("let big = 2147483647").instructions,
        vec![create("big", Some(VariableType::Number(2147483647)))]
    );
    assert_eq!(
        run("let z = 000000000000007").instructions,
        vec![create("z", Some(VariableType::Number(7)))]
    );
}

#[test]
fn semicolon_leaves_an_empty_statement_behind() {
    let done = run("let x = 42;");
    assert_eq!(done.instructions.len(), 1);
    assert_eq!(done.diagnostics, vec![Diagnostic::InvalidCall]);
    let done = run("let x = 42");
    assert_eq!(done.diagnostics, Vec::<Diagnostic>::new());
}

#[test]
fn declaration_of_a_string() {
    assert_eq!(run("let s = \"hi\\n\"").instructions, vec![create("s", Some(text("hi\n")))]);
}

#[test]
fn declaration_from_an_identifier_takes_its_name() {
    assert_eq!(run("let a = b").instructions, vec![create("b", None)]);
    assert_eq!(run("a = b").instructions, vec![assign("b", None)]);
}

#[test]
fn assignment_of_a_number_and_a_string() {
    assert_eq!(run("x = 7").instructions, vec![assign("x", Some(VariableType::Number(7)))]);
    assert_eq!(run("x = \"y\"").instructions, vec![assign("x", Some(text("y")))]);
}

#[test]
fn assignment_of_something_else_is_dropped() {
    let done = run("x = ,");
    assert_eq!(done.instructions, Vec::<Instruction>::new());
    assert_eq!(done.diagnostics, vec![Diagnostic::InvalidAssignment]);
    let done = run("let x = =");
    assert_eq!(done.instructions, Vec::<Instruction>::new());
    assert_eq!(done.diagnostics, vec![Diagnostic::InvalidAssignment]);
}

#[test]
fn call_with_one_argument() {
    assert_eq!(run("print 1").instructions, vec![call("print", vec![FunctionArgument::Number(1)])]);
    assert_eq!(
        run("print \"a\"").instructions,
        vec![call("print", vec![FunctionArgument::String("a".to_string())])]
    );
    assert_eq!(
        run("print x").instructions,
        vec![call("print", vec![FunctionArgument::Variable("x".to_string())])]
    );
}

#[test]
fn call_with_one_bad_argument_is_dropped() {
    let done = run("print +");
    assert_eq!(done.instructions, Vec::<Instruction>::new());
    assert_eq!(done.diagnostics, vec![Diagnostic::InvalidArgument]);
}

#[test]
fn call_with_three_numbers_in_order() {
    let tokens = lexar("foo 1, 2, 3;");
    assert_eq!(
        parser(&tokens),
        vec![call(
            "foo",
            vec![
                FunctionArgument::Number(1),
                FunctionArgument::Number(2),
                FunctionArgument::Number(3)
            ]
        )]
    );
}

#[test]
fn call_with_mixed_and_repeated_arguments() {
    assert_eq!(
        run("f a, \"s\", 3, a").instructions,
        vec![call(
            "f",
            vec![
                FunctionArgument::Variable("a".to_string()),
                FunctionArgument::String("s".to_string()),
                FunctionArgument::Number(3),
                FunctionArgument::Variable("a".to_string())
            ]
        )]
    );
}

#[test]
fn call_with_a_trailing_comma() {
    let done = run("f 1,");
    assert_eq!(done.instructions, vec![call("f", vec![FunctionArgument::Number(1)])]);
    assert_eq!(done.diagnostics, Vec::<Diagnostic>::new());
}

#[test]
fn call_keeps_its_arguments_over_a_bad_one() {
    // A value where a comma is due, an operator where a value is due, and
    // then a comma while the value is still due.
    let done = run("f 1, 2 3, +, 4");
    assert_eq!(
        done.instructions,
        vec![call("f", vec![FunctionArgument::Number(1), FunctionArgument::Number(2), FunctionArgument::Number(4)])]
    );
    assert_eq!(
        done.diagnostics,
        vec![
            Diagnostic::InvalidSeparation,
            Diagnostic::InvalidSeparation,
            Diagnostic::InvalidSeparation
        ]
    );
}

#[test]
fn call_with_two_commas_in_a_row() {
    let done = run("f 1,, 2");
    assert_eq!(
        done.instructions,
        vec![call("f", vec![FunctionArgument::Number(1), FunctionArgument::Number(2)])]
    );
    assert_eq!(done.diagnostics, vec![Diagnostic::InvalidSeparation]);
}

#[test]
fn call_with_a_bad_first_argument_is_dropped_whole() {
    // The number behind the comma fits no integer, and is never read.
    let done = run("f +, 99999999999");
    assert_eq!(done.instructions, Vec::<Instruction>::new());
    assert_eq!(done.diagnostics, vec![Diagnostic::InvalidArgument]);
}

#[test]
fn statement_without_a_leading_identifier() {
    let done = run("1 2 3;\nlet x = 1");
    assert_eq!(done.instructions, vec![create("x", Some(VariableType::Number(1)))]);
    assert_eq!(done.diagnostics, vec![Diagnostic::InvalidCall, Diagnostic::InvalidCall]);
    let done = run("1 2 3;");
    assert_eq!(done.instructions, Vec::<Instruction>::new());
}

#[test]
fn other_keywords_open_no_statement() {
    for source in ["if x", "else x", "for x", "while x", "break x", "if x = 1", "break"] {
        let done = run(source);
        assert_eq!(done.instructions, Vec::<Instruction>::new());
        assert_eq!(done.diagnostics, vec![Diagnostic::InvalidCall]);
    }
}

#[test]
fn no_tokens_are_one_empty_statement() {
    let done = parse(&Vec::new()).unwrap();
    assert_eq!(done.instructions, Vec::<Instruction>::new());
    assert_eq!(done.diagnostics, vec![Diagnostic::InvalidCall]);
    assert_eq!(parser(&Vec::new()), Vec::<Instruction>::new());
}

#[test]
fn statement_ends_alone() {
    let end = Token::ExpressionEnd(String::new());
    let done = parse(&vec![end.clone()]).unwrap();
    assert_eq!(done.diagnostics, vec![Diagnostic::InvalidCall]);
    let done = parse(&vec![end.clone(), end.clone()]).unwrap();
    assert_eq!(done.diagnostics, vec![Diagnostic::InvalidCall, Diagnostic::InvalidCall]);
    let done = parse(&vec![end.clone(), end.clone(), end]).unwrap();
    assert_eq!(done.diagnostics.len(), 3);
}

#[test]
fn tokens_without_a_statement_end() {
    let tokens = vec![Token::Identifier("f".to_string()), Token::Number("5".to_string())];
    assert_eq!(parser(&tokens), vec![call("f", vec![FunctionArgument::Number(5)])]);
}

#[test]
fn empty_literal_changes_the_statement() {
    // Without its literal the statement is a single identifier.
    let done = run("print \"\"");
    assert_eq!(done.instructions, Vec::<Instruction>::new());
    assert_eq!(done.diagnostics, vec![Diagnostic::InvalidCall]);
    // The declaration loses its value.
    let done = run("let s = \"\"");
    assert_eq!(done.instructions, Vec::<Instruction>::new());
}

#[test]
fn number_too_large_is_an_error() {
    let failed = parse(&lexar("let x = 2147483648"));
    assert_eq!(failed, Err(InvalidNumber { text: "2147483648".to_string() }));
    let failed = parse(&lexar("a 1\nf 1, 99999999999, 3000000000\nb 2"));
    assert_eq!(failed, Err(InvalidNumber { text: "99999999999".to_string() }));
    let failed = parse(&lexar("x = 4294967296"));
    assert_eq!(failed, Err(InvalidNumber { text: "4294967296".to_string() }));
    let failed = parse(&lexar("f 4294967296"));
    assert_eq!(failed, Err(InvalidNumber { text: "4294967296".to_string() }));
}

#[test]
fn number_token_of_any_text() {
    let tokens = vec![Token::Identifier("f".to_string()), Token::Number("-12".to_string())];
    assert_eq!(parser(&tokens), vec![call("f", vec![FunctionArgument::Number(-12)])]);
    let tokens = vec![Token::Identifier("f".to_string()), Token::Number("1x".to_string())];
    assert_eq!(parse(&tokens), Err(InvalidNumber { text: "1x".to_string() }));
}

#[test]
fn number_that_no_production_reads_is_no_error() {
    // Where a comma is due the number is passed over unread.
    let done = run("f 1, 2 99999999999");
    assert_eq!(
        done.instructions,
        vec![call("f", vec![FunctionArgument::Number(1), FunctionArgument::Number(2)])]
    );
    assert_eq!(done.diagnostics, vec![Diagnostic::InvalidSeparation]);
    let done = run("99999999999 1");
    assert_eq!(done.diagnostics, vec![Diagnostic::InvalidCall]);
}

#[test]
fn one_statement_by_itself() {
    let tokens = lexar("a 1; b = 2");
    let mut out = Parsed { instructions: Vec::new(), diagnostics: Vec::new() };
    assert_eq!(parse_statement(&tokens, 3, 6, &mut out), Ok(()));
    assert_eq!(out.instructions, vec![assign("b", Some(VariableType::Number(2)))]);
    assert_eq!(parse_statement(&tokens, 0, 0, &mut out), Ok(()));
    assert_eq!(out.diagnostics, vec![Diagnostic::InvalidCall]);
}

#[test]
fn statements_do_not_reach_into_one_another() {
    let both = run("1 2 3\nf 1, 2");
    let second = run("f 1, 2");
    assert_eq!(both.instructions, second.instructions);
    assert_eq!(both.diagnostics, vec![Diagnostic::InvalidCall]);
}

#[test]
fn translating_a_text() {
    let done: Translation = translate("let a = 1\nprint \"\\q\", a;").unwrap();
    assert_eq!(done.lexing.tokens, lexar("let a = 1\nprint \"\\q\", a;"));
    assert_eq!(done.lexing.warnings, vec!['q']);
    assert_eq!(
        done.parsed.instructions,
        vec![
            create("a", Some(VariableType::Number(1))),
            call(
                "print",
                vec![
                    FunctionArgument::String("q".to_string()),
                    FunctionArgument::Variable("a".to_string())
                ]
            )
        ]
    );
    assert_eq!(done.parsed.diagnostics, vec![Diagnostic::InvalidCall]);
}

#[test]
fn translating_twice_gives_the_same() {
    let source = "let a = 1;\nfoo a, \"x\\q\"\n1 2 3;\nb = a";
    assert_eq!(translate(source), translate(source));
    let source = "let a = 99999999999";
    assert_eq!(translate(source), translate(source));
    assert_eq!(translate(source), Err(InvalidNumber { text: "99999999999".to_string() }));
}
