use rowdy::ast::{End, Expression, FloatLit, IntLit, Program, Statement};
use rowdy::lexer::tokenize_qualified;
use rowdy::parser::{parse, parse_tokens, try_parse, Expected, ParseError, TokenIter};
use rowdy::token::{QualifiedTokenType, SpecialChar};

#[test]
fn parses_a_function_with_one_declaration() {
    let tokens = tokenize_qualified("int main() { int x = 5; }").unwrap();
    let program = parse_tokens(&tokens).unwrap();
    assert_eq!(program.functions.len(), 1);
    let f = &program.functions[0];
    assert_eq!(f.name.text, "main");
    assert_eq!(f.return_type.symbol.text, "int");
    assert!(f.parameters.is_empty());
    assert_eq!(f.expr.statements.len(), 1);
    match &f.expr.statements[0] {
        Statement::Declaration(d, Some(Expression::IntLit(lit))) => {
            assert_eq!(d.name.text, "x");
            assert_eq!(d.typ.symbol.text, "int");
            assert_eq!(lit.value, 5);
        }
        other => panic!("unexpected statement {:?}", other),
    }
    assert_eq!(f.span.start.char_num, 0);
    assert_eq!(f.span.end.char_num, 24);
}

#[test]
fn parses_parameters_assignments_and_calls() {
    let src = "int f(int a float b) { a = 1; g(a, 2.5, {}); h(); int y; }";
    let tokens = tokenize_qualified(src).unwrap();
    let program = parse_tokens(&tokens).unwrap();
    let f = &program.functions[0];
    assert_eq!(f.parameters.len(), 2);
    assert_eq!(f.parameters[1].typ.symbol.text, "float");
    assert_eq!(f.parameters[1].name.text, "b");
    let s = &f.expr.statements;
    assert_eq!(s.len(), 4);
    assert!(matches!(&s[0], Statement::Assignment(t, Expression::IntLit(_)) if t.text == "a"));
    match &s[1] {
        Statement::FunctionCall(name, args) => {
            assert_eq!(name.text, "g");
            assert_eq!(args.len(), 3);
            assert!(matches!(&args[0], Expression::Symbol(sym) if sym.text == "a"));
            assert!(matches!(&args[1], Expression::FloatLit(l) if l.text == "2.5"));
            assert!(matches!(&args[2], Expression::Braced(b) if b.statements.is_empty()));
        }
        other => panic!("unexpected statement {:?}", other),
    }
    assert!(matches!(&s[2], Statement::FunctionCall(n, a) if n.text == "h" && a.is_empty()));
    assert!(matches!(&s[3], Statement::Declaration(d, None) if d.name.text == "y"));
}

#[test]
fn two_functions_in_a_row() {
    let tokens = tokenize_qualified("int a() {} float b() {}").unwrap();
    let program = parse_tokens(&tokens).unwrap();
    assert_eq!(program.functions.len(), 2);
    assert_eq!(program.functions[1].name.text, "b");
}

#[test]
fn empty_input_is_an_empty_program() {
    let program = parse_tokens(&[]).unwrap();
    assert!(program.functions.is_empty());
}

#[test]
fn missing_closing_brace_runs_out_of_tokens() {
    let tokens = tokenize_qualified("int main() { int x = 5;").unwrap();
    assert_eq!(parse_tokens(&tokens).unwrap_err(), ParseError::OutOfTokens);
}

#[test]
fn malformed_statement_ends_the_block_early() {
    let tokens = tokenize_qualified("int main() { x = ; }").unwrap();
    assert_eq!(
        parse_tokens(&tokens).unwrap_err(),
        ParseError::UnexpectedToken {
            expected: Expected::RBrace,
            got: QualifiedTokenType::Symbol("x".to_string()),
        }
    );
}

#[test]
fn function_needs_a_parameter_list() {
    let tokens = tokenize_qualified("int main { }").unwrap();
    assert_eq!(
        parse_tokens(&tokens).unwrap_err(),
        ParseError::UnexpectedToken {
            expected: Expected::LParen,
            got: QualifiedTokenType::SpecialChar(SpecialChar::LBrace),
        }
    );
}

#[test]
fn failed_attempt_leaves_the_cursor_in_place() {
    let tokens = tokenize_qualified("x = 3; y").unwrap();
    let mut it = TokenIter::new(&tokens);
    let e: Result<Expression, ParseError> = try_parse(&mut it);
    assert!(matches!(e, Ok(Expression::Symbol(_))));
    assert_eq!(it.pos, 1);
    let bad: Result<Statement, ParseError> = try_parse(&mut it);
    assert!(bad.is_err());
    assert_eq!(it.pos, 1);
    let mut it = TokenIter::new(&tokens);
    let s: Statement = parse(&mut it).unwrap();
    assert!(matches!(s, Statement::Assignment(..)));
    assert_eq!(it.pos, 4);
    assert!(!it.is_empty());
    assert!(it.next().is_some());
    assert!(it.is_empty());
    assert!(it.next().is_none());
}

#[test]
fn end_token_is_read_alone() {
    let tokens = tokenize_qualified("; x").unwrap();
    let mut it = TokenIter::new(&tokens);
    let end: End = parse(&mut it).unwrap();
    assert_eq!(end.span.start.char_num, 0);
    let again: Result<End, ParseError> = parse(&mut it);
    assert_eq!(
        again.unwrap_err(),
        ParseError::UnexpectedToken { expected: Expected::End, got: QualifiedTokenType::Symbol("x".to_string()) }
    );
}

#[test]
fn program_read_through_the_cursor() {
    let tokens = tokenize_qualified("int a() {} int b() { b = 2; }").unwrap();
    let mut it = TokenIter::new(&tokens);
    let program: Program = parse(&mut it).unwrap();
    assert_eq!(program.functions.len(), 2);
    assert_eq!(it.pos, tokens.len());
    assert!(it.is_empty());
}

#[test]
fn literals_read_alone() {
    let tokens = tokenize_qualified("42 2.5").unwrap();
    let mut it = TokenIter::new(&tokens);
    let wrong: Result<FloatLit, ParseError> = parse(&mut it);
    assert_eq!(
        wrong.unwrap_err(),
        ParseError::UnexpectedToken { expected: Expected::FloatLit, got: QualifiedTokenType::IntLit(42) }
    );
    let i: IntLit = parse(&mut it).unwrap();
    assert_eq!(i.value, 42);
    let f: FloatLit = parse(&mut it).unwrap();
    assert_eq!(f.text, "2.5");
    let none: Result<IntLit, ParseError> = parse(&mut it);
    assert_eq!(none.unwrap_err(), ParseError::OutOfTokens);
}
