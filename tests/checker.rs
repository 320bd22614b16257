use rowdy::checker::{type_check, CheckError, TypeChecker};
use rowdy::diagnostic::ErrorKind;
use rowdy::lexer::tokenize_qualified;
use rowdy::parser::parse_tokens;

fn diagnostics_of(src: &str) -> Vec<(usize, usize)> {
    let tokens = tokenize_qualified(src).unwrap();
    let program = parse_tokens(&tokens).unwrap();
    let (_, diagnostics) = type_check(&program).unwrap();
    diagnostics
        .iter()
        .map(|d| {
            assert_eq!(d.kind, ErrorKind::E0000);
            (d.span.start.char_num, d.span.end.char_num)
        })
        .collect()
}

#[test]
fn matching_types_report_nothing() {
    assert!(diagnostics_of("int main() { int x = 5; x = 3; }").is_empty());
}

#[test]
fn float_initializer_for_int_is_reported_at_the_statement() {
    assert_eq!(diagnostics_of("int main() { int x = 5.0; }"), vec![(13, 23)]);
}

#[test]
fn assignment_mismatch_and_undeclared_target() {
    assert_eq!(
        diagnostics_of("int main() { float f = 1.0; f = 2; y = 1; }"),
        vec![(28, 32), (35, 39)]
    );
}

#[test]
fn parameters_are_in_scope_and_do_not_leak() {
    assert!(diagnostics_of("int f(int a) { int b = a; } int g() { int a; a = 1; }").is_empty());
    let tokens = tokenize_qualified("int f(int a) { } int g() { int b = a; }").unwrap();
    let program = parse_tokens(&tokens).unwrap();
    assert!(matches!(
        type_check(&program).unwrap_err(),
        CheckError::UndeclaredSymbol { span } if span.start.char_num == 35
    ));
}

#[test]
fn type_ids_are_given_on_first_sight() {
    let mut checker = TypeChecker::new();
    assert_eq!(checker.lookup_type_id("int"), 0);
    assert_eq!(checker.lookup_type_id("float"), 1);
    assert_eq!(checker.lookup_type_id("int"), 0);
    assert_eq!(checker.lookup_type_id("void"), 2);
    assert!(checker.diagnostics().is_empty());
}

#[test]
fn signatures_resolve_parameter_types() {
    let tokens = tokenize_qualified("float f(int a float b char c) {}").unwrap();
    let program = parse_tokens(&tokens).unwrap();
    let mut checker = TypeChecker::new();
    let sig = checker.signature(&program.functions[0]);
    assert_eq!(sig.return_type, 0);
    assert_eq!(sig.parameter_types, vec![1, 0, 2]);
    let (typed, _) = type_check(&program).unwrap();
    assert_eq!(typed.functions[0].signature.parameter_types, vec![1, 0, 2]);
    assert_eq!(typed.functions[0].parameters[2].typ, 2);
}
