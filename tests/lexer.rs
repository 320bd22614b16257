use rowdy::cursor::Cursor;
use rowdy::lexer::{next_token, tokenize_qualified, tokenize_str};
use rowdy::location::Location;
use rowdy::token::{
    keyword_from_str, parse_i32, qualify_token, Keyword, LexError, Operator, QualifiedTokenType,
    SpecialChar, TokenType,
};

fn offsets(input: &str) -> Vec<(TokenType, usize, usize)> {
    tokenize_str(input)
        .unwrap()
        .iter()
        .map(|t| (t.typ, t.span.start.char_num, t.span.end.char_num))
        .collect()
}

#[test]
fn lexes_sum_of_two_integers() {
    assert_eq!(
        offsets("12+34"),
        vec![
            (TokenType::IntLit, 0, 1),
            (TokenType::Operator(Operator::Plus), 2, 2),
            (TokenType::IntLit, 3, 4),
        ]
    );
    let qualified = tokenize_qualified("12+34").unwrap();
    assert_eq!(qualified[0].typ, QualifiedTokenType::IntLit(12));
    assert_eq!(qualified[2].typ, QualifiedTokenType::IntLit(34));
}

#[test]
fn increment_is_one_token() {
    assert_eq!(offsets("++"), vec![(TokenType::Operator(Operator::Increment), 0, 1)]);
}

#[test]
fn two_character_operators_take_the_longest_match() {
    let kinds: Vec<TokenType> = tokenize_str("== += -= -- = + -").unwrap().iter().map(|t| t.typ).collect();
    assert_eq!(
        kinds,
        vec![
            TokenType::Operator(Operator::Equals),
            TokenType::Operator(Operator::PlusAssign),
            TokenType::Operator(Operator::SubAssign),
            TokenType::Operator(Operator::Decrement),
            TokenType::Operator(Operator::Assign),
            TokenType::Operator(Operator::Plus),
            TokenType::Operator(Operator::Sub),
        ]
    );
}

#[test]
fn punctuation_and_symbols() {
    let kinds: Vec<TokenType> = tokenize_str("f(a_1, b)[];{}").unwrap().iter().map(|t| t.typ).collect();
    assert_eq!(
        kinds,
        vec![
            TokenType::Symbol,
            TokenType::SpecialChar(SpecialChar::LParen),
            TokenType::Symbol,
            TokenType::SpecialChar(SpecialChar::Comma),
            TokenType::Symbol,
            TokenType::SpecialChar(SpecialChar::RParen),
            TokenType::SpecialChar(SpecialChar::LBracket),
            TokenType::SpecialChar(SpecialChar::RBracket),
            TokenType::End,
            TokenType::SpecialChar(SpecialChar::LBrace),
            TokenType::SpecialChar(SpecialChar::RBrace),
        ]
    );
}

#[test]
fn floats_and_a_trailing_point() {
    assert_eq!(offsets("1.25"), vec![(TokenType::FloatLit, 0, 3)]);
    assert_eq!(offsets("12.;"), vec![(TokenType::FloatLit, 0, 1), (TokenType::End, 3, 3)]);
    let q = tokenize_qualified("3.5").unwrap();
    assert_eq!(q[0].typ, QualifiedTokenType::FloatLit("3.5".to_string()));
}

#[test]
fn newlines_move_to_the_next_line() {
    let tokens = tokenize_str("a\n  bc").unwrap();
    assert_eq!(tokens[1].span.start, Location { line: 2, col: 3, char_num: 4 });
    assert_eq!(tokens[1].span.end, Location { line: 2, col: 4, char_num: 5 });
}

#[test]
fn empty_and_blank_input_have_no_tokens() {
    assert!(tokenize_str("").unwrap().is_empty());
    assert!(tokenize_str(" \t\n ").unwrap().is_empty());
}

#[test]
fn unknown_character_is_an_error() {
    assert_eq!(
        tokenize_str("a $").unwrap_err(),
        LexError::UnexpectedChar { ch: '$', loc: Location { line: 1, col: 3, char_num: 2 } }
    );
}

#[test]
fn keywords_are_told_apart_from_symbols() {
    let q = tokenize_qualified("if else while for return iff").unwrap();
    let kinds: Vec<QualifiedTokenType> = q.into_iter().map(|t| t.typ).collect();
    assert_eq!(
        kinds,
        vec![
            QualifiedTokenType::Keyword(Keyword::If),
            QualifiedTokenType::Keyword(Keyword::Else),
            QualifiedTokenType::Keyword(Keyword::While),
            QualifiedTokenType::Keyword(Keyword::For),
            QualifiedTokenType::Keyword(Keyword::Return),
            QualifiedTokenType::Symbol("iff".to_string()),
        ]
    );
    assert_eq!(keyword_from_str("return"), Some(Keyword::Return));
    assert_eq!(keyword_from_str("main"), None);
}

#[test]
fn integer_literal_out_of_range_is_an_error() {
    assert!(matches!(
        tokenize_qualified("2147483648").unwrap_err(),
        LexError::InvalidIntLit { .. }
    ));
    let q = tokenize_qualified("2147483647").unwrap();
    assert_eq!(q[0].typ, QualifiedTokenType::IntLit(i32::MAX));
}

#[test]
fn parse_i32_reads_decimal_numerals() {
    assert_eq!(parse_i32("007"), Some(7));
    assert_eq!(parse_i32(""), None);
    assert_eq!(parse_i32("1a"), None);
    assert_eq!(parse_i32("99999999999"), None);
}

#[test]
fn qualify_token_reads_the_symbol_text() {
    let code = "int x";
    let tokens = tokenize_str(code).unwrap();
    let q = qualify_token(tokens[1], code).unwrap();
    assert_eq!(q.typ, QualifiedTokenType::Symbol("x".to_string()));
    assert_eq!(q.span, tokens[1].span);
}

#[test]
fn next_token_skips_white_space_and_stops_at_the_end() {
    let mut cursor = Cursor::new("  ;");
    let t = next_token(&mut cursor).unwrap().unwrap();
    assert_eq!(t.typ, TokenType::End);
    assert_eq!(t.span.start.char_num, 2);
    assert_eq!(next_token(&mut cursor).unwrap(), None);
}

#[test]
fn cursor_peeks_and_consumes() {
    let mut cursor = Cursor::new("ab\ncd");
    assert_eq!(cursor.peek_char(3), Some('c'));
    assert_eq!(cursor.peek(3), Some(('c', Location { line: 2, col: 1, char_num: 3 })));
    assert_eq!(cursor.consume(1), Some(('b', Location { line: 1, col: 2, char_num: 1 })));
    assert_eq!(cursor.next(), Some(('\n', Location { line: 1, col: 3, char_num: 2 })));
    assert_eq!(cursor.current_loc(), Location { line: 2, col: 1, char_num: 3 });
    assert_eq!(cursor.consume(5), None);
    assert_eq!(cursor.next(), None);
}
