use crate::cursor::{
    is_digit, is_symbol_start, is_symbol_start_spec, location_at, run_end, CharClass, Cursor,
};
use crate::location::{Location, Span};
use crate::token::{
    decimal_i32, qualify_token, qualifies_as, span_text, LexError, Operator, QualifiedToken,
    SpecialChar, Token, TokenType,
};
use vstd::prelude::*;

verus! {

/// Unicode white space (the `White_Space` property).
pub open spec fn is_whitespace_spec(c: char) -> bool {
    ('\u{9}' <= c <= '\u{d}') || c == ' ' || c == '\u{85}' || c == '\u{a0}' || c == '\u{1680}'
        || ('\u{2000}' <= c <= '\u{200a}') || c == '\u{2028}' || c == '\u{2029}' || c
        == '\u{202f}' || c == '\u{205f}' || c == '\u{3000}'
}

pub fn is_whitespace(c: char) -> (r: bool)
    ensures
        r == is_whitespace_spec(c),
{
    ('\u{9}' <= c && c <= '\u{d}') || c == ' ' || c == '\u{85}' || c == '\u{a0}' || c
        == '\u{1680}' || ('\u{2000}' <= c && c <= '\u{200a}') || c == '\u{2028}' || c
        == '\u{2029}' || c == '\u{202f}' || c == '\u{205f}' || c == '\u{3000}'
}

/// The token that starts at offset `i` of `text`, as its kind, the offset
/// of the last character of its span, and the offset where scanning goes on;
/// `None` when no token starts there.
pub open spec fn scan_token(text: Seq<char>, i: int) -> Option<(TokenType, int, int)> {
    let c = text[i];
    let second = if i + 1 < text.len() { Some(text[i + 1]) } else { None };
    if c == ';' {
        Some((TokenType::End, i, i + 1))
    } else if c == '(' {
        Some((TokenType::SpecialChar(SpecialChar::LParen), i, i + 1))
    } else if c == ')' {
        Some((TokenType::SpecialChar(SpecialChar::RParen), i, i + 1))
    } else if c == '[' {
        Some((TokenType::SpecialChar(SpecialChar::LBracket), i, i + 1))
    } else if c == ']' {
        Some((TokenType::SpecialChar(SpecialChar::RBracket), i, i + 1))
    } else if c == '{' {
        Some((TokenType::SpecialChar(SpecialChar::LBrace), i, i + 1))
    } else if c == '}' {
        Some((TokenType::SpecialChar(SpecialChar::RBrace), i, i + 1))
    } else if c == ',' {
        Some((TokenType::SpecialChar(SpecialChar::Comma), i, i + 1))
    } else if c == '=' {
        if second == Some('=') {
            Some((TokenType::Operator(Operator::Equals), i + 1, i + 2))
        } else {
            Some((TokenType::Operator(Operator::Assign), i, i + 1))
        }
    } else if c == '+' {
        if second == Some('+') {
            Some((TokenType::Operator(Operator::Increment), i + 1, i + 2))
        } else if second == Some('=') {
            Some((TokenType::Operator(Operator::PlusAssign), i + 1, i + 2))
        } else {
            Some((TokenType::Operator(Operator::Plus), i, i + 1))
        }
    } else if c == '-' {
        if second == Some('-') {
            Some((TokenType::Operator(Operator::Decrement), i + 1, i + 2))
        } else if second == Some('=') {
            Some((TokenType::Operator(Operator::SubAssign), i + 1, i + 2))
        } else {
            Some((TokenType::Operator(Operator::Sub), i, i + 1))
        }
    } else if '0' <= c <= '9' {
        let e = run_end(text, i + 1, CharClass::Digit);
        if e < text.len() && text[e] == '.' {
            let f = run_end(text, e + 1, CharClass::Digit);
            Some((TokenType::FloatLit, if f > e + 1 { f - 1 } else { e - 1 }, f))
        } else {
            Some((TokenType::IntLit, e - 1, e))
        }
    } else if is_symbol_start_spec(c) {
        let e = run_end(text, i + 1, CharClass::SymbolMiddle);
        Some((TokenType::Symbol, e - 1, e))
    } else {
        None
    }
}

/// The first offset at or after `i` that holds no white space.
pub open spec fn skip_whitespace(text: Seq<char>, i: int) -> int
    decreases text.len() - i,
{
    if 0 <= i < text.len() && is_whitespace_spec(text[i]) {
        skip_whitespace(text, i + 1)
    } else {
        i
    }
}

/// What scanning from offset `i` on yields: white space is skipped, and the
/// first character that starts no token is an error.
pub open spec fn lex_from(text: Seq<char>, i: int) -> Result<Seq<Token>, LexError>
    decreases text.len() - i,
{
    if i < 0 || i >= text.len() {
        Ok(Seq::empty())
    } else if is_whitespace_spec(text[i]) {
        lex_from(text, i + 1)
    } else {
        match scan_token(text, i) {
            None => Err(LexError::UnexpectedChar { ch: text[i], loc: location_at(text, i) }),
            Some((typ, last, next)) => {
                if next <= i || next > text.len() {
                    Ok(Seq::empty())
                } else {
                    let token = Token {
                        typ,
                        span: Span { start: location_at(text, i), end: location_at(text, last) },
                    };
                    prepend(seq![token], lex_from(text, next))
                }
            },
        }
    }
}

pub open spec fn prepend<T, E>(prefix: Seq<T>, r: Result<Seq<T>, E>) -> Result<Seq<T>, E> {
    match r {
        Ok(rest) => Ok(prefix + rest),
        Err(e) => Err(e),
    }
}

/// The raw tokens of a source text.
pub open spec fn lex(text: Seq<char>) -> Result<Seq<Token>, LexError> {
    lex_from(text, 0)
}

proof fn lemma_skip_whitespace(text: Seq<char>, i: int)
    requires
        0 <= i <= text.len(),
    ensures
        i <= skip_whitespace(text, i) <= text.len(),
        lex_from(text, i) == lex_from(text, skip_whitespace(text, i)),
        skip_whitespace(text, i) < text.len() ==> !is_whitespace_spec(
            text[skip_whitespace(text, i)],
        ),
        forall|k: int| i <= k < skip_whitespace(text, i) ==> is_whitespace_spec(#[trigger] text[k]),
    decreases text.len() - i,
{
    if i < text.len() && is_whitespace_spec(text[i]) {
        lemma_skip_whitespace(text, i + 1);
    }
}

proof fn lemma_scan_token_advances(text: Seq<char>, i: int)
    requires
        0 <= i < text.len(),
    ensures
        scan_token(text, i) is Some ==> ({
            let (typ, last, next) = scan_token(text, i)->Some_0;
            i <= last < next <= text.len()
        }),
{
    crate::cursor::lemma_run_end(text, i + 1, CharClass::Digit);
    crate::cursor::lemma_run_end(text, i + 1, CharClass::SymbolMiddle);
    let e = run_end(text, i + 1, CharClass::Digit);
    if e < text.len() {
        crate::cursor::lemma_run_end(text, e + 1, CharClass::Digit);
    }
}

impl Cursor {
    /// Scans the rest of a number whose first digit, at `start_loc`, was
    /// just taken: an integer, or a float when a `.` follows the digits.
    fn number(&mut self, start_loc: Location) -> (r: Token)
        requires
            old(self).wf(),
            old(self).pos() >= 1,
            '0' <= old(self).text()[old(self).pos() - 1] <= '9',
            start_loc == location_at(old(self).text(), old(self).pos() - 1),
        ensures
            final(self).wf(),
            final(self).text() == old(self).text(),
            ({
                let (typ, last, next) = scan_token(old(self).text(), old(self).pos() - 1)->Some_0;
                &&& r.typ == typ
                &&& r.span == (Span {
                    start: start_loc,
                    end: location_at(old(self).text(), last),
                })
                &&& final(self).pos() == next
            }),
    {
        proof {
            self.lemma_wf();
            crate::cursor::lemma_run_end(self.text(), self.pos(), CharClass::Digit);
        }
        let end_loc = self.eat_while(CharClass::Digit);
        let digits_end = match end_loc {
            Some(l) => l,
            None => start_loc,
        };
        if let Some('.') = self.peek_char(0) {
            self.consume(0);
            proof {
                crate::cursor::lemma_run_end(self.text(), self.pos(), CharClass::Digit);
            }
            let fraction_end = self.eat_while(CharClass::Digit);
            let end = match fraction_end {
                Some(l) => l,
                None => digits_end,
            };
            Token { typ: TokenType::FloatLit, span: Span::from_start_end(start_loc, end) }
        } else {
            Token { typ: TokenType::IntLit, span: Span::from_start_end(start_loc, digits_end) }
        }
    }

    /// Scans the rest of a symbol whose first character, at `start_loc`, was
    /// just taken.
    fn symbol(&mut self, start_loc: Location) -> (r: Token)
        requires
            old(self).wf(),
            old(self).pos() >= 1,
            is_symbol_start_spec(old(self).text()[old(self).pos() - 1]),
            !('0' <= old(self).text()[old(self).pos() - 1] <= '9'),
            start_loc == location_at(old(self).text(), old(self).pos() - 1),
        ensures
            final(self).wf(),
            final(self).text() == old(self).text(),
            ({
                let (typ, last, next) = scan_token(old(self).text(), old(self).pos() - 1)->Some_0;
                &&& r.typ == typ
                &&& r.span == (Span {
                    start: start_loc,
                    end: location_at(old(self).text(), last),
                })
                &&& final(self).pos() == next
            }),
    {
        proof {
            self.lemma_wf();
            crate::cursor::lemma_run_end(self.text(), self.pos(), CharClass::SymbolMiddle);
        }
        let end_loc = self.eat_while(CharClass::SymbolMiddle);
        let end = match end_loc {
            Some(l) => l,
            None => start_loc,
        };
        Token { typ: TokenType::Symbol, span: Span::from_start_end(start_loc, end) }
    }
}

/// A token of one character, at `loc`.
fn single(typ: TokenType, loc: Location) -> (r: Token)
    ensures
        r == (Token { typ, span: Span { start: loc, end: loc } }),
{
    Token { typ, span: Span::from_loc(loc) }
}

/// An operator of one character at `start`, or of two when the next
/// character is `second_a` or `second_b`.
fn operator(
    cursor: &mut Cursor,
    start: Location,
    alone: Operator,
    second_a: char,
    with_a: Operator,
    second_b: char,
    with_b: Operator,
) -> (r: Token)
    requires
        old(cursor).wf(),
    ensures
        final(cursor).wf(),
        final(cursor).text() == old(cursor).text(),
        ({
            let text = old(cursor).text();
            let p = old(cursor).pos();
            if p < text.len() && text[p] == second_a {
                &&& r == (Token {
                    typ: TokenType::Operator(with_a),
                    span: Span { start, end: location_at(text, p) },
                })
                &&& final(cursor).pos() == p + 1
            } else if p < text.len() && text[p] == second_b {
                &&& r == (Token {
                    typ: TokenType::Operator(with_b),
                    span: Span { start, end: location_at(text, p) },
                })
                &&& final(cursor).pos() == p + 1
            } else {
                &&& r == (Token { typ: TokenType::Operator(alone), span: Span { start, end: start } })
                &&& final(cursor).pos() == p
            }
        }),
{
    match cursor.peek(0) {
        Some((c, end_loc)) => {
            if c == second_a {
                cursor.consume(0);
                Token { typ: TokenType::Operator(with_a), span: Span::from_start_end(start, end_loc) }
            } else if c == second_b {
                cursor.consume(0);
                Token { typ: TokenType::Operator(with_b), span: Span::from_start_end(start, end_loc) }
            } else {
                Token { typ: TokenType::Operator(alone), span: Span::from_loc(start) }
            }
        },
        None => Token { typ: TokenType::Operator(alone), span: Span::from_loc(start) },
    }
}

/// Scans the next token: skips white space, then reads one token, taking the
/// longest operator that one character of look-ahead allows. `Ok(None)` at
/// the end of the text.
pub fn next_token(cursor: &mut Cursor) -> (r: Result<Option<Token>, LexError>)
    requires
        old(cursor).wf(),
    ensures
        final(cursor).wf(),
        final(cursor).text() == old(cursor).text(),
        ({
            let text = old(cursor).text();
            let i = skip_whitespace(text, old(cursor).pos());
            if i >= text.len() {
                r == Ok::<Option<Token>, LexError>(None)
            } else {
                match scan_token(text, i) {
                    None => r == Err::<Option<Token>, LexError>(
                        LexError::UnexpectedChar { ch: text[i], loc: location_at(text, i) },
                    ),
                    Some((typ, last, next)) => {
                        &&& r == Ok::<Option<Token>, LexError>(
                            Some(
                                Token {
                                    typ,
                                    span: Span {
                                        start: location_at(text, i),
                                        end: location_at(text, last),
                                    },
                                },
                            ),
                        )
                        &&& final(cursor).pos() == next
                    },
                }
            }
        }),
{
    let ghost text = cursor.text();
    let ghost start = cursor.pos();
    proof {
        cursor.lemma_wf();
        lemma_skip_whitespace(text, start);
    }
    let mut at_token = false;
    while !at_token
        invariant
            cursor.wf(),
            cursor.text() == text,
            start <= cursor.pos() <= skip_whitespace(text, start),
            skip_whitespace(text, cursor.pos()) == skip_whitespace(text, start),
            start == old(cursor).pos(),
            text == old(cursor).text(),
            at_token ==> cursor.pos() < text.len() && !is_whitespace_spec(text[cursor.pos()]),
        decreases text.len() - cursor.pos() + (if at_token { 0int } else { 1int }),
    {
        proof {
            cursor.lemma_wf();
        }
        match cursor.peek_char(0) {
            Some(c) => {
                if is_whitespace(c) {
                    cursor.next();
                    proof {
                        lemma_skip_whitespace(text, cursor.pos());
                    }
                } else {
                    at_token = true;
                }
            },
            None => {
                return Ok(None);
            },
        }
    }
    assert(skip_whitespace(text, cursor.pos()) == cursor.pos());
    let (c, start_loc) = match cursor.next() {
        Some(p) => p,
        None => {
            return Ok(None);
        },
    };
    proof {
        cursor.lemma_wf();
        lemma_scan_token_advances(text, cursor.pos() - 1);
    }
    let token = if c == ';' {
        single(TokenType::End, start_loc)
    } else if c == '(' {
        single(TokenType::SpecialChar(SpecialChar::LParen), start_loc)
    } else if c == ')' {
        single(TokenType::SpecialChar(SpecialChar::RParen), start_loc)
    } else if c == '[' {
        single(TokenType::SpecialChar(SpecialChar::LBracket), start_loc)
    } else if c == ']' {
        single(TokenType::SpecialChar(SpecialChar::RBracket), start_loc)
    } else if c == '{' {
        single(TokenType::SpecialChar(SpecialChar::LBrace), start_loc)
    } else if c == '}' {
        single(TokenType::SpecialChar(SpecialChar::RBrace), start_loc)
    } else if c == ',' {
        single(TokenType::SpecialChar(SpecialChar::Comma), start_loc)
    } else if c == '=' {
        operator(cursor, start_loc, Operator::Assign, '=', Operator::Equals, '=', Operator::Equals)
    } else if c == '+' {
        operator(
            cursor,
            start_loc,
            Operator::Plus,
            '+',
            Operator::Increment,
            '=',
            Operator::PlusAssign,
        )
    } else if c == '-' {
        operator(
            cursor,
            start_loc,
            Operator::Sub,
            '-',
            Operator::Decrement,
            '=',
            Operator::SubAssign,
        )
    } else if is_digit(c) {
        cursor.number(start_loc)
    } else if is_symbol_start(c) {
        cursor.symbol(start_loc)
    } else {
        return Err(LexError::UnexpectedChar { ch: c, loc: start_loc });
    };
    Ok(Some(token))
}

/// The raw tokens of `input`, or the first character that starts none.
pub fn tokenize_str(input: &str) -> (r: Result<Vec<Token>, LexError>)
    requires
        input@.len() < usize::MAX,
    ensures
        r matches Ok(tokens) ==> lex(input@) == Ok::<Seq<Token>, LexError>(tokens@),
        r matches Err(e) ==> lex(input@) == Err::<Seq<Token>, LexError>(e),
{
    let mut cursor = Cursor::new(input);
    let ghost text = input@;
    let mut tokens: Vec<Token> = Vec::new();
    loop
        invariant
            cursor.wf(),
            cursor.text() == text,
            text == input@,
            0 <= cursor.pos() <= text.len(),
            lex(text) == prepend(tokens@, lex_from(text, cursor.pos())),
        decreases text.len() - cursor.pos(),
    {
        let ghost before = cursor.pos();
        proof {
            cursor.lemma_wf();
            lemma_skip_whitespace(text, before);
        }
        let ghost i = skip_whitespace(text, before);
        match next_token(&mut cursor) {
            Ok(Some(token)) => {
                proof {
                    lemma_scan_token_advances(text, i);
                    assert(tokens@.push(token) + lex_from(text, cursor.pos())->Ok_0 == tokens@ + (
                    seq![token] + lex_from(text, cursor.pos())->Ok_0));
                }
                tokens.push(token);
            },
            Ok(None) => {
                assert(tokens@ + Seq::<Token>::empty() == tokens@);

                return Ok(tokens);
            },
            Err(e) => {
                return Err(e);
            },
        }
    }
}

/// Every token that scanning from `i` yields has a valid span inside the
/// text, starting at or after `i`.
pub proof fn lemma_lex_spans(text: Seq<char>, i: int)
    requires
        0 <= i,
        text.len() < usize::MAX,
    ensures
        lex_from(text, i) matches Ok(ts) ==> forall|k: int|
            0 <= k < ts.len() ==> {
                &&& (#[trigger] ts[k]).span.valid()
                &&& ts[k].span.end.char_num < text.len()
                &&& ts[k].span.start.char_num >= i
            },
    decreases text.len() - i,
{
    if i < text.len() {
        if is_whitespace_spec(text[i]) {
            lemma_lex_spans(text, i + 1);
        } else {
            lemma_scan_token_advances(text, i);
            if let Some((typ, last, next)) = scan_token(text, i) {
                lemma_lex_spans(text, next);
                if let Ok(ts) = lex_from(text, i) {
                    let rest = lex_from(text, next)->Ok_0;
                    assert forall|k: int| 0 <= k < ts.len() implies {
                        &&& (#[trigger] ts[k]).span.valid()
                        &&& ts[k].span.end.char_num < text.len()
                        &&& ts[k].span.start.char_num >= i
                    } by {
                        if k > 0 {
                            assert(ts[k] == rest[k - 1]);
                        }
                    }
                }
            }
        }
    }
}

/// The raw token `t` of `text` qualifies to `q`.
pub open spec fn qualified_from(q: QualifiedToken, t: Token, text: Seq<char>) -> bool {
    q.span == t.span && qualifies_as(q.typ, t.typ, span_text(t.span, text))
}

/// A raw token that cannot be qualified: an integer literal out of range.
pub open spec fn invalid_int(t: Token, text: Seq<char>) -> bool {
    t.typ == TokenType::IntLit && decimal_i32(span_text(t.span, text)) is None
}

/// `qs` are the qualified tokens of `text`.
pub open spec fn qualified_tokens(text: Seq<char>, qs: Seq<QualifiedToken>) -> bool {
    lex(text) matches Ok(ts) && qs.len() == ts.len() && forall|k: int|
        0 <= k < ts.len() ==> qualified_from(#[trigger] qs[k], ts[k], text)
}

/// The qualified tokens of `input`: raw tokens with keywords told apart and
/// literal values read.
pub fn tokenize_qualified(input: &str) -> (r: Result<Vec<QualifiedToken>, LexError>)
    requires
        input@.len() < usize::MAX,
    ensures
        r is Ok <==> (lex(input@) matches Ok(ts) && forall|k: int|
            0 <= k < ts.len() ==> !invalid_int(#[trigger] ts[k], input@)),
        r matches Ok(qs) ==> qualified_tokens(input@, qs@),
        r matches Err(e) ==> lex(input@) == Err::<Seq<Token>, LexError>(e) || (lex(
            input@,
        ) matches Ok(ts) && exists|k: int|
            0 <= k < ts.len() && invalid_int(#[trigger] ts[k], input@) && e
                == LexError::InvalidIntLit { span: ts[k].span }),
{
    let tokens = match tokenize_str(input) {
        Ok(ts) => ts,
        Err(e) => {
            return Err(e);
        },
    };
    proof {
        lemma_lex_spans(input@, 0);
    }
    let mut result: Vec<QualifiedToken> = Vec::new();
    let mut i: usize = 0;
    while i < tokens.len()
        invariant
            lex(input@) == Ok::<Seq<Token>, LexError>(tokens@),
            input@.len() < usize::MAX,
            forall|k: int|
                0 <= k < tokens@.len() ==> {
                    &&& (#[trigger] tokens@[k]).span.valid()
                    &&& tokens@[k].span.end.char_num < input@.len()
                },
            i <= tokens.len(),
            result@.len() == i,
            forall|k: int| 0 <= k < i ==> qualified_from(#[trigger] result@[k], tokens@[k], input@),
            forall|k: int| 0 <= k < i ==> !invalid_int(#[trigger] tokens@[k], input@),
        decreases tokens.len() - i,
    {
        match qualify_token(tokens[i], input) {
            Ok(q) => {
                result.push(q);
            },
            Err(e) => {
                let ghost ts = lex(input@)->Ok_0;
                assert(ts == tokens@);
                assert(invalid_int(ts[i as int], input@));
                assert(e == LexError::InvalidIntLit { span: ts[i as int].span });
                return Err(e);
            },
        }
        i = i + 1;
    }
    Ok(result)
}

} // verus!
