use crate::location::{Location, Span};
use vstd::prelude::*;

verus! {

#[derive(Clone, Copy, Debug, PartialEq, Eq, Structural)]
pub enum Operator {
    Plus,
    PlusAssign,
    Increment,
    Sub,
    SubAssign,
    Decrement,
    Assign,
    Equals,
}

#[derive(Clone, Copy, Debug, PartialEq, Eq, Structural)]
pub enum SpecialChar {
    LParen,
    RParen,
    LBrace,
    RBrace,
    LBracket,
    RBracket,
    Comma,
}

#[derive(Clone, Copy, Debug, PartialEq, Eq, Structural)]
pub enum Keyword {
    If,
    Else,
    While,
    For,
    Return,
}

/// The kind of a raw token. Symbols and literals carry no value: their text
/// is read back from the source through the token's span.
#[derive(Clone, Copy, Debug, PartialEq, Eq, Structural)]
pub enum TokenType {
    Symbol,
    Operator(Operator),
    SpecialChar(SpecialChar),
    IntLit,
    FloatLit,
    End,
    Eof,
}

/// A raw token: its kind and the span of source text it covers.
#[derive(Clone, Copy, Debug, PartialEq, Eq, Structural)]
pub struct Token {
    pub typ: TokenType,
    pub span: Span,
}

impl Token {
    pub fn new(typ: TokenType, span: Span) -> (r: Token)
        ensures
            r.typ == typ,
            r.span == span,
    {
        Token { typ, span }
    }
}

/// The kind of a qualified token: keywords are told apart from other
/// symbols, and literals carry their value. A float literal keeps its
/// numeral, the digits and the point as written.
#[derive(Clone, Debug, PartialEq)]
pub enum QualifiedTokenType {
    Symbol(String),
    Operator(Operator),
    SpecialChar(SpecialChar),
    IntLit(i32),
    FloatLit(String),
    Keyword(Keyword),
    End,
    Eof,
}

impl QualifiedTokenType {
    /// A copy of this kind, text included.
    pub fn duplicate(&self) -> (r: QualifiedTokenType)
        ensures
            r == *self,
    {
        match self {
            QualifiedTokenType::Symbol(s) => QualifiedTokenType::Symbol(s.clone()),
            QualifiedTokenType::Operator(op) => QualifiedTokenType::Operator(*op),
            QualifiedTokenType::SpecialChar(c) => QualifiedTokenType::SpecialChar(*c),
            QualifiedTokenType::IntLit(v) => QualifiedTokenType::IntLit(*v),
            QualifiedTokenType::FloatLit(s) => QualifiedTokenType::FloatLit(s.clone()),
            QualifiedTokenType::Keyword(k) => QualifiedTokenType::Keyword(*k),
            QualifiedTokenType::End => QualifiedTokenType::End,
            QualifiedTokenType::Eof => QualifiedTokenType::Eof,
        }
    }
}

#[derive(Clone, Debug, PartialEq)]
pub struct QualifiedToken {
    pub typ: QualifiedTokenType,
    pub span: Span,
}

impl QualifiedToken {
    /// A copy of this token, text included.
    pub fn duplicate(&self) -> (r: QualifiedToken)
        ensures
            r == *self,
    {
        QualifiedToken { typ: self.typ.duplicate(), span: self.span }
    }
}

/// Why source text could not be turned into tokens.
#[derive(Clone, Copy, Debug, PartialEq, Eq, Structural)]
pub enum LexError {
    /// A character that starts no token.
    UnexpectedChar { ch: char, loc: Location },
    /// An integer literal that is not a decimal numeral within `i32`.
    InvalidIntLit { span: Span },
}

/// The keyword that `text` spells, if any.
pub open spec fn keyword_of(text: Seq<char>) -> Option<Keyword> {
    if text == "if"@ {
        Some(Keyword::If)
    } else if text == "else"@ {
        Some(Keyword::Else)
    } else if text == "while"@ {
        Some(Keyword::While)
    } else if text == "for"@ {
        Some(Keyword::For)
    } else if text == "return"@ {
        Some(Keyword::Return)
    } else {
        None
    }
}

pub open spec fn digit_value(c: char) -> int {
    c as int - '0' as int
}

/// The value of a string of decimal digits.
pub open spec fn decimal_value(text: Seq<char>) -> int
    decreases text.len(),
{
    if text.len() == 0 {
        0
    } else {
        decimal_value(text.drop_last()) * 10 + digit_value(text.last())
    }
}

pub open spec fn all_digits(text: Seq<char>) -> bool {
    forall|k: int| 0 <= k < text.len() ==> '0' <= #[trigger] text[k] <= '9'
}

/// The `i32` that a decimal numeral denotes, if it is one and fits.
pub open spec fn decimal_i32(text: Seq<char>) -> Option<i32> {
    if text.len() > 0 && all_digits(text) && decimal_value(text) <= i32::MAX {
        Some(decimal_value(text) as i32)
    } else {
        None
    }
}

/// The source text that a span covers.
pub open spec fn span_text(span: Span, code: Seq<char>) -> Seq<char> {
    code.subrange(span.start.char_num as int, span.end.char_num + 1)
}

/// `q` is what the raw kind `t` becomes, given the text it covers.
pub open spec fn qualifies_as(q: QualifiedTokenType, t: TokenType, text: Seq<char>) -> bool {
    match t {
        TokenType::Symbol => match keyword_of(text) {
            Some(k) => q == QualifiedTokenType::Keyword(k),
            None => q matches QualifiedTokenType::Symbol(s) && s@ == text,
        },
        TokenType::Operator(op) => q == QualifiedTokenType::Operator(op),
        TokenType::SpecialChar(c) => q == QualifiedTokenType::SpecialChar(c),
        TokenType::IntLit => decimal_i32(text) matches Some(v) && q == QualifiedTokenType::IntLit(v),
        TokenType::FloatLit => q matches QualifiedTokenType::FloatLit(s) && s@ == text,
        TokenType::End => q == QualifiedTokenType::End,
        TokenType::Eof => q == QualifiedTokenType::Eof,
    }
}

pub proof fn lemma_decimal_value_nonneg(text: Seq<char>)
    requires
        all_digits(text),
    ensures
        decimal_value(text) >= 0,
    decreases text.len(),
{
    if text.len() > 0 {
        lemma_decimal_value_nonneg(text.drop_last());
    }
}

/// A numeral is worth at least any of its prefixes.
pub proof fn lemma_decimal_value_prefix(text: Seq<char>, i: int)
    requires
        all_digits(text),
        0 <= i <= text.len(),
    ensures
        decimal_value(text.subrange(0, i)) <= decimal_value(text),
    decreases text.len() - i,
{
    if i < text.len() {
        let p = text.subrange(0, i + 1);
        assert(p.drop_last() == text.subrange(0, i));
        assert(all_digits(p));
        lemma_decimal_value_nonneg(p.drop_last());
        lemma_decimal_value_prefix(text, i + 1);
    } else {
        assert(text.subrange(0, i) == text);
    }
}

/// Whether `s` and `t` hold the same characters.
pub(crate) fn same_chars(s: &str, t: &str) -> (r: bool)
    ensures
        r == (s@ == t@),
{
    let n = s.unicode_len();
    if n != t.unicode_len() {
        return false;
    }
    let mut i: usize = 0;
    while i < n
        invariant
            n == s@.len(),
            n == t@.len(),
            i <= n,
            s@.subrange(0, i as int) == t@.subrange(0, i as int),
        decreases n - i,
    {
        if s.get_char(i) != t.get_char(i) {
            return false;
        }
        assert(s@.subrange(0, i + 1) == s@.subrange(0, i as int).push(s@[i as int]));
        assert(t@.subrange(0, i + 1) == t@.subrange(0, i as int).push(t@[i as int]));
        i = i + 1;
    }
    assert(s@ == s@.subrange(0, n as int));
    assert(t@ == t@.subrange(0, n as int));
    true
}

/// The keyword that `text` spells, if any.
pub fn keyword_from_str(text: &str) -> (r: Option<Keyword>)
    requires
        text@.len() <= usize::MAX,
    ensures
        r == keyword_of(text@),
{
    proof {
        reveal_strlit("if");
        reveal_strlit("else");
        reveal_strlit("while");
        reveal_strlit("for");
        reveal_strlit("return");
    }
    if same_chars(text, "if") {
        Some(Keyword::If)
    } else if same_chars(text, "else") {
        Some(Keyword::Else)
    } else if same_chars(text, "while") {
        Some(Keyword::While)
    } else if same_chars(text, "for") {
        Some(Keyword::For)
    } else if same_chars(text, "return") {
        Some(Keyword::Return)
    } else {
        None
    }
}

/// Reads a decimal numeral as an `i32`; `None` when `text` is empty, holds a
/// character that is no digit, or denotes more than `i32::MAX`.
pub fn parse_i32(text: &str) -> (r: Option<i32>)
    requires
        text@.len() <= usize::MAX,
    ensures
        r == decimal_i32(text@),
{
    let n = text.unicode_len();
    if n == 0 {
        return None;
    }
    let mut value: i64 = 0;
    let mut i: usize = 0;
    while i < n
        invariant
            n == text@.len(),
            i <= n,
            all_digits(text@.subrange(0, i as int)),
            value == decimal_value(text@.subrange(0, i as int)),
            0 <= value <= i32::MAX,
        decreases n - i,
    {
        let c = text.get_char(i);
        let ghost prefix = text@.subrange(0, i as int);
        let ghost next = text@.subrange(0, i + 1);
        assert(next.drop_last() == prefix);
        if !('0' <= c && c <= '9') {
            assert(!all_digits(text@));
            return None;
        }
        let d = (c as u32 - '0' as u32) as i64;
        value = value * 10 + d;
        i = i + 1;
        if value > i32::MAX as i64 {
            assert(all_digits(next));
            proof {
                if all_digits(text@) {
                    lemma_decimal_value_prefix(text@, i as int);
                }
            }
            return None;
        }
    }
    assert(text@.subrange(0, n as int) == text@);
    Some(value as i32)
}

/// Resolves a raw token against the source text it was cut from: a symbol
/// becomes a keyword or keeps its text, a literal gets its value.
pub fn qualify_token(token: Token, code: &str) -> (r: Result<QualifiedToken, LexError>)
    requires
        token.span.valid(),
        token.span.end.char_num < code@.len() <= usize::MAX,
    ensures
        r is Err <==> (token.typ == TokenType::IntLit && decimal_i32(
            span_text(token.span, code@),
        ) is None),
        r matches Ok(q) ==> q.span == token.span && qualifies_as(
            q.typ,
            token.typ,
            span_text(token.span, code@),
        ),
        r matches Err(e) ==> e == (LexError::InvalidIntLit { span: token.span }),
{
    let span = token.span;
    match token.typ {
        TokenType::Symbol => {
            let text = span.slice(code);
            match keyword_from_str(text) {
                Some(k) => Ok(QualifiedToken { typ: QualifiedTokenType::Keyword(k), span }),
                None => Ok(
                    QualifiedToken { typ: QualifiedTokenType::Symbol(text.to_owned()), span },
                ),
            }
        },
        TokenType::Operator(op) => Ok(QualifiedToken { typ: QualifiedTokenType::Operator(op), span }),
        TokenType::SpecialChar(c) => Ok(
            QualifiedToken { typ: QualifiedTokenType::SpecialChar(c), span },
        ),
        TokenType::IntLit => {
            let text = span.slice(code);
            match parse_i32(text) {
                Some(v) => Ok(QualifiedToken { typ: QualifiedTokenType::IntLit(v), span }),
                None => Err(LexError::InvalidIntLit { span }),
            }
        },
        TokenType::FloatLit => {
            let text = span.slice(code);
            Ok(QualifiedToken { typ: QualifiedTokenType::FloatLit(text.to_owned()), span })
        },
        TokenType::End => Ok(QualifiedToken { typ: QualifiedTokenType::End, span }),
        TokenType::Eof => Ok(QualifiedToken { typ: QualifiedTokenType::Eof, span }),
    }
}

} // verus!
