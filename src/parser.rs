use crate::ast::{
    render_arguments, render_block, render_declaration, render_declarations, render_expression,
    render_function, render_functions, render_program, render_statement, render_statements, special,
    BracedExpression, Declaration, End, Expression, FloatLit, Function, IntLit, Program, Spanned,
    Statement, Symbol, Type,
};
use crate::location::Span;
use crate::token::{Operator, QualifiedToken, QualifiedTokenType, SpecialChar};
use vstd::prelude::*;

verus! {

broadcast use vstd::std_specs::vec::group_vec_axioms, vstd::seq::group_seq_axioms,
    vstd::slice::group_slice_axioms;

/// What the parser was looking for when it met another token.
#[derive(Clone, Copy, Debug, PartialEq, Eq, Structural)]
pub enum Expected {
    Symbol,
    LParen,
    RParen,
    LBrace,
    RBrace,
    End,
    IntLit,
    FloatLit,
    /// A braced block, a literal or a symbol.
    Expression,
}

#[derive(Clone, Debug, PartialEq)]
pub enum ParseError {
    UnexpectedToken { expected: Expected, got: QualifiedTokenType },
    OutOfTokens,
}

/// The kinds of a run of tokens.
pub open spec fn kinds(ts: Seq<QualifiedToken>) -> Seq<QualifiedTokenType> {
    ts.map_values(|t: QualifiedToken| t.typ)
}

/// Where each node of an expression read at `i` sits: a leaf has the span
/// of its token, a block spans from its opening to its closing brace.
pub open spec fn expression_at(e: Expression, ts: Seq<QualifiedToken>, i: int) -> bool
    decreases e,
{
    match e {
        Expression::Braced(b) => block_at(b, ts, i),
        Expression::IntLit(l) => l.span == ts[i].span,
        Expression::FloatLit(l) => l.span == ts[i].span,
        Expression::Symbol(s) => s.span == ts[i].span,
    }
}

pub open spec fn block_at(b: BracedExpression, ts: Seq<QualifiedToken>, i: int) -> bool
    decreases b,
{
    &&& b.span == ts[i].span.spec_combine(ts[i + render_block(b).len() - 1].span)
    &&& statements_at(b.statements@, ts, i + 1)
}

/// Statements written one after another from `i`.
pub open spec fn statements_at(ss: Seq<Statement>, ts: Seq<QualifiedToken>, i: int) -> bool
    decreases ss,
{
    if ss.len() == 0 {
        true
    } else {
        statements_at(ss.drop_last(), ts, i) && statement_at(
            ss.last(),
            ts,
            i + render_statements(ss.drop_last()).len(),
        )
    }
}

pub open spec fn declaration_at(d: Declaration, ts: Seq<QualifiedToken>, i: int) -> bool {
    &&& d.typ.symbol.span == ts[i].span
    &&& d.name.span == ts[i + 1].span
    &&& d.span == ts[i].span.spec_combine(ts[i + 1].span)
}

pub open spec fn statement_at(s: Statement, ts: Seq<QualifiedToken>, i: int) -> bool
    decreases s,
{
    match s {
        Statement::Declaration(d, init) => declaration_at(d, ts, i) && (init matches Some(e)
            ==> expression_at(e, ts, i + 3)),
        Statement::Assignment(target, e) => target.span == ts[i].span && expression_at(
            e,
            ts,
            i + 2,
        ),
        Statement::FunctionCall(name, args) => name.span == ts[i].span && arguments_at(
            args@,
            ts,
            i + 2,
        ),
    }
}

/// Call arguments written from `i`, separated by commas.
pub open spec fn arguments_at(args: Seq<Expression>, ts: Seq<QualifiedToken>, i: int) -> bool
    decreases args,
{
    if args.len() == 0 {
        true
    } else if args.len() == 1 {
        expression_at(args[0], ts, i)
    } else {
        arguments_at(args.drop_last(), ts, i) && expression_at(
            args.last(),
            ts,
            i + render_arguments(args.drop_last()).len() + 1,
        )
    }
}

/// Parameter declarations written from `i`, two tokens each.
pub open spec fn declarations_at(ds: Seq<Declaration>, ts: Seq<QualifiedToken>, i: int) -> bool {
    forall|k: int| 0 <= k < ds.len() ==> declaration_at(#[trigger] ds[k], ts, i + 2 * k)
}

/// A function read at `i`: its names, its parameters after the `(`, its body
/// after the `)`, and a span from its return type to the end of its body.
pub open spec fn function_at(f: Function, ts: Seq<QualifiedToken>, i: int) -> bool {
    &&& f.return_type.symbol.span == ts[i].span
    &&& f.name.span == ts[i + 1].span
    &&& declarations_at(f.parameters@, ts, i + 3)
    &&& block_at(f.expr, ts, i + 4 + 2 * f.parameters@.len())
    &&& f.span == ts[i].span.spec_combine(f.expr.span)
}

pub open spec fn functions_at(fs: Seq<Function>, ts: Seq<QualifiedToken>, i: int) -> bool
    decreases fs.len(),
{
    if fs.len() == 0 {
        true
    } else {
        functions_at(fs.drop_last(), ts, i) && function_at(
            fs.last(),
            ts,
            i + render_functions(fs.drop_last()).len(),
        )
    }
}

pub open spec fn program_at(p: Program, ts: Seq<QualifiedToken>, i: int) -> bool {
    functions_at(p.functions@, ts, i)
}

pub open spec fn token_is(ts: Seq<QualifiedToken>, i: int, k: QualifiedTokenType) -> bool {
    0 <= i < ts.len() && ts[i].typ == k
}

pub open spec fn symbol_at(ts: Seq<QualifiedToken>, i: int) -> bool {
    0 <= i < ts.len() && ts[i].typ is Symbol
}

pub open spec fn fits(t: QualifiedTokenType, e: Expected) -> bool {
    match e {
        Expected::Symbol => t is Symbol,
        Expected::LParen => t == special(SpecialChar::LParen),
        Expected::RParen => t == special(SpecialChar::RParen),
        Expected::LBrace => t == special(SpecialChar::LBrace),
        Expected::RBrace => t == special(SpecialChar::RBrace),
        Expected::End => t == QualifiedTokenType::End,
        Expected::IntLit => t is IntLit,
        Expected::FloatLit => t is FloatLit,
        Expected::Expression => t == special(SpecialChar::LBrace) || t is IntLit || t is FloatLit
            || t is Symbol,
    }
}

/// Reading one token of the expected sort at `i`: the position after it, or
/// why there is none.
pub open spec fn expect(ts: Seq<QualifiedToken>, i: int, e: Expected) -> Result<int, ParseError> {
    if i < 0 || i >= ts.len() {
        Err(ParseError::OutOfTokens)
    } else if fits(ts[i].typ, e) {
        Ok(i + 1)
    } else {
        Err(ParseError::UnexpectedToken { expected: e, got: ts[i].typ })
    }
}

/// Where an expression that starts at `i` ends (exclusive).
pub open spec fn rec_expression(ts: Seq<QualifiedToken>, i: int) -> Result<int, ParseError>
    decreases ts.len() - i, 3int,
{
    if 0 <= i < ts.len() && ts[i].typ == special(SpecialChar::LBrace) {
        rec_block(ts, i)
    } else {
        expect(ts, i, Expected::Expression)
    }
}

/// Where a braced block that starts at `i` ends.
pub open spec fn rec_block(ts: Seq<QualifiedToken>, i: int) -> Result<int, ParseError>
    decreases ts.len() - i, 2int,
{
    if 0 <= i < ts.len() && ts[i].typ == special(SpecialChar::LBrace) {
        expect(ts, rec_statements(ts, i + 1), Expected::RBrace)
    } else {
        expect(ts, i, Expected::LBrace)
    }
}

/// Where a run of statements from `i` ends: statements are read while one
/// can be.
pub open spec fn rec_statements(ts: Seq<QualifiedToken>, i: int) -> int
    decreases ts.len() - i, 1int,
{
    match rec_statement(ts, i) {
        Ok(j) => if i < j <= ts.len() {
            rec_statements(ts, j)
        } else {
            i
        },
        Err(_) => i,
    }
}

/// Reads the expression at `i`, then the `;` after it.
pub open spec fn rec_expression_end(ts: Seq<QualifiedToken>, i: int) -> Result<int, ParseError>
    decreases ts.len() - i, 4int,
{
    match rec_expression(ts, i) {
        Ok(j) => expect(ts, j, Expected::End),
        Err(e) => Err(e),
    }
}

/// Where a statement that starts at `i` ends. Two symbols start a
/// declaration, a symbol and `=` an assignment, anything else a call.
pub open spec fn rec_statement(ts: Seq<QualifiedToken>, i: int) -> Result<int, ParseError>
    decreases ts.len() - i, 0int,
{
    if !symbol_at(ts, i) {
        expect(ts, i, Expected::Symbol)
    } else if symbol_at(ts, i + 1) {
        if token_is(ts, i + 2, QualifiedTokenType::Operator(Operator::Assign)) {
            rec_expression_end(ts, i + 3)
        } else {
            expect(ts, i + 2, Expected::End)
        }
    } else if token_is(ts, i + 1, QualifiedTokenType::Operator(Operator::Assign)) {
        rec_expression_end(ts, i + 2)
    } else if !token_is(ts, i + 1, special(SpecialChar::LParen)) {
        expect(ts, i + 1, Expected::LParen)
    } else if token_is(ts, i + 2, special(SpecialChar::RParen)) {
        expect(ts, i + 3, Expected::End)
    } else {
        match rec_arguments(ts, i + 2) {
            Ok(j) => expect(ts, j, Expected::End),
            Err(e) => Err(e),
        }
    }
}

/// Where call arguments from `i` end, past the closing parenthesis: one or
/// more expressions separated by commas.
pub open spec fn rec_arguments(ts: Seq<QualifiedToken>, i: int) -> Result<int, ParseError>
    decreases ts.len() - i, 4int,
{
    match rec_expression(ts, i) {
        Ok(j) => if token_is(ts, j, special(SpecialChar::Comma)) && i < j {
            rec_arguments(ts, j + 1)
        } else {
            expect(ts, j, Expected::RParen)
        },
        Err(e) => Err(e),
    }
}

/// Where a run of parameter declarations from `i` ends.
pub open spec fn rec_declarations(ts: Seq<QualifiedToken>, i: int) -> int
    decreases ts.len() - i,
{
    if symbol_at(ts, i) && symbol_at(ts, i + 1) {
        rec_declarations(ts, i + 2)
    } else {
        i
    }
}

/// Where a function definition that starts at `i` ends.
pub open spec fn rec_function(ts: Seq<QualifiedToken>, i: int) -> Result<int, ParseError> {
    if !symbol_at(ts, i) {
        expect(ts, i, Expected::Symbol)
    } else if !symbol_at(ts, i + 1) {
        expect(ts, i + 1, Expected::Symbol)
    } else if !token_is(ts, i + 2, special(SpecialChar::LParen)) {
        expect(ts, i + 2, Expected::LParen)
    } else {
        let k = rec_declarations(ts, i + 3);
        if !token_is(ts, k, special(SpecialChar::RParen)) {
            expect(ts, k, Expected::RParen)
        } else {
            rec_block(ts, k + 1)
        }
    }
}

/// Reading functions from `i` until the tokens run out.
pub open spec fn rec_program(ts: Seq<QualifiedToken>, i: int) -> Result<int, ParseError>
    decreases ts.len() - i,
{
    if i < 0 || i >= ts.len() {
        Ok(i)
    } else {
        match rec_function(ts, i) {
            Ok(j) => if i < j {
                rec_program(ts, j)
            } else {
                Ok(j)
            },
            Err(e) => Err(e),
        }
    }
}

/// The kinds of the tokens from `i` to `k` are those from `i` to `j`
/// followed by those from `j` to `k`.
pub proof fn lemma_kinds_split(ts: Seq<QualifiedToken>, i: int, j: int, k: int)
    requires
        0 <= i <= j <= k <= ts.len(),
    ensures
        kinds(ts.subrange(i, k)) == kinds(ts.subrange(i, j)) + kinds(ts.subrange(j, k)),
{
    assert(kinds(ts.subrange(i, k)) =~= kinds(ts.subrange(i, j)) + kinds(ts.subrange(j, k)));
}

pub proof fn lemma_kinds_one(ts: Seq<QualifiedToken>, i: int)
    requires
        0 <= i < ts.len(),
    ensures
        kinds(ts.subrange(i, i + 1)) == seq![ts[i].typ],
{
    assert(kinds(ts.subrange(i, i + 1)) =~= seq![ts[i].typ]);
}

pub proof fn lemma_kinds_empty(ts: Seq<QualifiedToken>, i: int)
    requires
        0 <= i <= ts.len(),
    ensures
        kinds(ts.subrange(i, i)) == Seq::<QualifiedTokenType>::empty(),
{
    assert(kinds(ts.subrange(i, i)) =~= Seq::<QualifiedTokenType>::empty());
}

/// A slice never holds more than `usize::MAX` items.
proof fn lemma_slice_len(ts: &[QualifiedToken])
    ensures
        ts@.len() <= usize::MAX,
{
    assert(ts.len() == ts@.len());
}

fn fits_exec(t: &QualifiedTokenType, e: Expected) -> (r: bool)
    ensures
        r == fits(*t, e),
{
    match e {
        Expected::Symbol => matches!(t, QualifiedTokenType::Symbol(_)),
        Expected::LParen => matches!(t, QualifiedTokenType::SpecialChar(SpecialChar::LParen)),
        Expected::RParen => matches!(t, QualifiedTokenType::SpecialChar(SpecialChar::RParen)),
        Expected::LBrace => matches!(t, QualifiedTokenType::SpecialChar(SpecialChar::LBrace)),
        Expected::RBrace => matches!(t, QualifiedTokenType::SpecialChar(SpecialChar::RBrace)),
        Expected::End => matches!(t, QualifiedTokenType::End),
        Expected::IntLit => matches!(t, QualifiedTokenType::IntLit(_)),
        Expected::FloatLit => matches!(t, QualifiedTokenType::FloatLit(_)),
        Expected::Expression => matches!(
            t,
            QualifiedTokenType::SpecialChar(SpecialChar::LBrace) | QualifiedTokenType::IntLit(_)
                | QualifiedTokenType::FloatLit(_) | QualifiedTokenType::Symbol(_)
        ),
    }
}

/// Reads one token of the expected sort at `i` and returns its span.
fn expect_at(ts: &[QualifiedToken], i: usize, e: Expected) -> (r: Result<Span, ParseError>)
    ensures
        r matches Ok(span) ==> expect(ts@, i as int, e) == Ok::<int, ParseError>(i + 1) && i
            < ts@.len() && span == ts@[i as int].span,
        r matches Err(err) ==> expect(ts@, i as int, e) == Err::<int, ParseError>(err),
{
    if i >= ts.len() {
        return Err(ParseError::OutOfTokens);
    }
    if fits_exec(&ts[i].typ, e) {
        Ok(ts[i].span)
    } else {
        Err(ParseError::UnexpectedToken { expected: e, got: ts[i].typ.duplicate() })
    }
}

fn is_special_at(ts: &[QualifiedToken], i: usize, c: SpecialChar) -> (r: bool)
    ensures
        r == token_is(ts@, i as int, special(c)),
{
    i < ts.len() && match &ts[i].typ {
        QualifiedTokenType::SpecialChar(d) => *d == c,
        _ => false,
    }
}

fn is_symbol_at(ts: &[QualifiedToken], i: usize) -> (r: bool)
    ensures
        r == symbol_at(ts@, i as int),
{
    i < ts.len() && matches!(ts[i].typ, QualifiedTokenType::Symbol(_))
}

fn is_assign_at(ts: &[QualifiedToken], i: usize) -> (r: bool)
    ensures
        r == token_is(ts@, i as int, QualifiedTokenType::Operator(Operator::Assign)),
{
    i < ts.len() && matches!(ts[i].typ, QualifiedTokenType::Operator(Operator::Assign))
}

/// Reads the symbol at `i`.
fn parse_symbol_at(ts: &[QualifiedToken], i: usize) -> (r: Result<Symbol, ParseError>)
    ensures
        r matches Ok(s) ==> i < ts@.len() && ts@[i as int].typ == QualifiedTokenType::Symbol(s.text)
            && s.span == ts@[i as int].span,
        r matches Err(e) ==> expect(ts@, i as int, Expected::Symbol) == Err::<int, ParseError>(e),
        r is Ok <==> symbol_at(ts@, i as int),
{
    if i >= ts.len() {
        return Err(ParseError::OutOfTokens);
    }
    match &ts[i].typ {
        QualifiedTokenType::Symbol(text) => Ok(Symbol { text: text.clone(), span: ts[i].span }),
        other => Err(ParseError::UnexpectedToken { expected: Expected::Symbol, got: other.duplicate() }),
    }
}

/// Reads an expression that starts at `i`; returns it with the position
/// after it.
pub fn parse_expression_at(ts: &[QualifiedToken], i: usize) -> (r: Result<
    (Expression, usize),
    ParseError,
>)
    ensures
        r matches Ok((x, j)) ==> rec_expression(ts@, i as int) == Ok::<int, ParseError>(j as int)
            && i < j <= ts@.len() && render_expression(x) == kinds(
            ts@.subrange(i as int, j as int),
        ) && expression_at(x, ts@, i as int),
        r matches Err(e) ==> rec_expression(ts@, i as int) == Err::<int, ParseError>(e),
    decreases ts@.len() - i, 3int,
{
    if i >= ts.len() {
        return Err(ParseError::OutOfTokens);
    }
    proof {
        lemma_kinds_one(ts@, i as int);
    }
    let span = ts[i].span;
    match &ts[i].typ {
        QualifiedTokenType::SpecialChar(SpecialChar::LBrace) => match parse_block_at(ts, i) {
            Ok((b, j)) => Ok((Expression::Braced(b), j)),
            Err(e) => Err(e),
        },
        QualifiedTokenType::IntLit(v) => Ok((Expression::IntLit(IntLit { span, value: *v }), i + 1)),
        QualifiedTokenType::FloatLit(text) => Ok(
            (Expression::FloatLit(FloatLit { span, text: text.clone() }), i + 1),
        ),
        QualifiedTokenType::Symbol(text) => Ok(
            (Expression::Symbol(Symbol { text: text.clone(), span }), i + 1),
        ),
        other => Err(
            ParseError::UnexpectedToken { expected: Expected::Expression, got: other.duplicate() },
        ),
    }
}

/// Reads a braced block that starts at `i`: statements are read while one
/// can be, then the closing brace is required.
pub fn parse_block_at(ts: &[QualifiedToken], i: usize) -> (r: Result<
    (BracedExpression, usize),
    ParseError,
>)
    ensures
        r matches Ok((b, j)) ==> rec_block(ts@, i as int) == Ok::<int, ParseError>(j as int) && i
            < j <= ts@.len() && render_block(b) == kinds(ts@.subrange(i as int, j as int))
            && block_at(b, ts@, i as int),
        r matches Err(e) ==> rec_block(ts@, i as int) == Err::<int, ParseError>(e),
    decreases ts@.len() - i, 2int,
{
    let open = match expect_at(ts, i, Expected::LBrace) {
        Ok(span) => span,
        Err(e) => {
            return Err(e);
        },
    };
    proof {
        lemma_slice_len(ts);
    }
    let mut statements: Vec<Statement> = Vec::new();
    let mut cur = i + 1;
    proof {
        lemma_kinds_empty(ts@, cur as int);
    }
    loop
        invariant
            i + 1 <= cur <= ts@.len(),
            rec_statements(ts@, i + 1) == rec_statements(ts@, cur as int),
            render_statements(statements@) == kinds(ts@.subrange(i + 1, cur as int)),
            statements_at(statements@, ts@, i + 1),
        ensures
            i + 1 <= cur <= ts@.len(),
            rec_statements(ts@, i + 1) == cur,
            render_statements(statements@) == kinds(ts@.subrange(i + 1, cur as int)),
            statements_at(statements@, ts@, i + 1),
        decreases ts@.len() - cur,
    {
        match parse_statement_at(ts, cur) {
            Ok((s, j)) => {
                proof {
                    lemma_kinds_split(ts@, i + 1, cur as int, j as int);
                    assert(statements@.push(s).drop_last() == statements@);
                    assert(render_statements(statements@).len() == cur - (i + 1));
                }
                statements.push(s);
                cur = j;
            },
            Err(_) => {
                break ;
            },
        }
    }
    let close = match expect_at(ts, cur, Expected::RBrace) {
        Ok(span) => span,
        Err(e) => {
            return Err(e);
        },
    };
    proof {
        lemma_kinds_one(ts@, i as int);
        lemma_kinds_one(ts@, cur as int);
        lemma_kinds_split(ts@, i as int, i + 1, cur as int);
        lemma_kinds_split(ts@, i as int, cur as int, cur + 1);
    }
    let b = BracedExpression { span: open.combine(close), statements };
    assert(render_block(b) == kinds(ts@.subrange(i as int, cur + 1)));
    assert(render_block(b).len() == cur + 1 - i);
    Ok((b, cur + 1))
}

/// Reads call arguments from `i`: expressions separated by commas, up to
/// and past the closing parenthesis.
pub fn parse_arguments_at(ts: &[QualifiedToken], i: usize) -> (r: Result<
    (Vec<Expression>, usize),
    ParseError,
>)
    ensures
        r matches Ok((args, j)) ==> rec_arguments(ts@, i as int) == Ok::<int, ParseError>(j as int)
            && i < j <= ts@.len() && render_arguments(args@) + seq![special(SpecialChar::RParen)]
            == kinds(ts@.subrange(i as int, j as int)) && arguments_at(args@, ts@, i as int),
        r matches Err(e) ==> rec_arguments(ts@, i as int) == Err::<int, ParseError>(e),
    decreases ts@.len() - i, 4int,
{
    proof {
        lemma_slice_len(ts);
    }
    if i >= ts.len() {
        assert(rec_expression(ts@, i as int) == Err::<int, ParseError>(ParseError::OutOfTokens));
        return Err(ParseError::OutOfTokens);
    }
    let mut args: Vec<Expression> = Vec::new();
    let mut cur = i;
    loop
        invariant_except_break
            i <= cur <= ts@.len() <= usize::MAX,
            rec_arguments(ts@, i as int) == rec_arguments(ts@, cur as int),
            args@.len() > 0 ==> render_arguments(args@) + seq![special(SpecialChar::Comma)]
                == kinds(ts@.subrange(i as int, cur as int)),
            args@.len() == 0 ==> cur == i,
            arguments_at(args@, ts@, i as int),
        ensures
            i < cur <= ts@.len(),
            rec_arguments(ts@, i as int) == Ok::<int, ParseError>(cur as int),
            render_arguments(args@) + seq![special(SpecialChar::RParen)] == kinds(
                ts@.subrange(i as int, cur as int),
            ),
            arguments_at(args@, ts@, i as int),
        decreases ts@.len() - cur,
    {
        let (e, j) = match parse_expression_at(ts, cur) {
            Ok(p) => p,
            Err(err) => {
                return Err(err);
            },
        };
        proof {
            lemma_kinds_split(ts@, i as int, cur as int, j as int);
            assert(args@.push(e).drop_last() == args@);
            if args@.len() == 0 {
                lemma_kinds_empty(ts@, cur as int);
            } else {
                assert((render_arguments(args@) + seq![special(SpecialChar::Comma)]).len() == cur - i);
            }
        }
        args.push(e);
        if is_special_at(ts, j, SpecialChar::Comma) {
            proof {
                lemma_kinds_one(ts@, j as int);
                lemma_kinds_split(ts@, i as int, j as int, j + 1);
            }
            cur = j + 1;
        } else {
            if let Err(err) = expect_at(ts, j, Expected::RParen) {
                return Err(err);
            }
            proof {
                lemma_kinds_one(ts@, j as int);
                lemma_kinds_split(ts@, i as int, j as int, j + 1);
            }
            cur = j + 1;
            break ;
        }
    }
    Ok((args, cur))
}

/// Reads a statement that starts at `i`: a declaration with an optional
/// initializer, an assignment, or a call.
#[verifier::rlimit(40)]
pub fn parse_statement_at(ts: &[QualifiedToken], i: usize) -> (r: Result<
    (Statement, usize),
    ParseError,
>)
    ensures
        r matches Ok((s, j)) ==> rec_statement(ts@, i as int) == Ok::<int, ParseError>(j as int)
            && i < j <= ts@.len() && render_statement(s) == kinds(
            ts@.subrange(i as int, j as int),
        ) && statement_at(s, ts@, i as int),
        r matches Err(e) ==> rec_statement(ts@, i as int) == Err::<int, ParseError>(e),
    decreases ts@.len() - i, 0int,
{
    let first = match parse_symbol_at(ts, i) {
        Ok(s) => s,
        Err(e) => {
            return Err(e);
        },
    };
    proof {
        lemma_slice_len(ts);
        lemma_kinds_one(ts@, i as int);
    }
    if is_symbol_at(ts, i + 1) {
        let second = match parse_symbol_at(ts, i + 1) {
            Ok(s) => s,
            Err(e) => {
                return Err(e);
            },
        };
        proof {
            lemma_kinds_one(ts@, i + 1);
            lemma_kinds_split(ts@, i as int, i + 1, i + 2);
        }
        let dec = Declaration {
            span: first.span.combine(second.span),
            typ: Type::from(first),
            name: second,
        };
        if is_assign_at(ts, i + 2) {
            let (e, j) = match parse_expression_at(ts, i + 3) {
                Ok(p) => p,
                Err(e) => {
                    return Err(e);
                },
            };
            if let Err(err) = expect_at(ts, j, Expected::End) {
                return Err(err);
            }
            proof {
                lemma_kinds_one(ts@, i + 2);
                lemma_kinds_one(ts@, j as int);
                lemma_kinds_split(ts@, i as int, i + 2, i + 3);
                lemma_kinds_split(ts@, i as int, i + 3, j as int);
                lemma_kinds_split(ts@, i as int, j as int, j + 1);
                assert(render_statement(Statement::Declaration(dec, Some(e))) =~= kinds(
                    ts@.subrange(i as int, j + 1),
                ));
            }
            Ok((Statement::Declaration(dec, Some(e)), j + 1))
        } else {
            if let Err(err) = expect_at(ts, i + 2, Expected::End) {
                return Err(err);
            }
            proof {
                lemma_kinds_one(ts@, i + 2);
                lemma_kinds_split(ts@, i as int, i + 2, i + 3);
                assert(render_statement(Statement::Declaration(dec, None)) =~= kinds(
                    ts@.subrange(i as int, i + 3),
                ));
            }
            Ok((Statement::Declaration(dec, None), i + 3))
        }
    } else if is_assign_at(ts, i + 1) {
        let (e, j) = match parse_expression_at(ts, i + 2) {
            Ok(p) => p,
            Err(e) => {
                return Err(e);
            },
        };
        if let Err(err) = expect_at(ts, j, Expected::End) {
            return Err(err);
        }
        proof {
            lemma_kinds_one(ts@, i + 1);
            lemma_kinds_one(ts@, j as int);
            lemma_kinds_split(ts@, i as int, i + 1, i + 2);
            lemma_kinds_split(ts@, i as int, i + 2, j as int);
            lemma_kinds_split(ts@, i as int, j as int, j + 1);
            assert(render_statement(Statement::Assignment(first, e)) =~= kinds(
                ts@.subrange(i as int, j + 1),
            ));
        }
        Ok((Statement::Assignment(first, e), j + 1))
    } else {
        if let Err(err) = expect_at(ts, i + 1, Expected::LParen) {
            return Err(err);
        }
        proof {
            lemma_kinds_one(ts@, i + 1);
            lemma_kinds_split(ts@, i as int, i + 1, i + 2);
        }
        let mut args: Vec<Expression> = Vec::new();
        if is_special_at(ts, i + 2, SpecialChar::RParen) {
            if let Err(err) = expect_at(ts, i + 3, Expected::End) {
                return Err(err);
            }
            proof {
                lemma_kinds_one(ts@, i + 2);
                lemma_kinds_one(ts@, i + 3);
                lemma_kinds_split(ts@, i as int, i + 2, i + 3);
                lemma_kinds_split(ts@, i as int, i + 3, i + 4);
                assert(render_statement(Statement::FunctionCall(first, args)) =~= kinds(
                    ts@.subrange(i as int, i + 4),
                ));
            }
            return Ok((Statement::FunctionCall(first, args), i + 4));
        }
        let (args, cur) = match parse_arguments_at(ts, i + 2) {
            Ok(p) => p,
            Err(err) => {
                return Err(err);
            },
        };
        if let Err(err) = expect_at(ts, cur, Expected::End) {
            return Err(err);
        }
        proof {
            lemma_kinds_one(ts@, cur as int);
            lemma_kinds_split(ts@, i as int, i + 2, cur as int);
            lemma_kinds_split(ts@, i as int, cur as int, cur + 1);
            assert(render_statement(Statement::FunctionCall(first, args)) =~= kinds(
                ts@.subrange(i as int, cur + 1),
            ));
        }
        Ok((Statement::FunctionCall(first, args), cur + 1))
    }
}

/// Reads a function definition that starts at `i`: return type, name,
/// parameter declarations in parentheses, and a braced body.
pub fn parse_function_at(ts: &[QualifiedToken], i: usize) -> (r: Result<
    (Function, usize),
    ParseError,
>)
    ensures
        r matches Ok((f, j)) ==> rec_function(ts@, i as int) == Ok::<int, ParseError>(j as int)
            && i < j <= ts@.len() && render_function(f) == kinds(ts@.subrange(i as int, j as int))
            && function_at(f, ts@, i as int),
        r matches Err(e) ==> rec_function(ts@, i as int) == Err::<int, ParseError>(e),
{
    proof {
        lemma_slice_len(ts);
    }
    let return_type = match parse_symbol_at(ts, i) {
        Ok(s) => s,
        Err(e) => {
            return Err(e);
        },
    };
    let name = match parse_symbol_at(ts, i + 1) {
        Ok(s) => s,
        Err(e) => {
            return Err(e);
        },
    };
    if let Err(e) = expect_at(ts, i + 2, Expected::LParen) {
        return Err(e);
    }
    proof {
        lemma_kinds_one(ts@, i as int);
        lemma_kinds_one(ts@, i + 1);
        lemma_kinds_one(ts@, i + 2);
        lemma_kinds_empty(ts@, i + 3);
    }
    let mut parameters: Vec<Declaration> = Vec::new();
    let mut cur = i + 3;
    while is_symbol_at(ts, cur) && is_symbol_at(ts, cur + 1)
        invariant
            i + 3 <= cur <= ts@.len() <= usize::MAX,
            rec_declarations(ts@, i + 3) == rec_declarations(ts@, cur as int),
            render_declarations(parameters@) == kinds(ts@.subrange(i + 3, cur as int)),
            cur == i + 3 + 2 * parameters@.len(),
            declarations_at(parameters@, ts@, i + 3),
        decreases ts@.len() - cur,
    {
        let typ = match parse_symbol_at(ts, cur) {
            Ok(s) => s,
            Err(e) => {
                return Err(e);
            },
        };
        let pname = match parse_symbol_at(ts, cur + 1) {
            Ok(s) => s,
            Err(e) => {
                return Err(e);
            },
        };
        let dec = Declaration { span: typ.span.combine(pname.span), typ: Type::from(typ), name: pname };
        proof {
            lemma_kinds_one(ts@, cur as int);
            lemma_kinds_one(ts@, cur + 1);
            lemma_kinds_split(ts@, i + 3, cur as int, cur + 1);
            lemma_kinds_split(ts@, i + 3, cur + 1, cur + 2);
            assert(parameters@.push(dec).drop_last() == parameters@);
            assert(render_declaration(dec) == seq![ts@[cur as int].typ, ts@[cur + 1].typ]);
        }
        parameters.push(dec);
        cur = cur + 2;
    }
    if let Err(e) = expect_at(ts, cur, Expected::RParen) {
        return Err(e);
    }
    let (body, j) = match parse_block_at(ts, cur + 1) {
        Ok(p) => p,
        Err(e) => {
            return Err(e);
        },
    };
    proof {
        lemma_kinds_one(ts@, cur as int);
        lemma_kinds_split(ts@, i as int, i + 1, i + 2);
        lemma_kinds_split(ts@, i as int, i + 2, i + 3);
        lemma_kinds_split(ts@, i as int, i + 3, cur as int);
        lemma_kinds_split(ts@, i as int, cur as int, cur + 1);
        lemma_kinds_split(ts@, i as int, cur + 1, j as int);
    }
    let f = Function {
        span: return_type.span.combine(body.span),
        return_type: Type::from(return_type),
        name,
        parameters,
        expr: body,
    };
    proof {
        assert(render_function(f) =~= kinds(ts@.subrange(i as int, j as int)));
    }
    Ok((f, j))
}

/// Reads function definitions from `i` until the tokens run out; the first
/// failure ends the whole parse.
pub fn parse_program_at(ts: &[QualifiedToken], i: usize) -> (r: Result<(Program, usize), ParseError>)
    requires
        i <= ts@.len(),
    ensures
        r matches Ok((p, j)) ==> rec_program(ts@, i as int) == Ok::<int, ParseError>(j as int) && j
            == ts@.len() && render_program(p) == kinds(ts@.subrange(i as int, j as int))
            && program_at(p, ts@, i as int),
        r matches Err(e) ==> rec_program(ts@, i as int) == Err::<int, ParseError>(e),
{
    proof {
        lemma_slice_len(ts);
        lemma_kinds_empty(ts@, i as int);
    }
    let mut functions: Vec<Function> = Vec::new();
    let mut cur: usize = i;
    while cur < ts.len()
        invariant
            i <= cur <= ts@.len() <= usize::MAX,
            rec_program(ts@, i as int) == rec_program(ts@, cur as int),
            render_functions(functions@) == kinds(ts@.subrange(i as int, cur as int)),
            functions_at(functions@, ts@, i as int),
        decreases ts@.len() - cur,
    {
        let (f, j) = match parse_function_at(ts, cur) {
            Ok(p) => p,
            Err(e) => {
                return Err(e);
            },
        };
        proof {
            lemma_kinds_split(ts@, i as int, cur as int, j as int);
            assert(functions@.push(f).drop_last() == functions@);
            assert(render_functions(functions@).len() == cur - i);
        }
        functions.push(f);
        cur = j;
    }
    Ok((Program { functions }, cur))
}

/// Reads a whole token sequence as a program.
pub fn parse_tokens(ts: &[QualifiedToken]) -> (r: Result<Program, ParseError>)
    ensures
        r matches Ok(p) ==> rec_program(ts@, 0) == Ok::<int, ParseError>(ts@.len() as int)
            && render_program(p) == kinds(ts@) && program_at(p, ts@, 0),
        r matches Err(e) ==> rec_program(ts@, 0) == Err::<int, ParseError>(e),
{
    match parse_program_at(ts, 0) {
        Ok((p, _)) => {
            assert(ts@.subrange(0, ts@.len() as int) == ts@);
            Ok(p)
        },
        Err(e) => Err(e),
    }
}

/// A cursor over qualified tokens. Copying it is cheap, which is how the
/// parser tries an alternative and backs out of it.
#[derive(Clone, Copy, Debug)]
pub struct TokenIter<'a> {
    pub tokens: &'a [QualifiedToken],
    pub pos: usize,
}

impl<'a> TokenIter<'a> {
    pub fn new(tokens: &'a [QualifiedToken]) -> (r: TokenIter<'a>)
        ensures
            r.tokens@ == tokens@,
            r.pos == 0,
    {
        TokenIter { tokens, pos: 0 }
    }

    /// Whether no token is left.
    pub fn is_empty(&self) -> (r: bool)
        ensures
            r == (self.pos >= self.tokens@.len()),
    {
        self.pos >= self.tokens.len()
    }

    /// Takes the next token.
    pub fn next(&mut self) -> (r: Option<QualifiedToken>)
        ensures
            final(self).tokens@ == old(self).tokens@,
            old(self).pos < old(self).tokens@.len() ==> r == Some(
                old(self).tokens@[old(self).pos as int],
            ) && final(self).pos == old(self).pos + 1,
            old(self).pos >= old(self).tokens@.len() ==> r is None && final(self).pos == old(
                self,
            ).pos,
    {
        if self.pos < self.tokens.len() {
            let t = self.tokens[self.pos].duplicate();
            self.pos = self.pos + 1;
            Some(t)
        } else {
            None
        }
    }
}

/// A syntax node that can be read from tokens. On failure the cursor is
/// left where it was, so a failed attempt costs nothing to back out of.
pub trait Parse: Sized {
    /// Where a node of this sort that starts at `pos` ends, or why none does.
    spec fn recognize(tokens: Seq<QualifiedToken>, pos: int) -> Result<int, ParseError>;

    /// The token kinds the node is written with.
    spec fn rendered(&self) -> Seq<QualifiedTokenType>;

    /// The spans of the node sit on the tokens it was read from, from `pos`.
    spec fn placed(&self, tokens: Seq<QualifiedToken>, pos: int) -> bool;

    fn parse(tokens: &mut TokenIter) -> (r: Result<Self, ParseError>)
        ensures
            final(tokens).tokens@ == old(tokens).tokens@,
            r matches Ok(x) ==> Self::recognize(old(tokens).tokens@, old(tokens).pos as int) == Ok::<
                int,
                ParseError,
            >(final(tokens).pos as int) && x.rendered() == kinds(
                old(tokens).tokens@.subrange(old(tokens).pos as int, final(tokens).pos as int),
            ) && x.placed(old(tokens).tokens@, old(tokens).pos as int),
            r matches Err(e) ==> Self::recognize(old(tokens).tokens@, old(tokens).pos as int)
                == Err::<int, ParseError>(e) && final(tokens).pos == old(tokens).pos,
    ;
}

impl Parse for Symbol {
    open spec fn recognize(tokens: Seq<QualifiedToken>, pos: int) -> Result<int, ParseError> {
        expect(tokens, pos, Expected::Symbol)
    }

    open spec fn rendered(&self) -> Seq<QualifiedTokenType> {
        seq![QualifiedTokenType::Symbol(self.text)]
    }

    open spec fn placed(&self, tokens: Seq<QualifiedToken>, pos: int) -> bool {
        self.span == tokens[pos].span
    }

    fn parse(tokens: &mut TokenIter) -> (r: Result<Symbol, ParseError>) {
        match parse_symbol_at(tokens.tokens, tokens.pos) {
            Ok(s) => {
                proof {
                    lemma_slice_len(tokens.tokens);
                    lemma_kinds_one(tokens.tokens@, tokens.pos as int);
                }
                tokens.pos = tokens.pos + 1;
                Ok(s)
            },
            Err(e) => Err(e),
        }
    }
}

impl Parse for End {
    open spec fn recognize(tokens: Seq<QualifiedToken>, pos: int) -> Result<int, ParseError> {
        expect(tokens, pos, Expected::End)
    }

    open spec fn rendered(&self) -> Seq<QualifiedTokenType> {
        seq![QualifiedTokenType::End]
    }

    open spec fn placed(&self, tokens: Seq<QualifiedToken>, pos: int) -> bool {
        self.span == tokens[pos].span
    }

    fn parse(tokens: &mut TokenIter) -> (r: Result<End, ParseError>) {
        match expect_at(tokens.tokens, tokens.pos, Expected::End) {
            Ok(span) => {
                proof {
                    lemma_slice_len(tokens.tokens);
                    lemma_kinds_one(tokens.tokens@, tokens.pos as int);
                }
                tokens.pos = tokens.pos + 1;
                Ok(End { span })
            },
            Err(e) => Err(e),
        }
    }
}

impl Parse for IntLit {
    open spec fn recognize(tokens: Seq<QualifiedToken>, pos: int) -> Result<int, ParseError> {
        expect(tokens, pos, Expected::IntLit)
    }

    open spec fn rendered(&self) -> Seq<QualifiedTokenType> {
        seq![QualifiedTokenType::IntLit(self.value)]
    }

    open spec fn placed(&self, tokens: Seq<QualifiedToken>, pos: int) -> bool {
        self.span == tokens[pos].span
    }

    fn parse(tokens: &mut TokenIter) -> (r: Result<IntLit, ParseError>) {
        proof {
            lemma_slice_len(tokens.tokens);
        }
        let i = tokens.pos;
        if i >= tokens.tokens.len() {
            return Err(ParseError::OutOfTokens);
        }
        proof {
            lemma_kinds_one(tokens.tokens@, i as int);
        }
        match &tokens.tokens[i].typ {
            QualifiedTokenType::IntLit(v) => {
                let lit = IntLit { span: tokens.tokens[i].span, value: *v };
                tokens.pos = i + 1;
                Ok(lit)
            },
            other => Err(
                ParseError::UnexpectedToken { expected: Expected::IntLit, got: other.duplicate() },
            ),
        }
    }
}

impl Parse for FloatLit {
    open spec fn recognize(tokens: Seq<QualifiedToken>, pos: int) -> Result<int, ParseError> {
        expect(tokens, pos, Expected::FloatLit)
    }

    open spec fn rendered(&self) -> Seq<QualifiedTokenType> {
        seq![QualifiedTokenType::FloatLit(self.text)]
    }

    open spec fn placed(&self, tokens: Seq<QualifiedToken>, pos: int) -> bool {
        self.span == tokens[pos].span
    }

    fn parse(tokens: &mut TokenIter) -> (r: Result<FloatLit, ParseError>) {
        proof {
            lemma_slice_len(tokens.tokens);
        }
        let i = tokens.pos;
        if i >= tokens.tokens.len() {
            return Err(ParseError::OutOfTokens);
        }
        proof {
            lemma_kinds_one(tokens.tokens@, i as int);
        }
        match &tokens.tokens[i].typ {
            QualifiedTokenType::FloatLit(text) => {
                let lit = FloatLit { span: tokens.tokens[i].span, text: text.clone() };
                tokens.pos = i + 1;
                Ok(lit)
            },
            other => Err(
                ParseError::UnexpectedToken { expected: Expected::FloatLit, got: other.duplicate() },
            ),
        }
    }
}

impl Parse for Type {
    open spec fn recognize(tokens: Seq<QualifiedToken>, pos: int) -> Result<int, ParseError> {
        expect(tokens, pos, Expected::Symbol)
    }

    open spec fn rendered(&self) -> Seq<QualifiedTokenType> {
        seq![QualifiedTokenType::Symbol(self.symbol.text)]
    }

    open spec fn placed(&self, tokens: Seq<QualifiedToken>, pos: int) -> bool {
        self.symbol.span == tokens[pos].span
    }

    fn parse(tokens: &mut TokenIter) -> (r: Result<Type, ParseError>) {
        match Symbol::parse(tokens) {
            Ok(s) => Ok(Type::from(s)),
            Err(e) => Err(e),
        }
    }
}

impl Parse for Declaration {
    open spec fn recognize(tokens: Seq<QualifiedToken>, pos: int) -> Result<int, ParseError> {
        if !symbol_at(tokens, pos) {
            expect(tokens, pos, Expected::Symbol)
        } else {
            expect(tokens, pos + 1, Expected::Symbol)
        }
    }

    open spec fn rendered(&self) -> Seq<QualifiedTokenType> {
        render_declaration(*self)
    }

    open spec fn placed(&self, tokens: Seq<QualifiedToken>, pos: int) -> bool {
        declaration_at(*self, tokens, pos)
    }

    fn parse(tokens: &mut TokenIter) -> (r: Result<Declaration, ParseError>) {
        let ghost start = tokens.pos as int;
        let mut ahead = *tokens;
        let typ = match Type::parse(&mut ahead) {
            Ok(t) => t,
            Err(e) => {
                return Err(e);
            },
        };
        let name = match Symbol::parse(&mut ahead) {
            Ok(s) => s,
            Err(e) => {
                return Err(e);
            },
        };
        proof {
            lemma_kinds_split(tokens.tokens@, start, start + 1, start + 2);
        }
        *tokens = ahead;
        Ok(Declaration { span: typ.symbol.span.combine(name.span), typ, name })
    }
}

impl Parse for Expression {
    open spec fn recognize(tokens: Seq<QualifiedToken>, pos: int) -> Result<int, ParseError> {
        rec_expression(tokens, pos)
    }

    open spec fn rendered(&self) -> Seq<QualifiedTokenType> {
        render_expression(*self)
    }

    open spec fn placed(&self, tokens: Seq<QualifiedToken>, pos: int) -> bool {
        expression_at(*self, tokens, pos)
    }

    fn parse(tokens: &mut TokenIter) -> (r: Result<Expression, ParseError>) {
        match parse_expression_at(tokens.tokens, tokens.pos) {
            Ok((x, j)) => {
                tokens.pos = j;
                Ok(x)
            },
            Err(e) => Err(e),
        }
    }
}

impl Parse for BracedExpression {
    open spec fn recognize(tokens: Seq<QualifiedToken>, pos: int) -> Result<int, ParseError> {
        rec_block(tokens, pos)
    }

    open spec fn rendered(&self) -> Seq<QualifiedTokenType> {
        render_block(*self)
    }

    open spec fn placed(&self, tokens: Seq<QualifiedToken>, pos: int) -> bool {
        block_at(*self, tokens, pos)
    }

    fn parse(tokens: &mut TokenIter) -> (r: Result<BracedExpression, ParseError>) {
        match parse_block_at(tokens.tokens, tokens.pos) {
            Ok((x, j)) => {
                tokens.pos = j;
                Ok(x)
            },
            Err(e) => Err(e),
        }
    }
}

impl Parse for Statement {
    open spec fn recognize(tokens: Seq<QualifiedToken>, pos: int) -> Result<int, ParseError> {
        rec_statement(tokens, pos)
    }

    open spec fn rendered(&self) -> Seq<QualifiedTokenType> {
        render_statement(*self)
    }

    open spec fn placed(&self, tokens: Seq<QualifiedToken>, pos: int) -> bool {
        statement_at(*self, tokens, pos)
    }

    fn parse(tokens: &mut TokenIter) -> (r: Result<Statement, ParseError>) {
        match parse_statement_at(tokens.tokens, tokens.pos) {
            Ok((x, j)) => {
                tokens.pos = j;
                Ok(x)
            },
            Err(e) => Err(e),
        }
    }
}

impl Parse for Function {
    open spec fn recognize(tokens: Seq<QualifiedToken>, pos: int) -> Result<int, ParseError> {
        rec_function(tokens, pos)
    }

    open spec fn rendered(&self) -> Seq<QualifiedTokenType> {
        render_function(*self)
    }

    open spec fn placed(&self, tokens: Seq<QualifiedToken>, pos: int) -> bool {
        function_at(*self, tokens, pos)
    }

    fn parse(tokens: &mut TokenIter) -> (r: Result<Function, ParseError>) {
        match parse_function_at(tokens.tokens, tokens.pos) {
            Ok((x, j)) => {
                tokens.pos = j;
                Ok(x)
            },
            Err(e) => Err(e),
        }
    }
}

impl Parse for Program {
    /// Past the end of the tokens there is no program to read.
    open spec fn recognize(tokens: Seq<QualifiedToken>, pos: int) -> Result<int, ParseError> {
        if pos > tokens.len() {
            Err(ParseError::OutOfTokens)
        } else {
            rec_program(tokens, pos)
        }
    }

    open spec fn rendered(&self) -> Seq<QualifiedTokenType> {
        render_program(*self)
    }

    open spec fn placed(&self, tokens: Seq<QualifiedToken>, pos: int) -> bool {
        program_at(*self, tokens, pos)
    }

    fn parse(tokens: &mut TokenIter) -> (r: Result<Program, ParseError>) {
        if tokens.pos > tokens.tokens.len() {
            return Err(ParseError::OutOfTokens);
        }
        match parse_program_at(tokens.tokens, tokens.pos) {
            Ok((p, j)) => {
                tokens.pos = j;
                Ok(p)
            },
            Err(e) => Err(e),
        }
    }
}

/// Reads a node of sort `T` at the cursor.
pub fn parse<T: Parse>(tokens: &mut TokenIter) -> (r: Result<T, ParseError>)
    ensures
        final(tokens).tokens@ == old(tokens).tokens@,
        r matches Ok(x) ==> T::recognize(old(tokens).tokens@, old(tokens).pos as int) == Ok::<
            int,
            ParseError,
        >(final(tokens).pos as int) && x.rendered() == kinds(
            old(tokens).tokens@.subrange(old(tokens).pos as int, final(tokens).pos as int),
        ) && x.placed(old(tokens).tokens@, old(tokens).pos as int),
        r matches Err(e) ==> T::recognize(old(tokens).tokens@, old(tokens).pos as int) == Err::<
            int,
            ParseError,
        >(e) && final(tokens).pos == old(tokens).pos,
{
    T::parse(tokens)
}

/// Tries to read a node of sort `T` on a copy of the cursor, and moves the
/// cursor on only when that succeeds.
pub fn try_parse<T: Parse>(tokens: &mut TokenIter) -> (r: Result<T, ParseError>)
    ensures
        final(tokens).tokens@ == old(tokens).tokens@,
        r matches Ok(x) ==> T::recognize(old(tokens).tokens@, old(tokens).pos as int) == Ok::<
            int,
            ParseError,
        >(final(tokens).pos as int) && x.rendered() == kinds(
            old(tokens).tokens@.subrange(old(tokens).pos as int, final(tokens).pos as int),
        ) && x.placed(old(tokens).tokens@, old(tokens).pos as int),
        r matches Err(e) ==> T::recognize(old(tokens).tokens@, old(tokens).pos as int) == Err::<
            int,
            ParseError,
        >(e) && final(tokens).pos == old(tokens).pos,
{
    let mut ahead = *tokens;
    let r = T::parse(&mut ahead);
    if r.is_ok() {
        *tokens = ahead;
    }
    r
}

} // verus!
