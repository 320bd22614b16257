use crate::location::Span;
use crate::token::{Operator, QualifiedTokenType, SpecialChar};
use vstd::prelude::*;

verus! {

broadcast use vstd::std_specs::vec::group_vec_axioms, vstd::seq::group_seq_axioms;

/// A node that covers a span of the source.
pub trait Spanned {
    spec fn spec_span(&self) -> Span;

    fn span(&self) -> (r: Span)
        ensures
            r == self.spec_span(),
    ;
}

#[derive(Clone, Debug, PartialEq)]
pub struct Symbol {
    pub text: String,
    pub span: Span,
}

impl Symbol {
    /// A copy of this symbol, text included.
    pub fn duplicate(&self) -> (r: Symbol)
        ensures
            r == *self,
    {
        Symbol { text: self.text.clone(), span: self.span }
    }
}

/// The `;` that ends a statement.
#[derive(Clone, Copy, Debug, PartialEq, Eq, Structural)]
pub struct End {
    pub span: Span,
}

/// A type as written: only a name until the type checker resolves it.
#[derive(Clone, Debug, PartialEq)]
pub struct Type {
    pub symbol: Symbol,
}

#[derive(Clone, Debug, PartialEq)]
pub struct Declaration {
    pub span: Span,
    pub typ: Type,
    pub name: Symbol,
}

#[derive(Clone, Debug, PartialEq)]
pub struct IntLit {
    pub span: Span,
    pub value: i32,
}

/// A float literal, kept as the numeral it was written with.
#[derive(Clone, Debug, PartialEq)]
pub struct FloatLit {
    pub span: Span,
    pub text: String,
}

impl IntLit {
    pub fn duplicate(&self) -> (r: IntLit)
        ensures
            r == *self,
    {
        IntLit { span: self.span, value: self.value }
    }
}

impl FloatLit {
    pub fn duplicate(&self) -> (r: FloatLit)
        ensures
            r == *self,
    {
        FloatLit { span: self.span, text: self.text.clone() }
    }
}

#[derive(Debug)]
pub enum Expression {
    Braced(BracedExpression),
    IntLit(IntLit),
    FloatLit(FloatLit),
    Symbol(Symbol),
}

#[derive(Debug)]
pub struct BracedExpression {
    pub span: Span,
    pub statements: Vec<Statement>,
}

#[derive(Debug)]
pub enum Statement {
    Declaration(Declaration, Option<Expression>),
    Assignment(Symbol, Expression),
    FunctionCall(Symbol, Vec<Expression>),
}

#[derive(Debug)]
pub struct Function {
    pub span: Span,
    pub return_type: Type,
    pub name: Symbol,
    pub parameters: Vec<Declaration>,
    pub expr: BracedExpression,
}

#[derive(Debug)]
pub struct Program {
    pub functions: Vec<Function>,
}

pub type Ast = Program;

impl From<Symbol> for Type {
    fn from(symbol: Symbol) -> (r: Type)
        ensures
            r.symbol == symbol,
    {
        Type { symbol }
    }
}

impl vstd::std_specs::convert::FromSpecImpl<Symbol> for Type {
    open spec fn obeys_from_spec() -> bool {
        true
    }

    open spec fn from_spec(symbol: Symbol) -> Type {
        Type { symbol }
    }
}

impl Spanned for Symbol {
    open spec fn spec_span(&self) -> Span {
        self.span
    }

    fn span(&self) -> (r: Span) {
        self.span
    }
}

impl Spanned for End {
    open spec fn spec_span(&self) -> Span {
        self.span
    }

    fn span(&self) -> (r: Span) {
        self.span
    }
}

impl Spanned for Type {
    open spec fn spec_span(&self) -> Span {
        self.symbol.span
    }

    fn span(&self) -> (r: Span) {
        self.symbol.span
    }
}

impl Spanned for Declaration {
    open spec fn spec_span(&self) -> Span {
        self.span
    }

    fn span(&self) -> (r: Span) {
        self.span
    }
}

impl Spanned for IntLit {
    open spec fn spec_span(&self) -> Span {
        self.span
    }

    fn span(&self) -> (r: Span) {
        self.span
    }
}

impl Spanned for FloatLit {
    open spec fn spec_span(&self) -> Span {
        self.span
    }

    fn span(&self) -> (r: Span) {
        self.span
    }
}

impl Spanned for BracedExpression {
    open spec fn spec_span(&self) -> Span {
        self.span
    }

    fn span(&self) -> (r: Span) {
        self.span
    }
}

impl Spanned for Function {
    open spec fn spec_span(&self) -> Span {
        self.span
    }

    fn span(&self) -> (r: Span) {
        self.span
    }
}

impl Spanned for Expression {
    open spec fn spec_span(&self) -> Span {
        match self {
            Expression::Braced(b) => b.span,
            Expression::IntLit(l) => l.span,
            Expression::FloatLit(l) => l.span,
            Expression::Symbol(s) => s.span,
        }
    }

    fn span(&self) -> (r: Span) {
        match self {
            Expression::Braced(b) => b.span,
            Expression::IntLit(l) => l.span,
            Expression::FloatLit(l) => l.span,
            Expression::Symbol(s) => s.span,
        }
    }
}

impl Spanned for Statement {
    /// A statement spans from its first name to the end of its last
    /// expression.
    open spec fn spec_span(&self) -> Span {
        match self {
            Statement::Declaration(d, Some(e)) => d.span.spec_combine(e.spec_span()),
            Statement::Declaration(d, None) => d.span,
            Statement::Assignment(s, e) => s.span.spec_combine(e.spec_span()),
            Statement::FunctionCall(s, args) => if args.len() > 0 {
                s.span.spec_combine(args@.last().spec_span())
            } else {
                s.span
            },
        }
    }

    fn span(&self) -> (r: Span) {
        match self {
            Statement::Declaration(d, Some(e)) => d.span.combine(e.span()),
            Statement::Declaration(d, None) => d.span,
            Statement::Assignment(s, e) => s.span.combine(e.span()),
            Statement::FunctionCall(s, args) => {
                if args.len() > 0 {
                    s.span.combine(args[args.len() - 1].span())
                } else {
                    s.span
                }
            },
        }
    }
}

pub open spec fn special(c: SpecialChar) -> QualifiedTokenType {
    QualifiedTokenType::SpecialChar(c)
}

/// The token kinds that an expression is written with.
pub open spec fn render_expression(e: Expression) -> Seq<QualifiedTokenType>
    decreases e,
{
    match e {
        Expression::Braced(b) => render_block(b),
        Expression::IntLit(l) => seq![QualifiedTokenType::IntLit(l.value)],
        Expression::FloatLit(l) => seq![QualifiedTokenType::FloatLit(l.text)],
        Expression::Symbol(s) => seq![QualifiedTokenType::Symbol(s.text)],
    }
}

/// The token kinds of a braced block.
pub open spec fn render_block(b: BracedExpression) -> Seq<QualifiedTokenType>
    decreases b,
{
    seq![special(SpecialChar::LBrace)] + render_statements(b.statements@) + seq![
        special(SpecialChar::RBrace),
    ]
}

/// The token kinds of statements written one after another.
pub open spec fn render_statements(ss: Seq<Statement>) -> Seq<QualifiedTokenType>
    decreases ss,
{
    if ss.len() == 0 {
        Seq::empty()
    } else {
        render_statements(ss.drop_last()) + render_statement(ss.last())
    }
}

/// The token kinds of call arguments, separated by commas.
pub open spec fn render_arguments(args: Seq<Expression>) -> Seq<QualifiedTokenType>
    decreases args,
{
    if args.len() == 0 {
        Seq::empty()
    } else if args.len() == 1 {
        render_expression(args[0])
    } else {
        render_arguments(args.drop_last()) + seq![special(SpecialChar::Comma)] + render_expression(
            args.last(),
        )
    }
}

/// The token kinds of a statement.
pub open spec fn render_statement(s: Statement) -> Seq<QualifiedTokenType>
    decreases s,
{
    match s {
        Statement::Declaration(d, init) => render_declaration(d) + match init {
            Some(e) => seq![QualifiedTokenType::Operator(Operator::Assign)] + render_expression(e),
            None => Seq::empty(),
        } + seq![QualifiedTokenType::End],
        Statement::Assignment(target, e) => seq![
            QualifiedTokenType::Symbol(target.text),
            QualifiedTokenType::Operator(Operator::Assign),
        ] + render_expression(e) + seq![QualifiedTokenType::End],
        Statement::FunctionCall(name, args) => seq![
            QualifiedTokenType::Symbol(name.text),
            special(SpecialChar::LParen),
        ] + render_arguments(args@) + seq![special(SpecialChar::RParen), QualifiedTokenType::End],
    }
}

/// The token kinds of a declaration: type name, then name.
pub open spec fn render_declaration(d: Declaration) -> Seq<QualifiedTokenType> {
    seq![QualifiedTokenType::Symbol(d.typ.symbol.text), QualifiedTokenType::Symbol(d.name.text)]
}

pub open spec fn render_declarations(ds: Seq<Declaration>) -> Seq<QualifiedTokenType>
    decreases ds.len(),
{
    if ds.len() == 0 {
        Seq::empty()
    } else {
        render_declarations(ds.drop_last()) + render_declaration(ds.last())
    }
}

/// The token kinds of a function definition.
pub open spec fn render_function(f: Function) -> Seq<QualifiedTokenType> {
    seq![
        QualifiedTokenType::Symbol(f.return_type.symbol.text),
        QualifiedTokenType::Symbol(f.name.text),
        special(SpecialChar::LParen),
    ] + render_declarations(f.parameters@) + seq![special(SpecialChar::RParen)] + render_block(
        f.expr,
    )
}

pub open spec fn render_functions(fs: Seq<Function>) -> Seq<QualifiedTokenType>
    decreases fs.len(),
{
    if fs.len() == 0 {
        Seq::empty()
    } else {
        render_functions(fs.drop_last()) + render_function(fs.last())
    }
}

/// The token kinds of a program.
pub open spec fn render_program(p: Program) -> Seq<QualifiedTokenType> {
    render_functions(p.functions@)
}

} // verus!
