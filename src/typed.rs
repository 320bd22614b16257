use crate::ast::{
    BracedExpression, Declaration, Expression, FloatLit, Function, IntLit, Program, Statement, Symbol,
};
use crate::location::Span;
use vstd::prelude::*;

verus! {

/// A dense identity for a type name, given the first time the name is seen.
pub type TypeID = usize;

/// The types a function returns and takes.
#[derive(Debug)]
pub struct FnSignature {
    pub return_type: TypeID,
    pub parameter_types: Vec<TypeID>,
}

impl FnSignature {
    /// A copy of this signature.
    pub fn duplicate(&self) -> (r: FnSignature)
        ensures
            r.return_type == self.return_type,
            r.parameter_types@ == self.parameter_types@,
    {
        let mut parameter_types: Vec<TypeID> = Vec::new();
        let mut i: usize = 0;
        while i < self.parameter_types.len()
            invariant
                i <= self.parameter_types@.len(),
                parameter_types@ == self.parameter_types@.subrange(0, i as int),
            decreases self.parameter_types@.len() - i,
        {
            parameter_types.push(self.parameter_types[i]);
            i = i + 1;
        }
        assert(self.parameter_types@.subrange(0, i as int) == self.parameter_types@);
        FnSignature { return_type: self.return_type, parameter_types }
    }
}

#[derive(Debug)]
pub struct TypedDeclaration {
    pub span: Span,
    pub typ: TypeID,
    pub type_symbol: Symbol,
    pub name: Symbol,
}

#[derive(Debug)]
pub enum TypedExpressionInner {
    Braced(TypedBlock),
    IntLit(IntLit),
    FloatLit(FloatLit),
    Symbol(Symbol),
}

/// An expression with the type it has.
#[derive(Debug)]
pub struct TypedExpression {
    pub typ: TypeID,
    pub inner: TypedExpressionInner,
}

#[derive(Debug)]
pub struct TypedBlock {
    pub span: Span,
    pub typ: TypeID,
    pub statements: Vec<TypedStatement>,
}

#[derive(Debug)]
pub enum TypedStatement {
    Declaration(TypedDeclaration, Option<TypedExpression>),
    Assignment(Symbol, TypedExpression),
    FunctionCall(Symbol, Vec<TypedExpression>),
}

#[derive(Debug)]
pub struct TypedFunction {
    pub span: Span,
    pub name: Symbol,
    pub parameters: Vec<TypedDeclaration>,
    pub body: TypedBlock,
    pub signature: FnSignature,
}

#[derive(Debug)]
pub struct TypedProgram {
    pub functions: Vec<TypedFunction>,
}

/// Dropping the types from `te` gives back `e`.
pub open spec fn erases_expression(te: TypedExpression, e: Expression) -> bool
    decreases te,
{
    match (te.inner, e) {
        (TypedExpressionInner::IntLit(a), Expression::IntLit(b)) => a == b,
        (TypedExpressionInner::FloatLit(a), Expression::FloatLit(b)) => a == b,
        (TypedExpressionInner::Symbol(a), Expression::Symbol(b)) => a == b,
        (TypedExpressionInner::Braced(tb), Expression::Braced(b)) => erases_block(tb, b),
        _ => false,
    }
}

pub open spec fn erases_block(tb: TypedBlock, b: BracedExpression) -> bool
    decreases tb,
{
    &&& tb.span == b.span
    &&& tb.statements@.len() == b.statements@.len()
    &&& forall|k: int|
        0 <= k < tb.statements@.len() ==> erases_statement(
            #[trigger] tb.statements@[k],
            b.statements@[k],
        )
}

pub open spec fn erases_declaration(td: TypedDeclaration, d: Declaration) -> bool {
    td.span == d.span && td.type_symbol == d.typ.symbol && td.name == d.name
}

pub open spec fn erases_statement(ts: TypedStatement, s: Statement) -> bool
    decreases ts,
{
    match (ts, s) {
        (TypedStatement::Declaration(td, ti), Statement::Declaration(d, i)) => {
            &&& erases_declaration(td, d)
            &&& match ti {
                None => i is None,
                Some(x) => i matches Some(y) && erases_expression(x, y),
            }
        },
        (TypedStatement::Assignment(ta, tx), Statement::Assignment(a, x)) => ta == a
            && erases_expression(tx, x),
        (TypedStatement::FunctionCall(tn, targs), Statement::FunctionCall(n, args)) => {
            &&& tn == n
            &&& targs@.len() == args@.len()
            &&& forall|k: int|
                0 <= k < targs@.len() ==> erases_expression(#[trigger] targs@[k], args@[k])
        },
        _ => false,
    }
}

pub open spec fn erases_function(tf: TypedFunction, f: Function) -> bool {
    &&& tf.span == f.span
    &&& tf.name == f.name
    &&& tf.parameters@.len() == f.parameters@.len()
    &&& forall|k: int|
        0 <= k < tf.parameters@.len() ==> erases_declaration(
            #[trigger] tf.parameters@[k],
            f.parameters@[k],
        )
    &&& erases_block(tf.body, f.expr)
}

/// Dropping the types from `tp` gives back `p`.
pub open spec fn erases_program(tp: TypedProgram, p: Program) -> bool {
    &&& tp.functions@.len() == p.functions@.len()
    &&& forall|k: int|
        0 <= k < tp.functions@.len() ==> erases_function(#[trigger] tp.functions@[k], p.functions@[k])
}

} // verus!
