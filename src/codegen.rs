use crate::bytecode::{Bytecode, Instruction};
use crate::location::Span;
use crate::ast::{BracedExpression, Expression, Program, Statement};
use crate::typed::{
    erases_block, erases_program, TypedBlock, TypedExpression, TypedExpressionInner, TypedProgram,
    TypedStatement,
};
use vstd::prelude::*;

verus! {

broadcast use vstd::std_specs::vec::group_vec_axioms, vstd::seq::group_seq_axioms;

/// Why no bytecode could be generated.
#[derive(Clone, Copy, Debug, PartialEq, Eq, Structural)]
pub enum CodegenError {
    /// The program has no function to compile.
    NoFunction,
    /// A statement that code generation does not handle yet.
    Unsupported { span: Span },
}

/// Where a typed statement starts.
pub open spec fn statement_span(s: TypedStatement) -> Span {
    match s {
        TypedStatement::Declaration(d, _) => d.span,
        TypedStatement::Assignment(target, _) => target.span,
        TypedStatement::FunctionCall(name, _) => name.span,
    }
}

/// The instruction for an initializer: an integer literal is pushed.
/// Nothing else is handled yet.
pub open spec fn initializer_code(e: TypedExpression) -> Option<Instruction> {
    match e.inner {
        TypedExpressionInner::IntLit(l) => Some(Instruction::Push(l.value)),
        _ => None,
    }
}

/// The instruction for a statement: only a declaration with an initializer
/// that has code is handled yet.
pub open spec fn statement_code(s: TypedStatement) -> Option<Instruction> {
    match s {
        TypedStatement::Declaration(_, Some(init)) => initializer_code(init),
        _ => None,
    }
}

/// What `initializer_code` gives for the typed form of a source expression.
pub open spec fn source_initializer_code(e: Expression) -> Option<Instruction> {
    match e {
        Expression::IntLit(l) => Some(Instruction::Push(l.value)),
        _ => None,
    }
}

/// What `statement_code` gives for the typed form of a source statement.
pub open spec fn source_statement_code(s: Statement) -> Option<Instruction> {
    match s {
        Statement::Declaration(_, Some(init)) => source_initializer_code(init),
        _ => None,
    }
}

/// Where the typed form of a source statement starts.
pub open spec fn source_statement_span(s: Statement) -> Span {
    match s {
        Statement::Declaration(d, _) => d.span,
        Statement::Assignment(target, _) => target.span,
        Statement::FunctionCall(name, _) => name.span,
    }
}

/// The typed statements `ts` have the code and spans of the source
/// statements `ss`.
pub open spec fn same_code(ts: Seq<TypedStatement>, ss: Seq<Statement>) -> bool {
    &&& ts.len() == ss.len()
    &&& forall|k: int|
        0 <= k < ts.len() ==> statement_code(#[trigger] ts[k]) == source_statement_code(ss[k])
            && statement_span(ts[k]) == source_statement_span(ss[k])
}

/// The bytecode that a source program compiles to.
pub open spec fn source_program_code(p: Program) -> Result<Seq<Instruction>, CodegenError> {
    if p.functions.len() == 0 {
        Err(CodegenError::NoFunction)
    } else {
        match source_statements_code(p.functions@[0].expr.statements@) {
            Ok(code) => Ok(code),
            Err(span) => Err(CodegenError::Unsupported { span }),
        }
    }
}

pub open spec fn source_statements_code(ss: Seq<Statement>) -> Result<Seq<Instruction>, Span>
    decreases ss.len(),
{
    if ss.len() == 0 {
        Ok(Seq::empty())
    } else {
        match source_statements_code(ss.drop_last()) {
            Err(span) => Err(span),
            Ok(code) => match source_statement_code(ss.last()) {
                Some(ins) => Ok(code.push(ins)),
                None => Err(source_statement_span(ss.last())),
            },
        }
    }
}

/// Statements with the same code and spans compile alike.
pub proof fn lemma_same_code(ts: Seq<TypedStatement>, ss: Seq<Statement>)
    requires
        same_code(ts, ss),
    ensures
        statements_code(ts) == source_statements_code(ss),
    decreases ts.len(),
{
    if ts.len() > 0 {
        assert(same_code(ts.drop_last(), ss.drop_last())) by {
            assert forall|k: int| 0 <= k < ts.len() - 1 implies statement_code(
                #[trigger] ts.drop_last()[k],
            ) == source_statement_code(ss.drop_last()[k]) && statement_span(ts.drop_last()[k])
                == source_statement_span(ss.drop_last()[k]) by {
                assert(ts.drop_last()[k] == ts[k]);
            }
        }
        lemma_same_code(ts.drop_last(), ss.drop_last());
        assert(statement_code(ts[ts.len() - 1]) == source_statement_code(ss[ss.len() - 1]));
        assert(statement_span(ts[ts.len() - 1]) == source_statement_span(ss[ss.len() - 1]));
    }
}

/// The instructions for statements in order, or the span of the first one
/// that is not handled.
pub open spec fn statements_code(ss: Seq<TypedStatement>) -> Result<Seq<Instruction>, Span>
    decreases ss.len(),
{
    if ss.len() == 0 {
        Ok(Seq::empty())
    } else {
        match statements_code(ss.drop_last()) {
            Err(span) => Err(span),
            Ok(code) => match statement_code(ss.last()) {
                Some(ins) => Ok(code.push(ins)),
                None => Err(statement_span(ss.last())),
            },
        }
    }
}

/// The bytecode of a program: that of the body of its first function.
pub open spec fn program_code(p: TypedProgram) -> Result<Seq<Instruction>, CodegenError> {
    if p.functions.len() == 0 {
        Err(CodegenError::NoFunction)
    } else {
        match statements_code(p.functions@[0].body.statements@) {
            Ok(code) => Ok(code),
            Err(span) => Err(CodegenError::Unsupported { span }),
        }
    }
}

/// A typed block compiles as its source block does.
pub proof fn lemma_erased_block_code(tb: TypedBlock, b: BracedExpression)
    requires
        erases_block(tb, b),
    ensures
        statements_code(tb.statements@) == source_statements_code(b.statements@),
{
    assert(same_code(tb.statements@, b.statements@));
    lemma_same_code(tb.statements@, b.statements@);
}

/// A typed program compiles as its source program does.
pub proof fn lemma_erased_program_code(tp: TypedProgram, p: Program)
    requires
        erases_program(tp, p),
    ensures
        program_code(tp) == source_program_code(p),
{
    if tp.functions@.len() > 0 {
        assert(crate::typed::erases_function(tp.functions@[0], p.functions@[0]));
        lemma_erased_block_code(tp.functions@[0].body, p.functions@[0].expr);
    }
}

proof fn lemma_statements_code_err(ss: Seq<TypedStatement>, k: int)
    requires
        0 <= k <= ss.len(),
        statements_code(ss.subrange(0, k)) is Err,
    ensures
        statements_code(ss) == statements_code(ss.subrange(0, k)),
    decreases ss.len(),
{
    if k < ss.len() {
        assert(ss.drop_last().subrange(0, k) == ss.subrange(0, k));
        lemma_statements_code_err(ss.drop_last(), k);
    } else {
        assert(ss.subrange(0, k) == ss);
    }
}

/// Generates the bytecode of the first function of a program.
pub fn generate_bytecode(ast: &TypedProgram) -> (r: Result<Bytecode, CodegenError>)
    ensures
        match program_code(*ast) {
            Ok(code) => r matches Ok(bc) && bc.wf() && bc@ == code,
            Err(e) => r matches Err(e2) && e2 == e,
        },
{
    if ast.functions.len() == 0 {
        return Err(CodegenError::NoFunction);
    }
    let statements = &ast.functions[0].body.statements;
    let ghost ss = statements@;
    let mut bytecode = Bytecode::new();
    let mut i: usize = 0;
    assert(ss.subrange(0, 0) == Seq::<TypedStatement>::empty());
    while i < statements.len()
        invariant
            ast.functions@.len() > 0,
            ss == statements@,
            ss == ast.functions@[0].body.statements@,
            i <= ss.len(),
            bytecode.wf(),
            statements_code(ss.subrange(0, i as int)) == Ok::<Seq<Instruction>, Span>(bytecode@),
        decreases ss.len() - i,
    {
        assert(ss.subrange(0, i + 1).drop_last() == ss.subrange(0, i as int));
        assert(ss.subrange(0, i + 1).last() == ss[i as int]);
        let ins = match &statements[i] {
            TypedStatement::Declaration(_, Some(init)) => match &init.inner {
                TypedExpressionInner::IntLit(l) => Some(Instruction::Push(l.value)),
                _ => None,
            },
            _ => None,
        };
        assert(ins == statement_code(ss[i as int]));
        match ins {
            Some(ins) => bytecode.push(ins),
            None => {
                let span = match &statements[i] {
                    TypedStatement::Declaration(d, _) => d.span,
                    TypedStatement::Assignment(target, _) => target.span,
                    TypedStatement::FunctionCall(name, _) => name.span,
                };
                proof {
                    lemma_statements_code_err(ss, i + 1);
                }
                return Err(CodegenError::Unsupported { span });
            },
        }
        i = i + 1;
    }
    assert(ss.subrange(0, ss.len() as int) == ss);
    Ok(bytecode)
}

} // verus!
