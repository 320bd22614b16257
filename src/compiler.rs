use crate::ast::{render_program, Program};
use crate::bytecode::{Bytecode, Instruction};
use crate::checker::{program_check, type_check, CheckError};
use crate::codegen::{generate_bytecode, source_program_code, CodegenError};
use crate::diagnostic::Diagnostic;
use crate::lexer::{invalid_int, lex, qualified_from, qualified_tokens, tokenize_qualified};
use crate::location::Span;
use crate::parser::{kinds, parse_tokens, program_at, rec_program, ParseError};
use crate::token::{LexError, QualifiedToken};
use vstd::prelude::*;

verus! {

/// Why a source text did not compile.
#[derive(Debug)]
pub enum CompileError {
    Lex(LexError),
    Parse(ParseError),
    Check(CheckError),
    /// Checking reported type mismatches; no code is generated then.
    TypeErrors(Vec<Diagnostic>),
    Codegen(CodegenError),
}

/// `p` is the program that the tokens `qs` spell, all of them, with the
/// spans of its nodes on those tokens.
pub open spec fn parsed(qs: Seq<QualifiedToken>, p: Program) -> bool {
    &&& rec_program(qs, 0) == Ok::<int, ParseError>(qs.len() as int)
    &&& render_program(p) == kinds(qs)
    &&& program_at(p, qs, 0)
}

/// `p` is the program that `text` spells.
pub open spec fn program_of(text: Seq<char>, p: Program) -> bool {
    exists|qs: Seq<QualifiedToken>| qualified_tokens(text, qs) && #[trigger] parsed(qs, p)
}

/// Runs every stage on a source text: lexing, parsing, checking, and, when
/// checking reported no diagnostic, code generation.
pub fn compile(source: &str) -> (r: Result<Bytecode, CompileError>)
    requires
        source@.len() < usize::MAX,
    ensures
        r matches Ok(bc) ==> bc.wf() && exists|p: Program|
            program_of(source@, p) && #[trigger] program_check(p) == Ok::<Seq<Span>, Span>(
                Seq::empty(),
            ) && source_program_code(p) == Ok::<Seq<Instruction>, CodegenError>(bc@),
        r matches Err(CompileError::Codegen(e)) ==> exists|p: Program|
            program_of(source@, p) && #[trigger] program_check(p) == Ok::<Seq<Span>, Span>(
                Seq::empty(),
            ) && source_program_code(p) == Err::<Seq<Instruction>, CodegenError>(e),
        r matches Err(CompileError::Lex(e)) ==> !exists|qs: Seq<QualifiedToken>|
            #[trigger] qualified_tokens(source@, qs),
        r matches Err(CompileError::Parse(e)) ==> exists|qs: Seq<QualifiedToken>|
            qualified_tokens(source@, qs) && #[trigger] rec_program(qs, 0) == Err::<int, ParseError>(
                e,
            ),
        r matches Err(CompileError::Check(CheckError::UndeclaredSymbol { span })) ==> exists|
            p: Program,
        | program_of(source@, p) && #[trigger] program_check(p) == Err::<Seq<Span>, Span>(span),
        r matches Err(CompileError::TypeErrors(ds)) ==> ds@.len() > 0 && exists|p: Program|
            program_of(source@, p) && #[trigger] program_check(p) == Ok::<Seq<Span>, Span>(
                ds@.map_values(|d: Diagnostic| d.span),
            ),
{
    let tokens = match tokenize_qualified(source) {
        Ok(ts) => ts,
        Err(e) => {
            proof {
                assert forall|qs: Seq<QualifiedToken>| !qualified_tokens(source@, qs) by {
                    if qualified_tokens(source@, qs) {
                        let ts = lex(source@)->Ok_0;
                        assert forall|k: int| 0 <= k < ts.len() implies !invalid_int(
                            #[trigger] ts[k],
                            source@,
                        ) by {
                            assert(qualified_from(qs[k], ts[k], source@));
                        }
                    }
                }
            }
            return Err(CompileError::Lex(e));
        },
    };
    let program = match parse_tokens(tokens.as_slice()) {
        Ok(p) => p,
        Err(e) => {
            return Err(CompileError::Parse(e));
        },
    };
    assert(parsed(tokens@, program));
    assert(program_of(source@, program));
    let (typed, diagnostics) = match type_check(&program) {
        Ok(pair) => pair,
        Err(e) => {
            return Err(CompileError::Check(e));
        },
    };
    if diagnostics.len() > 0 {
        return Err(CompileError::TypeErrors(diagnostics));
    }
    assert(diagnostics@.map_values(|d: Diagnostic| d.span) =~= Seq::<Span>::empty());
    match generate_bytecode(&typed) {
        Ok(bc) => Ok(bc),
        Err(e) => Err(CompileError::Codegen(e)),
    }
}

} // verus!
