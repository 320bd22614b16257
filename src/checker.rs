use crate::ast::{
    BracedExpression, Declaration, Expression, Function, Program, Spanned, Statement, Symbol,
};
use crate::codegen::{lemma_erased_program_code, program_code, source_program_code};
use crate::diagnostic::{Diagnostic, ErrorKind};
use crate::location::Span;
use crate::token::same_chars;
use crate::typed::{
    erases_block, erases_declaration, erases_expression, erases_function, erases_program,
    erases_statement, FnSignature, TypeID, TypedBlock, TypedDeclaration, TypedExpression,
    TypedExpressionInner, TypedFunction, TypedProgram, TypedStatement,
};
use vstd::prelude::*;

verus! {

broadcast use vstd::std_specs::vec::group_vec_axioms, vstd::seq::group_seq_axioms;

/// Why checking stopped: a symbol used as a value was never declared.
#[derive(Clone, Copy, Debug, PartialEq, Eq, Structural)]
pub enum CheckError {
    UndeclaredSymbol { span: Span },
}

/// The type name that `name` was last declared with in `env`, a sequence of
/// (variable, type name) bindings, latest last.
pub open spec fn lookup(env: Seq<(Seq<char>, Seq<char>)>, name: Seq<char>) -> Option<Seq<char>>
    decreases env.len(),
{
    if env.len() == 0 {
        None
    } else if env.last().0 == name {
        Some(env.last().1)
    } else {
        lookup(env.drop_last(), name)
    }
}

/// The type name of an expression, with the bindings and diagnostics after
/// it; or the span of an undeclared symbol. A literal has the type `int` or
/// `float`, a symbol the type it was declared with, and a braced block,
/// whose declarations stay visible after it, the type `void`.
pub open spec fn expr_type(
    e: Expression,
    env: Seq<(Seq<char>, Seq<char>)>,
    diags: Seq<Span>,
) -> Result<(Seq<char>, Seq<(Seq<char>, Seq<char>)>, Seq<Span>), Span>
    decreases e,
{
    match e {
        Expression::IntLit(_) => Ok(("int"@, env, diags)),
        Expression::FloatLit(_) => Ok(("float"@, env, diags)),
        Expression::Symbol(s) => match lookup(env, s.text@) {
            Some(t) => Ok((t, env, diags)),
            None => Err(s.span),
        },
        Expression::Braced(b) => match block_check(b, env, diags) {
            Ok((env2, diags2)) => Ok(("void"@, env2, diags2)),
            Err(sp) => Err(sp),
        },
    }
}

/// Checking the statements of a block in order.
pub open spec fn block_check(
    b: BracedExpression,
    env: Seq<(Seq<char>, Seq<char>)>,
    diags: Seq<Span>,
) -> Result<(Seq<(Seq<char>, Seq<char>)>, Seq<Span>), Span>
    decreases b,
{
    statements_check(b.statements@, env, diags)
}

pub open spec fn statements_check(
    ss: Seq<Statement>,
    env: Seq<(Seq<char>, Seq<char>)>,
    diags: Seq<Span>,
) -> Result<(Seq<(Seq<char>, Seq<char>)>, Seq<Span>), Span>
    decreases ss,
{
    if ss.len() == 0 {
        Ok((env, diags))
    } else {
        match statements_check(ss.drop_last(), env, diags) {
            Ok((env2, diags2)) => statement_check(ss.last(), env2, diags2),
            Err(sp) => Err(sp),
        }
    }
}

/// Checking one statement. A declaration binds its name first; an
/// initializer or an assigned value whose type differs from the declared one
/// adds the statement's span to the diagnostics, as does assigning to a
/// name never declared.
pub open spec fn statement_check(
    s: Statement,
    env: Seq<(Seq<char>, Seq<char>)>,
    diags: Seq<Span>,
) -> Result<(Seq<(Seq<char>, Seq<char>)>, Seq<Span>), Span>
    decreases s,
{
    match s {
        Statement::Declaration(d, None) => Ok((env.push((d.name.text@, d.typ.symbol.text@)), diags)),
        Statement::Declaration(d, Some(init)) => {
            let env1 = env.push((d.name.text@, d.typ.symbol.text@));
            match expr_type(init, env1, diags) {
                Ok((t, env2, diags2)) => Ok(
                    (
                        env2,
                        if t == d.typ.symbol.text@ {
                            diags2
                        } else {
                            diags2.push(s.spec_span())
                        },
                    ),
                ),
                Err(sp) => Err(sp),
            }
        },
        Statement::Assignment(target, e) => {
            let declared = lookup(env, target.text@);
            match expr_type(e, env, diags) {
                Ok((t, env2, diags2)) => Ok(
                    (
                        env2,
                        if declared == Some(t) {
                            diags2
                        } else {
                            diags2.push(s.spec_span())
                        },
                    ),
                ),
                Err(sp) => Err(sp),
            }
        },
        Statement::FunctionCall(_, args) => arguments_check(args@, env, diags),
    }
}

/// Typing call arguments in order.
pub open spec fn arguments_check(
    args: Seq<Expression>,
    env: Seq<(Seq<char>, Seq<char>)>,
    diags: Seq<Span>,
) -> Result<(Seq<(Seq<char>, Seq<char>)>, Seq<Span>), Span>
    decreases args,
{
    if args.len() == 0 {
        Ok((env, diags))
    } else {
        match arguments_check(args.drop_last(), env, diags) {
            Ok((env2, diags2)) => match expr_type(args.last(), env2, diags2) {
                Ok((_, env3, diags3)) => Ok((env3, diags3)),
                Err(sp) => Err(sp),
            },
            Err(sp) => Err(sp),
        }
    }
}

/// The bindings of a parameter list, in order.
pub open spec fn parameter_env(ps: Seq<Declaration>) -> Seq<(Seq<char>, Seq<char>)> {
    ps.map_values(|d: Declaration| (d.name.text@, d.typ.symbol.text@))
}

/// Checking a function: its body, with only its parameters in scope.
pub open spec fn function_check(f: Function, diags: Seq<Span>) -> Result<Seq<Span>, Span> {
    match block_check(f.expr, parameter_env(f.parameters@), diags) {
        Ok((_, diags2)) => Ok(diags2),
        Err(sp) => Err(sp),
    }
}

pub open spec fn functions_check(fs: Seq<Function>) -> Result<Seq<Span>, Span>
    decreases fs.len(),
{
    if fs.len() == 0 {
        Ok(Seq::empty())
    } else {
        match functions_check(fs.drop_last()) {
            Ok(diags) => function_check(fs.last(), diags),
            Err(sp) => Err(sp),
        }
    }
}

/// The spans of the diagnostics that checking a program reports, in order,
/// or the span of the first undeclared symbol.
pub open spec fn program_check(p: Program) -> Result<Seq<Span>, Span> {
    functions_check(p.functions@)
}

/// If checking a prefix of some statements fails, checking them all fails
/// at the same place.
proof fn lemma_statements_check_err(
    ss: Seq<Statement>,
    k: int,
    env: Seq<(Seq<char>, Seq<char>)>,
    diags: Seq<Span>,
)
    requires
        0 <= k <= ss.len(),
        statements_check(ss.subrange(0, k), env, diags) is Err,
    ensures
        statements_check(ss, env, diags) == statements_check(ss.subrange(0, k), env, diags),
    decreases ss.len(),
{
    if k < ss.len() {
        assert(ss.drop_last().subrange(0, k) == ss.subrange(0, k));
        lemma_statements_check_err(ss.drop_last(), k, env, diags);
    } else {
        assert(ss.subrange(0, k) == ss);
    }
}

proof fn lemma_arguments_check_err(
    args: Seq<Expression>,
    k: int,
    env: Seq<(Seq<char>, Seq<char>)>,
    diags: Seq<Span>,
)
    requires
        0 <= k <= args.len(),
        arguments_check(args.subrange(0, k), env, diags) is Err,
    ensures
        arguments_check(args, env, diags) == arguments_check(args.subrange(0, k), env, diags),
    decreases args.len(),
{
    if k < args.len() {
        assert(args.drop_last().subrange(0, k) == args.subrange(0, k));
        lemma_arguments_check_err(args.drop_last(), k, env, diags);
    } else {
        assert(args.subrange(0, k) == args);
    }
}

/// The state of checking one program: the type table, where a type's
/// identity is its index, the bindings of the function being checked, and
/// the diagnostics reported so far.
pub struct TypeChecker {
    types: Vec<String>,
    symbol_table: Vec<(String, TypeID)>,
    diagnostics: Vec<Diagnostic>,
}

impl TypeChecker {
    /// The type names, by identity.
    pub closed spec fn type_names(&self) -> Seq<Seq<char>> {
        self.types@.map_values(|s: String| s@)
    }

    /// The bindings in scope, as (variable, type name), latest last.
    pub closed spec fn env(&self) -> Seq<(Seq<char>, Seq<char>)> {
        self.symbol_table@.map_values(|p: (String, TypeID)| (p.0@, self.types@[p.1 as int]@))
    }

    pub closed spec fn diag_spans(&self) -> Seq<Span> {
        self.diagnostics@.map_values(|d: Diagnostic| d.span)
    }

    pub closed spec fn wf(&self) -> bool {
        &&& forall|i: int, j: int|
            0 <= i < j < self.types@.len() ==> (#[trigger] self.types@[i])@ != (
            #[trigger] self.types@[j])@
        &&& forall|k: int|
            0 <= k < self.symbol_table@.len() ==> (#[trigger] self.symbol_table@[k]).1
                < self.types@.len()
        &&& forall|k: int|
            0 <= k < self.diagnostics@.len() ==> (#[trigger] self.diagnostics@[k]).kind
                == ErrorKind::E0000
    }

    pub fn new() -> (r: TypeChecker)
        ensures
            r.wf(),
            r.type_names() == Seq::<Seq<char>>::empty(),
            r.env() == Seq::<(Seq<char>, Seq<char>)>::empty(),
            r.diag_spans() == Seq::<Span>::empty(),
    {
        let r = TypeChecker {
            types: Vec::new(),
            symbol_table: Vec::new(),
            diagnostics: Vec::new(),
        };
        assert(r.type_names() =~= Seq::<Seq<char>>::empty());
        assert(r.env() =~= Seq::<(Seq<char>, Seq<char>)>::empty());
        assert(r.diag_spans() =~= Seq::<Span>::empty());
        r
    }

    /// The diagnostics reported so far.
    pub fn diagnostics(&self) -> (r: &Vec<Diagnostic>)
        ensures
            r@.map_values(|d: Diagnostic| d.span) == self.diag_spans(),
    {
        &self.diagnostics
    }

    /// The identity of the type called `name`: the one it already has, or
    /// the next unused one, which it keeps from then on.
    pub fn lookup_type_id(&mut self, name: &str) -> (r: TypeID)
        requires
            old(self).wf(),
        ensures
            final(self).wf(),
            final(self).env() == old(self).env(),
            final(self).diag_spans() == old(self).diag_spans(),
            r < final(self).type_names().len(),
            final(self).type_names()[r as int] == name@,
            old(self).type_names().contains(name@) ==> final(self).type_names() == old(
                self,
            ).type_names(),
            !old(self).type_names().contains(name@) ==> final(self).type_names() == old(
                self,
            ).type_names().push(name@) && r == old(self).type_names().len(),
    {
        let mut i: usize = 0;
        while i < self.types.len()
            invariant
                *self == *old(self),
                self.wf(),
                i <= self.types@.len(),
                forall|k: int| 0 <= k < i ==> (#[trigger] self.types@[k])@ != name@,
            decreases self.types@.len() - i,
        {
            if same_chars(self.types[i].as_str(), name) {
                assert(self.type_names()[i as int] == name@);
                return i;
            }
            i = i + 1;
        }
        assert(!self.type_names().contains(name@)) by {
            if self.type_names().contains(name@) {
                let k = choose|k: int| 0 <= k < self.type_names().len() && self.type_names()[k] == name@;
                assert(self.types@[k]@ == name@);
            }
        }
        let ghost old_env = self.env();
        let id = self.types.len();
        self.types.push(name.to_owned());
        assert(self.type_names() =~= old(self).type_names().push(name@));
        assert(self.env() =~= old_env);
        id
    }

    /// The type identity that `name` was last declared with, if any.
    pub fn lookup_symbol(&self, name: &String) -> (r: Option<TypeID>)
        requires
            self.wf(),
        ensures
            match lookup(self.env(), name@) {
                Some(t) => r matches Some(id) && id < self.type_names().len()
                    && self.type_names()[id as int] == t,
                None => r is None,
            },
    {
        let mut k = self.symbol_table.len();
        assert(self.env().subrange(0, k as int) == self.env());
        while k > 0
            invariant
                self.wf(),
                k <= self.symbol_table@.len(),
                lookup(self.env(), name@) == lookup(self.env().subrange(0, k as int), name@),
            decreases k,
        {
            let ghost prefix = self.env().subrange(0, k as int);
            assert(prefix.drop_last() == self.env().subrange(0, k - 1));
            k = k - 1;
            if self.symbol_table[k].0 == *name {
                assert(prefix.last() == self.env()[k as int]);
                return Some(self.symbol_table[k].1);
            }
        }
        None
    }

    /// Binds `name` to the type `id`.
    fn declare(&mut self, name: String, id: TypeID)
        requires
            old(self).wf(),
            id < old(self).type_names().len(),
        ensures
            final(self).wf(),
            final(self).type_names() == old(self).type_names(),
            final(self).env() == old(self).env().push((name@, old(self).type_names()[id as int])),
            final(self).diag_spans() == old(self).diag_spans(),
    {
        self.symbol_table.push((name, id));
        assert(self.env() =~= old(self).env().push((name@, old(self).type_names()[id as int])));
    }

    /// Reports a type mismatch at `span`.
    fn report(&mut self, span: Span)
        requires
            old(self).wf(),
        ensures
            final(self).wf(),
            final(self).type_names() == old(self).type_names(),
            final(self).env() == old(self).env(),
            final(self).diag_spans() == old(self).diag_spans().push(span),
    {
        self.diagnostics.push(Diagnostic { span, kind: ErrorKind::E0000 });
        assert(self.diag_spans() =~= old(self).diag_spans().push(span));
    }

    /// Identities are equal exactly when the names are.
    proof fn lemma_ids(&self, a: TypeID, b: TypeID)
        requires
            self.wf(),
            a < self.type_names().len(),
            b < self.type_names().len(),
        ensures
            (a == b) == (self.type_names()[a as int] == self.type_names()[b as int]),
    {
        if a < b {
            assert(self.types@[a as int]@ != self.types@[b as int]@);
        } else if b < a {
            assert(self.types@[b as int]@ != self.types@[a as int]@);
        }
    }

    /// Types an expression against the bindings in scope.
    pub fn check_expression(&mut self, e: &Expression) -> (r: Result<TypedExpression, CheckError>)
        requires
            old(self).wf(),
        ensures
            final(self).wf(),
            old(self).type_names().is_prefix_of(final(self).type_names()),
            match expr_type(*e, old(self).env(), old(self).diag_spans()) {
                Ok((t, env, diags)) => r matches Ok(te) && final(self).env() == env
                    && final(self).diag_spans() == diags && te.typ < final(self).type_names().len()
                    && final(self).type_names()[te.typ as int] == t,
                Err(span) => r == Err::<TypedExpression, CheckError>(
                    CheckError::UndeclaredSymbol { span },
                ),
            },
            r matches Ok(te) ==> erases_expression(te, *e),
        decreases e,
    {
        match e {
            Expression::IntLit(l) => {
                let typ = self.lookup_type_id("int");
                Ok(TypedExpression { typ, inner: TypedExpressionInner::IntLit(l.duplicate()) })
            },
            Expression::FloatLit(l) => {
                let typ = self.lookup_type_id("float");
                Ok(TypedExpression { typ, inner: TypedExpressionInner::FloatLit(l.duplicate()) })
            },
            Expression::Symbol(s) => match self.lookup_symbol(&s.text) {
                Some(typ) => Ok(
                    TypedExpression { typ, inner: TypedExpressionInner::Symbol(s.duplicate()) },
                ),
                None => Err(CheckError::UndeclaredSymbol { span: s.span }),
            },
            Expression::Braced(b) => match self.check_block(b) {
                Ok(block) => Ok(
                    TypedExpression { typ: block.typ, inner: TypedExpressionInner::Braced(block) },
                ),
                Err(err) => Err(err),
            },
        }
    }

    /// Checks the statements of a block in order; the block itself has the
    /// type `void`.
    pub fn check_block(&mut self, b: &BracedExpression) -> (r: Result<TypedBlock, CheckError>)
        requires
            old(self).wf(),
        ensures
            final(self).wf(),
            old(self).type_names().is_prefix_of(final(self).type_names()),
            match block_check(*b, old(self).env(), old(self).diag_spans()) {
                Ok((env, diags)) => r matches Ok(tb) && final(self).env() == env
                    && final(self).diag_spans() == diags && tb.typ < final(self).type_names().len()
                    && final(self).type_names()[tb.typ as int] == "void"@,
                Err(span) => r == Err::<TypedBlock, CheckError>(
                    CheckError::UndeclaredSymbol { span },
                ),
            },
            r matches Ok(tb) ==> erases_block(tb, *b),
        decreases b,
    {
        let ghost env0 = self.env();
        let ghost diags0 = self.diag_spans();
        let ghost ss = b.statements@;
        let mut statements: Vec<TypedStatement> = Vec::new();
        let mut i: usize = 0;
        assert(ss.subrange(0, 0) == Seq::<Statement>::empty());
        while i < b.statements.len()
            invariant
                self.wf(),
                ss == b.statements@,
                env0 == old(self).env(),
                diags0 == old(self).diag_spans(),
                old(self).type_names().is_prefix_of(self.type_names()),
                i <= ss.len(),
                statements_check(ss.subrange(0, i as int), env0, diags0) == Ok::<
                    (Seq<(Seq<char>, Seq<char>)>, Seq<Span>),
                    Span,
                >((self.env(), self.diag_spans())),
                statements@.len() == i,
                forall|k: int| 0 <= k < i ==> erases_statement(#[trigger] statements@[k], ss[k]),
            decreases ss.len() - i,
        {
            assert(ss.subrange(0, i + 1).drop_last() == ss.subrange(0, i as int));
            assert(ss.subrange(0, i + 1).last() == ss[i as int]);
            match self.check_statement(&b.statements[i]) {
                Ok(st) => {
                    statements.push(st);
                },
                Err(err) => {
                    proof {
                        lemma_statements_check_err(ss, i + 1, env0, diags0);
                    }
                    return Err(err);
                },
            }
            i = i + 1;
        }
        assert(ss.subrange(0, ss.len() as int) == ss);
        let typ = self.lookup_type_id("void");
        Ok(TypedBlock { span: b.span, typ, statements })
    }

    /// Checks one statement; a mismatch is reported and checking goes on.
    pub fn check_statement(&mut self, s: &Statement) -> (r: Result<TypedStatement, CheckError>)
        requires
            old(self).wf(),
        ensures
            final(self).wf(),
            old(self).type_names().is_prefix_of(final(self).type_names()),
            match statement_check(*s, old(self).env(), old(self).diag_spans()) {
                Ok((env, diags)) => r is Ok && final(self).env() == env && final(self).diag_spans()
                    == diags,
                Err(span) => r == Err::<TypedStatement, CheckError>(
                    CheckError::UndeclaredSymbol { span },
                ),
            },
            r matches Ok(ts) ==> erases_statement(ts, *s),
        decreases s,
    {
        match s {
            Statement::Declaration(d, init) => {
                let typ = self.lookup_type_id(d.typ.symbol.text.as_str());
                self.declare(d.name.text.clone(), typ);
                let dec = TypedDeclaration {
                    span: d.span,
                    typ,
                    type_symbol: d.typ.symbol.duplicate(),
                    name: d.name.duplicate(),
                };
                match init {
                    None => Ok(TypedStatement::Declaration(dec, None)),
                    Some(e) => {
                        let ghost names = self.type_names();
                        let te = match self.check_expression(e) {
                            Ok(te) => te,
                            Err(err) => {
                                return Err(err);
                            },
                        };
                        proof {
                            assert(self.type_names()[typ as int] == names[typ as int]);
                            self.lemma_ids(typ, te.typ);
                        }
                        if typ != te.typ {
                            self.report(s.span());
                        }
                        Ok(TypedStatement::Declaration(dec, Some(te)))
                    },
                }
            },
            Statement::Assignment(target, e) => {
                let declared = self.lookup_symbol(&target.text);
                let ghost names = self.type_names();
                let te = match self.check_expression(e) {
                    Ok(te) => te,
                    Err(err) => {
                        return Err(err);
                    },
                };
                let same = match declared {
                    Some(typ) => {
                        proof {
                            assert(self.type_names()[typ as int] == names[typ as int]);
                            self.lemma_ids(typ, te.typ);
                        }
                        typ == te.typ
                    },
                    None => false,
                };
                if !same {
                    self.report(s.span());
                }
                Ok(TypedStatement::Assignment(target.duplicate(), te))
            },
            Statement::FunctionCall(name, args) => {
                let ghost env0 = self.env();
                let ghost diags0 = self.diag_spans();
                let ghost xs = args@;
                let mut typed_args: Vec<TypedExpression> = Vec::new();
                let mut i: usize = 0;
                assert(xs.subrange(0, 0) == Seq::<Expression>::empty());
                while i < args.len()
                    invariant
                        self.wf(),
                        *s == Statement::FunctionCall(*name, *args),
                        xs == args@,
                        env0 == old(self).env(),
                        diags0 == old(self).diag_spans(),
                        old(self).type_names().is_prefix_of(self.type_names()),
                        i <= xs.len(),
                        arguments_check(xs.subrange(0, i as int), env0, diags0) == Ok::<
                            (Seq<(Seq<char>, Seq<char>)>, Seq<Span>),
                            Span,
                        >((self.env(), self.diag_spans())),
                        typed_args@.len() == i,
                        forall|k: int|
                            0 <= k < i ==> erases_expression(#[trigger] typed_args@[k], xs[k]),
                    decreases xs.len() - i,
                {
                    assert(xs.subrange(0, i + 1).drop_last() == xs.subrange(0, i as int));
                    assert(xs.subrange(0, i + 1).last() == xs[i as int]);
                    proof {
                        assert(decreases_to!(*s => *args));
                        assert(decreases_to!(args => args[i as int]));
                    }
                    match self.check_expression(&args[i]) {
                        Ok(te) => {
                            typed_args.push(te);
                        },
                        Err(err) => {
                            proof {
                                lemma_arguments_check_err(xs, i + 1, env0, diags0);
                            }
                            return Err(err);
                        },
                    }
                    i = i + 1;
                }
                assert(xs.subrange(0, xs.len() as int) == xs);
                Ok(TypedStatement::FunctionCall(name.duplicate(), typed_args))
            },
        }
    }

    /// Resolves the return and parameter types of a function.
    pub fn signature(&mut self, f: &Function) -> (r: FnSignature)
        requires
            old(self).wf(),
        ensures
            final(self).wf(),
            old(self).type_names().is_prefix_of(final(self).type_names()),
            final(self).env() == old(self).env(),
            final(self).diag_spans() == old(self).diag_spans(),
            r.return_type < final(self).type_names().len(),
            final(self).type_names()[r.return_type as int] == f.return_type.symbol.text@,
            r.parameter_types@.len() == f.parameters@.len(),
            forall|k: int|
                0 <= k < f.parameters@.len() ==> (#[trigger] r.parameter_types@[k])
                    < final(self).type_names().len() && final(self).type_names()[r.parameter_types@[k] as int]
                    == f.parameters@[k].typ.symbol.text@,
    {
        let return_type = self.lookup_type_id(f.return_type.symbol.text.as_str());
        let mut parameter_types: Vec<TypeID> = Vec::new();
        let mut i: usize = 0;
        while i < f.parameters.len()
            invariant
                self.wf(),
                old(self).type_names().is_prefix_of(self.type_names()),
                self.env() == old(self).env(),
                self.diag_spans() == old(self).diag_spans(),
                return_type < self.type_names().len(),
                self.type_names()[return_type as int] == f.return_type.symbol.text@,
                i <= f.parameters@.len(),
                parameter_types@.len() == i,
                forall|k: int|
                    0 <= k < i ==> (#[trigger] parameter_types@[k]) < self.type_names().len()
                        && self.type_names()[parameter_types@[k] as int]
                        == f.parameters@[k].typ.symbol.text@,
            decreases f.parameters@.len() - i,
        {
            let ghost names = self.type_names();
            let id = self.lookup_type_id(f.parameters[i].typ.symbol.text.as_str());
            assert forall|k: int| 0 <= k < i implies self.type_names()[parameter_types@[k] as int]
                == names[parameter_types@[k] as int] by {
                assert(names.is_prefix_of(self.type_names()));
            }
            parameter_types.push(id);
            i = i + 1;
        }
        FnSignature { return_type, parameter_types }
    }

    /// Checks a function body with only the parameters in scope.
    pub fn check_function(&mut self, f: &Function, signature: FnSignature) -> (r: Result<
        TypedFunction,
        CheckError,
    >)
        requires
            old(self).wf(),
        ensures
            final(self).wf(),
            old(self).type_names().is_prefix_of(final(self).type_names()),
            match function_check(*f, old(self).diag_spans()) {
                Ok(diags) => r is Ok && final(self).diag_spans() == diags,
                Err(span) => r == Err::<TypedFunction, CheckError>(
                    CheckError::UndeclaredSymbol { span },
                ),
            },
            r matches Ok(tf) ==> erases_function(tf, *f),
    {
        self.symbol_table = Vec::new();
        let ghost ps = f.parameters@;
        assert(self.env() =~= parameter_env(ps.subrange(0, 0)));
        let mut parameters: Vec<TypedDeclaration> = Vec::new();
        let mut i: usize = 0;
        while i < f.parameters.len()
            invariant
                self.wf(),
                ps == f.parameters@,
                old(self).type_names().is_prefix_of(self.type_names()),
                self.diag_spans() == old(self).diag_spans(),
                i <= ps.len(),
                self.env() == parameter_env(ps.subrange(0, i as int)),
                parameters@.len() == i,
                forall|k: int|
                    0 <= k < i ==> erases_declaration(#[trigger] parameters@[k], ps[k]),
            decreases ps.len() - i,
        {
            let p = &f.parameters[i];
            let typ = self.lookup_type_id(p.typ.symbol.text.as_str());
            self.declare(p.name.text.clone(), typ);
            assert(parameter_env(ps.subrange(0, i + 1)) =~= parameter_env(ps.subrange(0, i as int)).push(
                (p.name.text@, p.typ.symbol.text@),
            ));
            parameters.push(
                TypedDeclaration {
                    span: p.span,
                    typ,
                    type_symbol: p.typ.symbol.duplicate(),
                    name: p.name.duplicate(),
                },
            );
            i = i + 1;
        }
        assert(ps.subrange(0, ps.len() as int) == ps);
        let body = match self.check_block(&f.expr) {
            Ok(b) => b,
            Err(err) => {
                return Err(err);
            },
        };
        Ok(TypedFunction { span: f.span, name: f.name.duplicate(), parameters, body, signature })
    }
}

proof fn lemma_functions_check_err(fs: Seq<Function>, k: int)
    requires
        0 <= k <= fs.len(),
        functions_check(fs.subrange(0, k)) is Err,
    ensures
        functions_check(fs) == functions_check(fs.subrange(0, k)),
    decreases fs.len(),
{
    if k < fs.len() {
        assert(fs.drop_last().subrange(0, k) == fs.subrange(0, k));
        lemma_functions_check_err(fs.drop_last(), k);
    } else {
        assert(fs.subrange(0, k) == fs);
    }
}

/// Checks a program in two passes: first the signatures of all functions,
/// so that each can refer to any other, then each body in order. A type
/// mismatch is reported and checking goes on; an undeclared symbol stops it.
pub fn type_check(ast: &Program) -> (r: Result<(TypedProgram, Vec<Diagnostic>), CheckError>)
    ensures
        match program_check(*ast) {
            Ok(spans) => r matches Ok((_, ds)) && ds@.map_values(|d: Diagnostic| d.span) == spans
                && forall|k: int| 0 <= k < ds@.len() ==> (#[trigger] ds@[k]).kind == ErrorKind::E0000,
            Err(span) => r == Err::<(TypedProgram, Vec<Diagnostic>), CheckError>(
                CheckError::UndeclaredSymbol { span },
            ),
        },
        r matches Ok((tp, _)) ==> erases_program(tp, *ast) && program_code(tp)
            == source_program_code(*ast),
{
    let mut checker = TypeChecker::new();
    let mut signatures: Vec<(String, FnSignature)> = Vec::new();
    let ghost fs = ast.functions@;
    let mut i: usize = 0;
    while i < ast.functions.len()
        invariant
            checker.wf(),
            fs == ast.functions@,
            checker.diag_spans() == Seq::<Span>::empty(),
            i <= fs.len(),
            signatures@.len() == i,
        decreases fs.len() - i,
    {
        let f = &ast.functions[i];
        let sig = checker.signature(f);
        signatures.push((f.name.text.clone(), sig));
        i = i + 1;
    }
    let mut functions: Vec<TypedFunction> = Vec::new();
    let mut i: usize = 0;
    assert(fs.subrange(0, 0) == Seq::<Function>::empty());
    while i < ast.functions.len()
        invariant
            checker.wf(),
            fs == ast.functions@,
            signatures@.len() == fs.len(),
            i <= fs.len(),
            functions_check(fs.subrange(0, i as int)) == Ok::<Seq<Span>, Span>(checker.diag_spans()),
            functions@.len() == i,
            forall|k: int| 0 <= k < i ==> erases_function(#[trigger] functions@[k], fs[k]),
        decreases fs.len() - i,
    {
        assert(fs.subrange(0, i + 1).drop_last() == fs.subrange(0, i as int));
        assert(fs.subrange(0, i + 1).last() == fs[i as int]);
        let sig = signatures[i].1.duplicate();
        match checker.check_function(&ast.functions[i], sig) {
            Ok(tf) => functions.push(tf),
            Err(err) => {
                proof {
                    lemma_functions_check_err(fs, i + 1);
                }
                return Err(err);
            },
        }
        i = i + 1;
    }
    assert(fs.subrange(0, fs.len() as int) == fs);
    let typed = TypedProgram { functions };
    proof {
        lemma_erased_program_code(typed, *ast);
    }
    let diagnostics = checker.diagnostics;
    Ok((typed, diagnostics))
}

} // verus!
