//! Statements and programs: the statement canonicalizer, which forces the
//! reduction decisions that statement boundaries require and keeps the
//! variable bound table up to date in program order.

use crate::bignat::BigNat;
use crate::ir::{BooleanExpression, FieldExpression, UExpression, UMetadata};
use crate::optimizer::{
    folded, folded_shape, force_no_reduce, force_reduce, lemma_shape_ignores_flag, meta_flag,
    node_max, ones, resolvable, Env, UintOptimizer,
};
use crate::substitution::same_chars;
use vstd::prelude::*;

verus! {

#[derive(Debug)]
pub enum Type {
    FieldElement,
    Boolean,
    Uint(u32),
}

/// A declared variable.
#[derive(Debug)]
pub struct Variable {
    pub id: String,
    pub ty: Type,
}

#[derive(Debug)]
pub enum ZirExpression {
    FieldElement(FieldExpression),
    Boolean(BooleanExpression),
    Uint(UExpression),
}

/// A call whose outputs are bound by a multiple definition.
#[derive(Debug)]
pub struct FunctionCall {
    pub id: String,
    pub arguments: Vec<ZirExpression>,
}

#[derive(Debug)]
pub enum ZirStatement {
    Definition(Variable, ZirExpression),
    Return(Vec<ZirExpression>),
    MultipleDefinition(Vec<Variable>, FunctionCall),
    Condition(ZirExpression, ZirExpression),
    Assertion(BooleanExpression),
}

#[derive(Debug)]
pub struct Parameter {
    pub id: Variable,
    pub private: bool,
}

#[derive(Debug)]
pub struct ZirProgram {
    pub arguments: Vec<Parameter>,
    pub statements: Vec<ZirStatement>,
}

/// The builtin that composes 32 bits into a `u32`: its output is canonical.
pub open spec fn u32_from_bits_name() -> Seq<char> {
    "_U32_FROM_BITS"@
}

pub open spec fn expr_resolvable(e: ZirExpression, env: Env, rb: nat) -> bool {
    match e {
        ZirExpression::Uint(u) => resolvable(u, env, rb),
        _ => true,
    }
}

/// `r` is `e` with its unsigned-integer part resolved.
pub open spec fn expr_folded(e: ZirExpression, r: ZirExpression, env: Env, rb: nat) -> bool {
    match e {
        ZirExpression::Uint(u) => r is Uint && folded(u, r->Uint_0, env, rb),
        _ => r == e,
    }
}

/// `r` is `e` resolved, and an unsigned integer is marked for reduction.
pub open spec fn expr_folded_reduced(e: ZirExpression, r: ZirExpression, env: Env, rb: nat) -> bool {
    match e {
        ZirExpression::Uint(u) => {
            &&& r is Uint
            &&& folded_shape(u, r->Uint_0, env, rb)
            &&& meta_flag(r->Uint_0) == Some(true)
        },
        _ => r == e,
    }
}

pub open spec fn all_resolvable(es: Seq<ZirExpression>, env: Env, rb: nat) -> bool {
    forall|i: int| 0 <= i < es.len() ==> expr_resolvable(#[trigger] es[i], env, rb)
}

/// Whether statement `s` can be processed with the bounds in `env`.
pub open spec fn stmt_resolvable(s: ZirStatement, env: Env, rb: nat) -> bool {
    match s {
        ZirStatement::Definition(_, e) => expr_resolvable(e, env, rb),
        ZirStatement::Return(es) => all_resolvable(es@, env, rb),
        ZirStatement::MultipleDefinition(lhs, call) => if call.id@ == u32_from_bits_name() {
            lhs@.len() == 1
        } else {
            all_resolvable(call.arguments@, env, rb)
        },
        ZirStatement::Condition(l, r) => expr_resolvable(l, env, rb) && expr_resolvable(r, env, rb),
        ZirStatement::Assertion(_) => true,
    }
}

/// The variable bounds after statement `s`.
pub open spec fn stmt_env(s: ZirStatement, env: Env, rb: nat) -> Env {
    match s {
        ZirStatement::Definition(a, e) => match (a.ty, e) {
            (Type::Uint(w), ZirExpression::Uint(u)) => env.insert((a.id@, w), (node_max(u, env, rb), Some(false))),
            _ => env,
        },
        ZirStatement::MultipleDefinition(lhs, call) => if call.id@ == u32_from_bits_name() && lhs@.len()
            == 1 {
            match lhs@[0].ty {
                Type::Uint(w) => env.insert((lhs@[0].id@, w), (ones(32), Some(false))),
                _ => env,
            }
        } else {
            env
        },
        _ => env,
    }
}

/// `r` is statement `s` processed with the bounds in `env`.
pub open spec fn stmt_folded(s: ZirStatement, r: ZirStatement, env: Env, rb: nat) -> bool {
    match s {
        ZirStatement::Definition(a, e) => match r {
            ZirStatement::Definition(a2, e2) => {
                &&& a2 == a
                &&& match e {
                    ZirExpression::Uint(u) => {
                        &&& e2 is Uint
                        &&& folded_shape(u, e2->Uint_0, env, rb)
                        &&& meta_flag(e2->Uint_0) == Some(false)
                    },
                    _ => e2 == e,
                }
            },
            _ => false,
        },
        ZirStatement::Return(es) => match r {
            ZirStatement::Return(es2) => {
                &&& es2@.len() == es@.len()
                &&& forall|i: int| 0 <= i < es@.len() ==> expr_folded_reduced(es@[i], #[trigger] es2@[i], env, rb)
            },
            _ => false,
        },
        ZirStatement::MultipleDefinition(lhs, call) => if call.id@ == u32_from_bits_name() {
            r == s
        } else {
            match r {
                ZirStatement::MultipleDefinition(lhs2, call2) => {
                    &&& lhs2 == lhs
                    &&& call2.id == call.id
                    &&& call2.arguments@.len() == call.arguments@.len()
                    &&& forall|i: int| 0 <= i < call.arguments@.len() ==> expr_folded(
                        call.arguments@[i],
                        #[trigger] call2.arguments@[i],
                        env,
                        rb,
                    )
                },
                _ => false,
            }
        },
        ZirStatement::Condition(l, rt) => match r {
            ZirStatement::Condition(l2, r2) => if l is Uint && rt is Uint {
                expr_folded_reduced(l, l2, env, rb) && expr_folded_reduced(rt, r2, env, rb)
            } else {
                expr_folded(l, l2, env, rb) && expr_folded(rt, r2, env, rb)
            },
            _ => false,
        },
        ZirStatement::Assertion(_) => r == s,
    }
}

/// The variable bounds after declaring parameter `p`.
pub open spec fn param_env(p: Parameter, env: Env) -> Env {
    match p.id.ty {
        Type::Uint(w) => env.insert((p.id.id@, w), (ones(w as nat), Some(false))),
        _ => env,
    }
}

/// The bounds after the first `i` parameters.
pub open spec fn params_env(ps: Seq<Parameter>, i: int, env: Env) -> Env
    decreases i,
{
    if i <= 0 {
        env
    } else {
        param_env(ps[i - 1], params_env(ps, i - 1, env))
    }
}

/// The bounds after the first `i` statements.
pub open spec fn stmts_env(ss: Seq<ZirStatement>, i: int, env: Env, rb: nat) -> Env
    decreases i,
{
    if i <= 0 {
        env
    } else {
        stmt_env(ss[i - 1], stmts_env(ss, i - 1, env, rb), rb)
    }
}

/// Every statement can be processed with the bounds in force before it.
pub open spec fn stmts_resolvable(ss: Seq<ZirStatement>, env: Env, rb: nat) -> bool {
    forall|i: int| 0 <= i < ss.len() ==> stmt_resolvable(#[trigger] ss[i], stmts_env(ss, i, env, rb), rb)
}

/// The bounds in force at the first statement of `p`.
pub open spec fn program_env(p: ZirProgram) -> Env {
    params_env(p.arguments@, p.arguments@.len() as int, Env::empty())
}

impl UintOptimizer {
    /// Resolves the unsigned-integer part of `e`; other expressions pass.
    pub fn fold_expression(&self, e: ZirExpression) -> (r: ZirExpression)
        requires
            expr_resolvable(e, self.env(), self.required_bits as nat),
        ensures
            expr_folded(e, r, self.env(), self.required_bits as nat),
    {
        match e {
            ZirExpression::Uint(u) => ZirExpression::Uint(self.fold_uint_expression(u)),
            e => e,
        }
    }

    /// Resolves each expression, and with `reduce` marks each unsigned
    /// integer for reduction.
    fn fold_expressions(&self, es: Vec<ZirExpression>, reduce: bool) -> (r: Vec<ZirExpression>)
        requires
            all_resolvable(es@, self.env(), self.required_bits as nat),
        ensures
            r@.len() == es@.len(),
            forall|i: int|
                0 <= i < es@.len() ==> if reduce {
                    expr_folded_reduced(es@[i], #[trigger] r@[i], self.env(), self.required_bits as nat)
                } else {
                    expr_folded(es@[i], r@[i], self.env(), self.required_bits as nat)
                },
    {
        let ghost env = self.env();
        let ghost rb = self.required_bits as nat;
        let ghost orig = es@;
        let mut rest = es;
        let mut out: Vec<ZirExpression> = Vec::new();
        while rest.len() > 0
            invariant
                env == self.env(),
                rb == self.required_bits as nat,
                out@.len() + rest@.len() == orig.len(),
                rest@ == orig.skip(out@.len() as int),
                all_resolvable(orig, env, rb),
                forall|i: int|
                    0 <= i < out@.len() ==> if reduce {
                        expr_folded_reduced(orig[i], #[trigger] out@[i], env, rb)
                    } else {
                        expr_folded(orig[i], out@[i], env, rb)
                    },
            decreases rest@.len(),
        {
            let ghost k = out@.len() as int;
            let e = rest.remove(0);
            assert(e == orig[k]);
            assert(rest@ =~= orig.skip(k + 1));
            assert(expr_resolvable(orig[k], env, rb));
            let f = self.fold_expression(e);
            let f = match f {
                ZirExpression::Uint(u) => {
                    if reduce {
                        let ghost u0 = u;
                        let u2 = force_reduce(u);
                        proof {
                            lemma_shape_ignores_flag(orig[k]->Uint_0, u0, u2, env, rb);
                        }
                        ZirExpression::Uint(u2)
                    } else {
                        ZirExpression::Uint(u)
                    }
                },
                f => f,
            };
            out.push(f);
        }
        out
    }

    /// Processes one statement and records the bounds it defines.
    pub fn fold_statement(&mut self, s: ZirStatement) -> (r: ZirStatement)
        requires
            old(self).wf(),
            stmt_resolvable(s, old(self).env(), old(self).required_bits as nat),
        ensures
            final(self).wf(),
            final(self).required_bits == old(self).required_bits,
            stmt_folded(s, r, old(self).env(), old(self).required_bits as nat),
            final(self).env() == stmt_env(s, old(self).env(), old(self).required_bits as nat),
    {
        let ghost env = self.env();
        let ghost rb = self.required_bits as nat;
        let ghost s0 = s;
        match s {
            ZirStatement::Definition(a, e) => {
                let e = self.fold_expression(e);
                match e {
                    ZirExpression::Uint(i) => {
                        let ghost i0 = i;
                        let i = force_no_reduce(i);
                        match a.ty {
                            Type::Uint(w) => {
                                let m = i.metadata.as_ref().unwrap().duplicate();
                                self.register(a.id.clone(), w, m);
                            },
                            _ => {},
                        }
                        proof {
                            if let ZirStatement::Definition(_, ZirExpression::Uint(u)) = s0 {
                                lemma_shape_ignores_flag(u, i0, i, env, rb);
                            }
                        }
                        ZirStatement::Definition(a, ZirExpression::Uint(i))
                    },
                    e => ZirStatement::Definition(a, e),
                }
            },
            ZirStatement::Return(es) => ZirStatement::Return(self.fold_expressions(es, true)),
            ZirStatement::MultipleDefinition(lhs, call) => {
                proof {
                    reveal_strlit("_U32_FROM_BITS");
                }
                if same_chars(call.id.as_str(), "_U32_FROM_BITS") {
                    match lhs[0].ty {
                        Type::Uint(w) => {
                            let all = BigNat::all_ones(32);
                            self.register(lhs[0].id.clone(), w, UMetadata::exact(all));
                        },
                        _ => {},
                    }
                    ZirStatement::MultipleDefinition(lhs, call)
                } else {
                    let FunctionCall { id, arguments } = call;
                    let arguments = self.fold_expressions(arguments, false);
                    ZirStatement::MultipleDefinition(lhs, FunctionCall { id, arguments })
                }
            },
            ZirStatement::Condition(lhs, rhs) => {
                let lhs = self.fold_expression(lhs);
                let rhs = self.fold_expression(rhs);
                match (lhs, rhs) {
                    (ZirExpression::Uint(l), ZirExpression::Uint(r)) => {
                        let ghost l0 = l;
                        let ghost r0 = r;
                        let l2 = force_reduce(l);
                        let r2 = force_reduce(r);
                        proof {
                            if let ZirStatement::Condition(ZirExpression::Uint(a), ZirExpression::Uint(b)) = s0 {
                                lemma_shape_ignores_flag(a, l0, l2, env, rb);
                                lemma_shape_ignores_flag(b, r0, r2, env, rb);
                            }
                        }
                        ZirStatement::Condition(ZirExpression::Uint(l2), ZirExpression::Uint(r2))
                    },
                    (lhs, rhs) => ZirStatement::Condition(lhs, rhs),
                }
            },
            s => s,
        }
    }

    /// Declares a parameter: an unsigned integer of width `w` is bounded by
    /// `2^w - 1` and needs no reduction.
    pub fn fold_parameter(&mut self, p: Parameter) -> (r: Parameter)
        requires
            old(self).wf(),
        ensures
            final(self).wf(),
            r == p,
            final(self).required_bits == old(self).required_bits,
            final(self).env() == param_env(p, old(self).env()),
    {
        match p.id.ty {
            Type::Uint(w) => {
                let all = BigNat::all_ones(w);
                self.register(p.id.id.clone(), w, UMetadata::exact(all));
            },
            _ => {},
        }
        p
    }

    /// Declares the parameters of a program, in order.
    fn fold_parameters(&mut self, ps: Vec<Parameter>) -> (r: Vec<Parameter>)
        requires
            old(self).wf(),
        ensures
            final(self).wf(),
            r@ == ps@,
            final(self).required_bits == old(self).required_bits,
            final(self).env() == params_env(ps@, ps@.len() as int, old(self).env()),
    {
        let ghost env0 = self.env();
        let ghost orig = ps@;
        let mut rest = ps;
        let mut out: Vec<Parameter> = Vec::new();
        while rest.len() > 0
            invariant
                self.wf(),
                self.required_bits == old(self).required_bits,
                out@.len() + rest@.len() == orig.len(),
                rest@ == orig.skip(out@.len() as int),
                out@ == orig.take(out@.len() as int),
                self.env() == params_env(orig, out@.len() as int, env0),
            decreases rest@.len(),
        {
            let ghost k = out@.len() as int;
            let p = rest.remove(0);
            assert(p == orig[k]);
            assert(rest@ =~= orig.skip(k + 1));
            let p = self.fold_parameter(p);
            out.push(p);
            assert(out@ =~= orig.take(k + 1));
        }
        assert(out@ =~= orig);
        out
    }

    /// Processes the statements of a program, in order.
    fn fold_statements(&mut self, ss: Vec<ZirStatement>) -> (r: Vec<ZirStatement>)
        requires
            old(self).wf(),
            stmts_resolvable(ss@, old(self).env(), old(self).required_bits as nat),
        ensures
            final(self).wf(),
            final(self).required_bits == old(self).required_bits,
            r@.len() == ss@.len(),
            forall|i: int|
                0 <= i < ss@.len() ==> stmt_folded(
                    ss@[i],
                    #[trigger] r@[i],
                    stmts_env(ss@, i, old(self).env(), old(self).required_bits as nat),
                    old(self).required_bits as nat,
                ),
    {
        let ghost env0 = self.env();
        let ghost rb = self.required_bits as nat;
        let ghost orig = ss@;
        let mut rest = ss;
        let mut out: Vec<ZirStatement> = Vec::new();
        while rest.len() > 0
            invariant
                self.wf(),
                self.required_bits as nat == rb,
                rb == old(self).required_bits as nat,
                env0 == old(self).env(),
                stmts_resolvable(orig, env0, rb),
                out@.len() + rest@.len() == orig.len(),
                rest@ == orig.skip(out@.len() as int),
                self.env() == stmts_env(orig, out@.len() as int, env0, rb),
                forall|i: int|
                    0 <= i < out@.len() ==> stmt_folded(orig[i], #[trigger] out@[i], stmts_env(orig, i, env0, rb), rb),
            decreases rest@.len(),
        {
            let ghost k = out@.len() as int;
            let s = rest.remove(0);
            assert(s == orig[k]);
            assert(rest@ =~= orig.skip(k + 1));
            assert(stmt_resolvable(orig[k], stmts_env(orig, k, env0, rb), rb));
            let s = self.fold_statement(s);
            out.push(s);
        }
        out
    }

    /// Resolves every unsigned-integer expression of `p` for a field whose
    /// modulus needs `required_bits` bits: parameters first, then the
    /// statements in program order.
    pub fn optimize(p: ZirProgram, required_bits: u32) -> (r: ZirProgram)
        requires
            stmts_resolvable(p.statements@, program_env(p), required_bits as nat),
        ensures
            r.arguments@ == p.arguments@,
            r.statements@.len() == p.statements@.len(),
            forall|i: int|
                0 <= i < p.statements@.len() ==> stmt_folded(
                    p.statements@[i],
                    #[trigger] r.statements@[i],
                    stmts_env(p.statements@, i, program_env(p), required_bits as nat),
                    required_bits as nat,
                ),
    {
        let mut optimizer = UintOptimizer::new(required_bits);
        let ZirProgram { arguments, statements } = p;
        let arguments = optimizer.fold_parameters(arguments);
        let statements = optimizer.fold_statements(statements);
        ZirProgram { arguments, statements }
    }
}

} // verus!
