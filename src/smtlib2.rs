//! Rendering of a constraint-level program as SMT-LIB2 assertions: one integer
//! constant per circuit variable and one for the field modulus, and one
//! equality modulo the field per constraint.

use crate::bignat::{decimal, BigNat};
use vstd::prelude::*;
use vstd::string::*;

verus! {

/// A circuit variable: `0` is the constant one, a positive id `n` the
/// internal variable `n - 1`, a negative id `-(n + 1)` the output `n`.
#[derive(Debug, Clone, Copy, PartialEq, Eq, Structural)]
pub struct Variable {
    pub id: i64,
}

/// A linear combination: a sum of variables times coefficients.
#[derive(Debug)]
pub struct LinComb(pub Vec<(Variable, BigNat)>);

/// The product of two linear combinations.
#[derive(Debug)]
pub struct QuadComb {
    pub left: LinComb,
    pub right: LinComb,
}

/// A witness-computing directive: it constrains nothing.
#[derive(Debug)]
pub struct Directive {
    pub inputs: Vec<QuadComb>,
    pub outputs: Vec<Variable>,
}

#[derive(Debug)]
pub enum Statement {
    /// `quad == lin`.
    Constraint(QuadComb, LinComb),
    Directive(Directive),
    Log(String),
}

/// A constraint-level program over the field with the given modulus.
#[derive(Debug)]
pub struct Prog {
    pub modulus: BigNat,
    pub statements: Vec<Statement>,
}

/// Something that renders as SMT-LIB2 text.
pub trait SMTLib2 {
    /// Whether `out` is a rendering of `self`.
    spec fn renders_as(&self, out: Seq<char>) -> bool;

    fn to_smtlib2(&self) -> (r: String)
        ensures
            self.renders_as(r@),
    ;
}

/// The name of variable `id`.
pub open spec fn var_name(id: int) -> Seq<char> {
    if id == 0 {
        "~one"@
    } else if id > 0 {
        "_"@ + decimal((id - 1) as nat)
    } else {
        "~out_"@ + decimal((-(id + 1)) as nat)
    }
}

pub open spec fn var_text(v: Variable) -> Seq<char> {
    "|"@ + var_name(v.id as int) + "|"@
}

/// `(op a b)`.
pub open spec fn prefix_op(op: Seq<char>, a: Seq<char>, b: Seq<char>) -> Seq<char> {
    "("@ + op + " "@ + a + " "@ + b + ")"@
}

pub open spec fn term_text(t: (Variable, BigNat)) -> Seq<char> {
    prefix_op("*"@, var_text(t.0), decimal(t.1.value()))
}

/// Each term, preceded by a space.
pub open spec fn terms_text(ts: Seq<(Variable, BigNat)>) -> Seq<char>
    decreases ts.len(),
{
    if ts.len() == 0 {
        Seq::empty()
    } else {
        terms_text(ts.drop_last()) + " "@ + term_text(ts.last())
    }
}

pub open spec fn lin_text(l: LinComb) -> Seq<char> {
    let ts = l.0@;
    if ts.len() == 0 {
        "0"@
    } else if ts.len() > 1 {
        "(+"@ + terms_text(ts) + ")"@
    } else {
        term_text(ts[0])
    }
}

pub open spec fn quad_text(q: QuadComb) -> Seq<char> {
    prefix_op("*"@, lin_text(q.left), lin_text(q.right))
}

pub open spec fn statement_text(s: Statement) -> Seq<char> {
    match s {
        Statement::Constraint(q, l) => "(= (mod "@ + quad_text(q) + " |~prime|) (mod "@ + lin_text(l)
            + " |~prime|))"@,
        _ => Seq::empty(),
    }
}

/// Each statement, followed by a line break.
pub open spec fn statements_text(ss: Seq<Statement>) -> Seq<char>
    decreases ss.len(),
{
    if ss.len() == 0 {
        Seq::empty()
    } else {
        statements_text(ss.drop_last()) + statement_text(ss.last()) + "\n"@
    }
}

/// One declaration per variable.
pub open spec fn declarations_text(vs: Seq<i64>) -> Seq<char>
    decreases vs.len(),
{
    if vs.len() == 0 {
        Seq::empty()
    } else {
        declarations_text(vs.drop_last()) + "(declare-const "@ + var_text(Variable { id: vs.last() })
            + " Int)\n"@
    }
}

/// The rendering of `p` with the variables `vs`.
pub open spec fn prog_text(p: Prog, vs: Seq<i64>) -> Seq<char> {
    "; Auto generated by ZoKrates\n"@ + "; Number of circuit variables: "@ + decimal(vs.len()) + "\n"@ + "; Number of equalities: "@
        + decimal(p.statements@.len()) + "\n"@ + "(declare-const |~prime| Int)\n"@
        + declarations_text(vs) + "(assert (and\n"@ + "(= |~prime| "@ + decimal(p.modulus.value())
        + ")\n"@ + "(= |~one| 1)\n"@ + statements_text(p.statements@) + "))"@
}

pub open spec fn lin_has(l: LinComb, y: i64) -> bool {
    exists|k: int| 0 <= k < l.0@.len() && (#[trigger] l.0@[k]).0.id == y
}

pub open spec fn quad_has(q: QuadComb, y: i64) -> bool {
    lin_has(q.left, y) || lin_has(q.right, y)
}

pub open spec fn statement_has(s: Statement, y: i64) -> bool {
    match s {
        Statement::Constraint(q, l) => quad_has(q, y) || lin_has(l, y),
        Statement::Directive(d) => {
            ||| exists|k: int| 0 <= k < d.inputs@.len() && quad_has(#[trigger] d.inputs@[k], y)
            ||| exists|k: int| 0 <= k < d.outputs@.len() && (#[trigger] d.outputs@[k]).id == y
        },
        Statement::Log(_) => false,
    }
}

/// Whether variable `y` occurs in `p`; the constant one always does.
pub open spec fn prog_has(p: Prog, y: i64) -> bool {
    y == 0 || exists|i: int| 0 <= i < p.statements@.len() && statement_has(#[trigger] p.statements@[i], y)
}

pub open spec fn strictly_sorted(v: Seq<i64>) -> bool {
    forall|i: int, j: int| 0 <= i < j < v.len() ==> v[i] < v[j]
}

/// Adds `x` to a strictly increasing list, keeping it so.
fn insert_sorted(v: &mut Vec<i64>, x: i64)
    requires
        strictly_sorted(old(v)@),
    ensures
        strictly_sorted(final(v)@),
        forall|y: i64| #[trigger] final(v)@.contains(y) <==> (old(v)@.contains(y) || y == x),
{
    let mut i: usize = 0;
    while i < v.len() && v[i] < x
        invariant
            i <= v@.len(),
            v@ == old(v)@,
            strictly_sorted(v@),
            forall|j: int| 0 <= j < i ==> v@[j] < x,
        decreases v@.len() - i,
    {
        i = i + 1;
    }
    if i < v.len() && v[i] == x {
        return;
    }
    let ghost before = v@;
    v.insert(i, x);
    assert forall|a: int, b: int| 0 <= a < b < v@.len() implies v@[a] < v@[b] by {
        if b < i {
        } else if a < i && b == i {
        } else if a < i {
            assert(before[i as int] > x || before[i as int] == x || before[i as int] < x);
        } else if a == i {
            assert(v@[b] == before[b - 1]);
            assert(before[i as int] >= x);
            assert(before[i as int] != x);
        } else {
            assert(v@[a] == before[a - 1]);
            assert(v@[b] == before[b - 1]);
        }
    }
    assert forall|y: i64| v@.contains(y) <==> (before.contains(y) || y == x) by {
        if v@.contains(y) {
            let k = choose|k: int| 0 <= k < v@.len() && v@[k] == y;
            if k < i {
                assert(before[k] == y);
            } else if k > i {
                assert(before[k - 1] == y);
            }
        }
        if before.contains(y) {
            let k = choose|k: int| 0 <= k < before.len() && before[k] == y;
            if k < i {
                assert(v@[k] == y);
            } else {
                assert(v@[k + 1] == y);
            }
        }
        if y == x {
            assert(v@[i as int] == x);
        }
    }
}

/// Adds the variables of `l`.
fn collect_lin(v: &mut Vec<i64>, l: &LinComb)
    requires
        strictly_sorted(old(v)@),
    ensures
        strictly_sorted(final(v)@),
        forall|y: i64| #[trigger] final(v)@.contains(y) <==> (old(v)@.contains(y) || lin_has(*l, y)),
{
    let mut i: usize = 0;
    while i < l.0.len()
        invariant
            strictly_sorted(v@),
            i <= l.0@.len(),
            forall|y: i64|
                #[trigger] v@.contains(y) <==> (old(v)@.contains(y) || exists|k: int|
                    0 <= k < i && (#[trigger] l.0@[k]).0.id == y),
        decreases l.0@.len() - i,
    {
        let x = l.0[i].0.id;
        let ghost before = v@;
        insert_sorted(v, x);
        assert forall|y: i64|
            v@.contains(y) <==> (old(v)@.contains(y) || exists|k: int|
                0 <= k < i + 1 && (#[trigger] l.0@[k]).0.id == y) by {
            assert(before.contains(y) <==> (old(v)@.contains(y) || exists|k: int|
                0 <= k < i && (#[trigger] l.0@[k]).0.id == y));
            if y == x {
                assert(l.0@[i as int].0.id == y);
            }
            if exists|k: int| 0 <= k < i + 1 && (#[trigger] l.0@[k]).0.id == y {
                let k = choose|k: int| 0 <= k < i + 1 && (#[trigger] l.0@[k]).0.id == y;
                if k < i {
                    assert(l.0@[k].0.id == y);
                }
            }
        }
        i = i + 1;
    }
}

/// Adds the variables of `q`.
fn collect_quad(v: &mut Vec<i64>, q: &QuadComb)
    requires
        strictly_sorted(old(v)@),
    ensures
        strictly_sorted(final(v)@),
        forall|y: i64| #[trigger] final(v)@.contains(y) <==> (old(v)@.contains(y) || quad_has(*q, y)),
{
    let ghost v0 = v@;
    collect_lin(v, &q.left);
    let ghost v1 = v@;
    collect_lin(v, &q.right);
    assert forall|y: i64| v@.contains(y) <==> (v0.contains(y) || quad_has(*q, y)) by {
        assert(v1.contains(y) <==> (v0.contains(y) || lin_has(q.left, y)));
        assert(v@.contains(y) <==> (v1.contains(y) || lin_has(q.right, y)));
    }
}

/// Adds the variables of `s`.
fn collect_statement(v: &mut Vec<i64>, s: &Statement)
    requires
        strictly_sorted(old(v)@),
    ensures
        strictly_sorted(final(v)@),
        forall|y: i64| #[trigger] final(v)@.contains(y) <==> (old(v)@.contains(y) || statement_has(*s, y)),
{
    match s {
        Statement::Constraint(q, l) => {
            collect_quad(v, q);
            collect_lin(v, l);
        },
        Statement::Directive(d) => {
            let ghost start = v@;
            let mut i: usize = 0;
            while i < d.inputs.len()
                invariant
                    strictly_sorted(v@),
                    i <= d.inputs@.len(),
                    forall|y: i64|
                        #[trigger] v@.contains(y) <==> (start.contains(y) || exists|k: int|
                            0 <= k < i && quad_has(#[trigger] d.inputs@[k], y)),
                decreases d.inputs@.len() - i,
            {
                let ghost before = v@;
                collect_quad(v, &d.inputs[i]);
                assert forall|y: i64|
                    v@.contains(y) <==> (start.contains(y) || exists|k: int|
                        0 <= k < i + 1 && quad_has(#[trigger] d.inputs@[k], y)) by {
                    assert(before.contains(y) <==> (start.contains(y) || exists|k: int|
                        0 <= k < i && quad_has(#[trigger] d.inputs@[k], y)));
                    if quad_has(d.inputs@[i as int], y) {
                        assert(quad_has(d.inputs@[i as int], y));
                    }
                    if exists|k: int| 0 <= k < i + 1 && quad_has(#[trigger] d.inputs@[k], y) {
                        let k = choose|k: int| 0 <= k < i + 1 && quad_has(#[trigger] d.inputs@[k], y);
                        if k < i {
                            assert(quad_has(d.inputs@[k], y));
                        }
                    }
                }
                i = i + 1;
            }
            let ghost mid = v@;
            let mut j: usize = 0;
            while j < d.outputs.len()
                invariant
                    strictly_sorted(v@),
                    j <= d.outputs@.len(),
                    forall|y: i64|
                        #[trigger] v@.contains(y) <==> (mid.contains(y) || exists|k: int|
                            0 <= k < j && (#[trigger] d.outputs@[k]).id == y),
                decreases d.outputs@.len() - j,
            {
                let x = d.outputs[j].id;
                let ghost before = v@;
                insert_sorted(v, x);
                assert forall|y: i64|
                    v@.contains(y) <==> (mid.contains(y) || exists|k: int|
                        0 <= k < j + 1 && (#[trigger] d.outputs@[k]).id == y) by {
                    assert(before.contains(y) <==> (mid.contains(y) || exists|k: int|
                        0 <= k < j && (#[trigger] d.outputs@[k]).id == y));
                    if y == x {
                        assert(d.outputs@[j as int].id == y);
                    }
                    if exists|k: int| 0 <= k < j + 1 && (#[trigger] d.outputs@[k]).id == y {
                        let k = choose|k: int| 0 <= k < j + 1 && (#[trigger] d.outputs@[k]).id == y;
                        if k < j {
                            assert(d.outputs@[k].id == y);
                        }
                    }
                }
                j = j + 1;
            }
        },
        Statement::Log(_) => {},
    }
}

/// The variables of `p`, in increasing order.
fn collect_prog(p: &Prog) -> (r: Vec<i64>)
    ensures
        strictly_sorted(r@),
        forall|y: i64| r@.contains(y) <==> prog_has(*p, y),
{
    let mut v: Vec<i64> = Vec::new();
    let mut i: usize = 0;
    while i < p.statements.len()
        invariant
            strictly_sorted(v@),
            i <= p.statements@.len(),
            forall|y: i64|
                #[trigger] v@.contains(y) <==> exists|k: int| 0 <= k < i && statement_has(#[trigger] p.statements@[k], y),
        decreases p.statements@.len() - i,
    {
        let ghost before = v@;
        collect_statement(&mut v, &p.statements[i]);
        assert forall|y: i64|
            v@.contains(y) <==> exists|k: int| 0 <= k < i + 1 && statement_has(#[trigger] p.statements@[k], y) by {
            assert(before.contains(y) <==> exists|k: int| 0 <= k < i && statement_has(#[trigger] p.statements@[k], y));
            if statement_has(p.statements@[i as int], y) {
                assert(statement_has(p.statements@[i as int], y));
            }
            if exists|k: int| 0 <= k < i + 1 && statement_has(#[trigger] p.statements@[k], y) {
                let k = choose|k: int| 0 <= k < i + 1 && statement_has(#[trigger] p.statements@[k], y);
                if k < i {
                    assert(statement_has(p.statements@[k], y));
                }
            }
        }
        i = i + 1;
    }
    insert_sorted(&mut v, 0);
    v
}

/// `a` followed by `b`.
fn cat(a: String, b: &str) -> (r: String)
    ensures
        r@ == a@ + b@,
{
    a.concat(b)
}

/// `n` in decimal.
fn count_text(n: u64) -> (r: String)
    ensures
        r@ == decimal(n as nat),
{
    BigNat::from_u128(n as u128).to_decimal()
}

impl SMTLib2 for Variable {
    open spec fn renders_as(&self, out: Seq<char>) -> bool {
        out == var_text(*self)
    }

    fn to_smtlib2(&self) -> (r: String) {
        proof {
            reveal_strlit("|");
            reveal_strlit("~one");
            reveal_strlit("_");
            reveal_strlit("~out_");
        }
        let name = if self.id == 0 {
            String::from_str("~one")
        } else if self.id > 0 {
            let r = cat(String::from_str("_"), count_text((self.id - 1) as u64).as_str());
            assert(r@ =~= var_name(self.id as int));
            r
        } else {
            let n: i64 = -(self.id + 1);
            let r = cat(String::from_str("~out_"), count_text(n as u64).as_str());
            assert(r@ =~= var_name(self.id as int));
            r
        };
        assert(name@ =~= var_name(self.id as int));
        let out = cat(cat(String::from_str("|"), name.as_str()), "|");
        assert(out@ =~= var_text(*self));
        out
    }
}

impl SMTLib2 for BigNat {
    open spec fn renders_as(&self, out: Seq<char>) -> bool {
        out == decimal(self.value())
    }

    fn to_smtlib2(&self) -> (r: String) {
        self.to_decimal()
    }
}

/// `(op a b)`, with `a` and `b` rendered.
pub fn format_prefix_op_smtlib2<A: SMTLib2, B: SMTLib2>(op: &str, a: &A, b: &B) -> (r: String)
    ensures
        exists|ta: Seq<char>, tb: Seq<char>|
            a.renders_as(ta) && b.renders_as(tb) && r@ == prefix_op(op@, ta, tb),
{
    proof {
        reveal_strlit("(");
        reveal_strlit(" ");
        reveal_strlit(")");
    }
    let ta = a.to_smtlib2();
    let tb = b.to_smtlib2();
    let out = cat(cat(cat(cat(cat(String::from_str("("), op), " "), ta.as_str()), " "), tb.as_str());
    let out = cat(out, ")");
    assert(out@ =~= prefix_op(op@, ta@, tb@));
    out
}

/// One term: `(* |v| c)`.
fn term_smtlib2(t: &(Variable, BigNat)) -> (r: String)
    ensures
        r@ == term_text(*t),
{
    proof {
        reveal_strlit("*");
    }
    format_prefix_op_smtlib2("*", &t.0, &t.1)
}

impl SMTLib2 for LinComb {
    open spec fn renders_as(&self, out: Seq<char>) -> bool {
        out == lin_text(*self)
    }

    fn to_smtlib2(&self) -> (r: String) {
        proof {
            reveal_strlit("0");
            reveal_strlit("(+");
            reveal_strlit(" ");
            reveal_strlit(")");
        }
        let n = self.0.len();
        if n == 0 {
            return String::from_str("0");
        }
        if n == 1 {
            return term_smtlib2(&self.0[0]);
        }
        let mut out = String::from_str("(+");
        let mut i: usize = 0;
        while i < n
            invariant
                n == self.0@.len(),
                i <= n,
                out@ == "(+"@ + terms_text(self.0@.take(i as int)),
            decreases n - i,
        {
            let t = term_smtlib2(&self.0[i]);
            out = cat(cat(out, " "), t.as_str());
            assert(self.0@.take(i + 1).drop_last() =~= self.0@.take(i as int));
            assert(out@ =~= "(+"@ + terms_text(self.0@.take(i + 1)));
            i = i + 1;
        }
        assert(self.0@.take(n as int) =~= self.0@);
        cat(out, ")")
    }
}

impl SMTLib2 for QuadComb {
    open spec fn renders_as(&self, out: Seq<char>) -> bool {
        out == quad_text(*self)
    }

    fn to_smtlib2(&self) -> (r: String) {
        proof {
            reveal_strlit("*");
        }
        format_prefix_op_smtlib2("*", &self.left, &self.right)
    }
}

impl SMTLib2 for Directive {
    open spec fn renders_as(&self, out: Seq<char>) -> bool {
        out == Seq::<char>::empty()
    }

    fn to_smtlib2(&self) -> (r: String) {
        proof {
            reveal_strlit("");
        }
        let out = String::from_str("");
        assert(out@ =~= Seq::<char>::empty());
        out
    }
}

impl SMTLib2 for Statement {
    open spec fn renders_as(&self, out: Seq<char>) -> bool {
        out == statement_text(*self)
    }

    fn to_smtlib2(&self) -> (r: String) {
        proof {
            reveal_strlit("(= (mod ");
            reveal_strlit(" |~prime|) (mod ");
            reveal_strlit(" |~prime|))");
            reveal_strlit("");
        }
        match self {
            Statement::Constraint(quad, lin) => {
                let q = quad.to_smtlib2();
                let l = lin.to_smtlib2();
                let out = cat(cat(cat(cat(String::from_str("(= (mod "), q.as_str()), " |~prime|) (mod "), l.as_str()), " |~prime|))");
                assert(out@ =~= statement_text(*self));
                out
            },
            Statement::Directive(d) => d.to_smtlib2(),
            Statement::Log(_) => {
                let out = String::from_str("");
                assert(out@ =~= statement_text(*self));
                out
            },
        }
    }
}

impl SMTLib2 for Prog {
    open spec fn renders_as(&self, out: Seq<char>) -> bool {
        exists|vs: Seq<i64>|
            strictly_sorted(vs) && (forall|y: i64| #[trigger] vs.contains(y) <==> prog_has(*self, y))
                && out == prog_text(*self, vs)
    }

    fn to_smtlib2(&self) -> (r: String) {
        proof {
            reveal_strlit("; Auto generated by ZoKrates\n");
            reveal_strlit("; Number of circuit variables: ");
            reveal_strlit("\n");
            reveal_strlit("; Number of equalities: ");
            reveal_strlit("(declare-const |~prime| Int)\n");
            reveal_strlit("(declare-const ");
            reveal_strlit(" Int)\n");
            reveal_strlit("(assert (and\n");
            reveal_strlit("(= |~prime| ");
            reveal_strlit(")\n");
            reveal_strlit("(= |~one| 1)\n");
            reveal_strlit("))");
        }
        let vars = collect_prog(self);
        let mut out = String::from_str("; Auto generated by ZoKrates\n");
        out = cat(out, "; Number of circuit variables: ");
        out = cat(out, count_text(vars.len() as u64).as_str());
        out = cat(out, "\n");
        out = cat(out, "; Number of equalities: ");
        out = cat(out, count_text(self.statements.len() as u64).as_str());
        out = cat(out, "\n");
        out = cat(out, "(declare-const |~prime| Int)\n");
        let ghost head = out@;
        let mut i: usize = 0;
        while i < vars.len()
            invariant
                i <= vars@.len(),
                out@ == head + declarations_text(vars@.take(i as int)),
            decreases vars@.len() - i,
        {
            let v = Variable { id: vars[i] };
            let t = v.to_smtlib2();
            out = cat(cat(cat(out, "(declare-const "), t.as_str()), " Int)\n");
            assert(vars@.take(i + 1).drop_last() =~= vars@.take(i as int));
            assert(out@ =~= head + declarations_text(vars@.take(i + 1)));
            i = i + 1;
        }
        assert(vars@.take(vars@.len() as int) =~= vars@);
        out = cat(out, "(assert (and\n");
        out = cat(out, "(= |~prime| ");
        out = cat(out, self.modulus.to_decimal().as_str());
        out = cat(out, ")\n");
        out = cat(out, "(= |~one| 1)\n");
        let ghost mid = out@;
        let mut j: usize = 0;
        while j < self.statements.len()
            invariant
                j <= self.statements@.len(),
                out@ == mid + statements_text(self.statements@.take(j as int)),
            decreases self.statements@.len() - j,
        {
            let t = self.statements[j].to_smtlib2();
            out = cat(cat(out, t.as_str()), "\n");
            assert(self.statements@.take(j + 1).drop_last() =~= self.statements@.take(j as int));
            assert(out@ =~= mid + statements_text(self.statements@.take(j + 1)));
            j = j + 1;
        }
        assert(self.statements@.take(self.statements@.len() as int) =~= self.statements@);
        out = cat(out, "))");
        assert(out@ =~= prog_text(*self, vars@));
        out
    }
}

/// A program shown as SMT-LIB2 text.
pub struct SMTLib2Display<'a>(pub &'a Prog);

impl<'a> SMTLib2Display<'a> {
    /// The SMT-LIB2 text of the program.
    pub fn to_string(&self) -> (r: String)
        ensures
            self.0.renders_as(r@),
    {
        self.0.to_smtlib2()
    }
}

} // verus!
