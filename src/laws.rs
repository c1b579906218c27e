//! Properties of the bound propagator, the statement canonicalizer and the
//! remapping table, stated over their contracts.

use crate::ir::{UExpression, UExpressionInner};
use crate::optimizer::{ceiling, folded, meta_flag, node_max, ones, Env};
use crate::program::{stmt_folded, ZirExpression, ZirStatement};
use crate::substitution::{key_base, with_suffix};
use vstd::prelude::*;

verus! {

/// Adding two resolved operands whose bounds sum below the ceiling gives
/// exactly that sum, needs no reduction, and forces neither operand.
pub proof fn law_exact_addition(e: UExpression, r: UExpression, env: Env, rb: nat)
    requires
        e.metadata is None,
        e.inner is Add,
        (*e.inner->Add_0).metadata is Some,
        (*e.inner->Add_1).metadata is Some,
        (*e.inner->Add_0).metadata->0.max.value() + (*e.inner->Add_1).metadata->0.max.value() < ceiling(rb),
        folded(e, r, env, rb),
    ensures
        r.metadata->0.max.value() == (*e.inner->Add_0).metadata->0.max.value()
            + (*e.inner->Add_1).metadata->0.max.value(),
        meta_flag(r) == Some(false),
        r.inner is Add,
        meta_flag(*r.inner->Add_0) == meta_flag(*e.inner->Add_0),
        meta_flag(*r.inner->Add_1) == meta_flag(*e.inner->Add_1),
{
}

/// A conditional is bounded by the larger bound of its branches, whatever
/// its condition, and needs no reduction.
pub proof fn law_conditional_bound(e: UExpression, r: UExpression, env: Env, rb: nat)
    requires
        e.metadata is None,
        e.inner is IfElse,
        (*e.inner->IfElse_1).metadata is Some,
        (*e.inner->IfElse_2).metadata is Some,
        folded(e, r, env, rb),
    ensures
        ({
            let a = (*e.inner->IfElse_1).metadata->0.max.value();
            let b = (*e.inner->IfElse_2).metadata->0.max.value();
            r.metadata->0.max.value() == if a < b { b } else { a }
        }),
        meta_flag(r) == Some(false),
{
    let a = *e.inner->IfElse_1;
    let b = *e.inner->IfElse_2;
    assert(node_max(a, env, rb) == a.metadata->0.max.value());
    assert(node_max(b, env, rb) == b.metadata->0.max.value());
}

/// Resolving an expression that already carries metadata changes nothing.
pub proof fn law_resolved_is_fixed(e: UExpression, r: UExpression, env: Env, rb: nat)
    requires
        e.metadata is Some,
        folded(e, r, env, rb),
    ensures
        r == e,
{
}

/// The result of xor, and, or and not at width `w` is bounded by exactly
/// `2^w - 1`, whatever the operands' bounds.
pub proof fn law_bitwise_canonical(e: UExpression, r: UExpression, env: Env, rb: nat)
    requires
        e.metadata is None,
        e.inner is Xor || e.inner is And || e.inner is Or || e.inner is Not,
        folded(e, r, env, rb),
    ensures
        r.metadata->0.max.value() == ones(e.bitwidth as nat),
        meta_flag(r) == Some(false),
{
}

/// Every unsigned-integer expression of a processed return statement is
/// marked for reduction.
pub proof fn law_returns_reduced(s: ZirStatement, r: ZirStatement, env: Env, rb: nat)
    requires
        s is Return,
        stmt_folded(s, r, env, rb),
    ensures
        r is Return,
        r->Return_0@.len() == s->Return_0@.len(),
        forall|i: int|
            0 <= i < r->Return_0@.len() && (#[trigger] r->Return_0@[i]) is Uint ==> meta_flag(
                r->Return_0@[i]->Uint_0,
            ) == Some(true),
{
    assert forall|i: int| 0 <= i < r->Return_0@.len() && (#[trigger] r->Return_0@[i]) is Uint implies meta_flag(
        r->Return_0@[i]->Uint_0,
    ) == Some(true) by {
        let e = s->Return_0@[i];
        match e {
            ZirExpression::Uint(_) => {},
            _ => {},
        }
    }
}

/// After a value is stored under a key, a query with the same base finds it,
/// with the query's own bit-index suffix attached.
pub proof fn law_insert_then_get(
    m: Map<Seq<char>, Seq<char>>,
    key: Seq<char>,
    element: Seq<char>,
    query: Seq<char>,
)
    requires
        key_base(query) == key_base(key),
    ensures
        m.insert(key_base(key), element).contains_key(key_base(query)),
        with_suffix(m.insert(key_base(key), element)[key_base(query)], query) == with_suffix(element, query),
{
}

} // verus!
