//! The expression bound propagator: resolves bound metadata for every
//! unsigned-integer expression node, bottom-up, and marks the operands that
//! must be range-reduced so that no bound passes the field's safety ceiling.

use crate::bignat::{bit_len, BigNat};
use crate::ir::{UExpression, UExpressionInner, UMetadata};
use crate::table::{BoundView, VarTable};
use vstd::arithmetic::power2::{lemma_pow2_strictly_increases, pow2};
use vstd::prelude::*;

verus! {

/// Bits needed to write the modulus of the BN128 scalar field.
pub const BN128_REQUIRED_BITS: u32 = 254;

/// What the propagator knows of variables: key (identifier, bit width).
pub type Env = Map<(Seq<char>, u32), BoundView>;

/// `2^w - 1`, the largest canonical value at width `w`.
pub open spec fn ones(w: nat) -> nat {
    (pow2(w) - 1) as nat
}

/// The safety ceiling of a field whose modulus needs `rb` bits: `2^(rb/2 - 1)`.
/// A combined bound is accepted only when it is strictly below it.
pub open spec fn ceiling(rb: nat) -> nat {
    pow2((rb / 2 - 1) as nat)
}

/// Escalation for `+`: reduce neither, then the left, then the right, then
/// both; a reduced operand counts with bound `m`.
pub open spec fn add_plan(l: nat, r: nat, m: nat, c: nat) -> (bool, bool, nat) {
    if l + r < c {
        (false, false, l + r)
    } else if m + r < c {
        (true, false, m + r)
    } else if l + m < c {
        (false, true, l + m)
    } else {
        (true, true, m + m)
    }
}

/// Escalation for `*`, in the order of `add_plan`.
pub open spec fn mul_plan(l: nat, r: nat, m: nat, c: nat) -> (bool, bool, nat) {
    if l * r < c {
        (false, false, l * r)
    } else if m * r < c {
        (true, false, m * r)
    } else if l * m < c {
        (false, true, l * m)
    } else {
        (true, true, m * m)
    }
}

/// Escalation for `-` at width `w`: the difference is shifted up by
/// `2^max(rbits, w)`, where `rbits` is the bit length of the right bound; a
/// reduced right operand shifts it by `2^w` only.
pub open spec fn sub_plan(l: nat, rbits: nat, w: nat, c: nat) -> (bool, bool, nat) {
    let off = pow2(if rbits < w { w } else { rbits });
    let t = pow2(w);
    if l + off < c {
        (false, false, l + off)
    } else if ones(w) + off < c {
        (true, false, ones(w) + off)
    } else if l + t < c {
        (false, true, l + t)
    } else {
        (true, true, ones(w) + t)
    }
}

/// The bound that resolving `e` yields.
pub open spec fn node_max(e: UExpression, env: Env, rb: nat) -> nat
    decreases e,
{
    match e.metadata {
        Some(m) => m.max.value(),
        None => {
            let w = e.bitwidth as nat;
            let c = ceiling(rb);
            match e.inner {
                UExpressionInner::Value(v) => v as nat,
                UExpressionInner::Identifier(id) => env[(id@, e.bitwidth)].0,
                UExpressionInner::Add(l, r) => add_plan(
                    node_max(*l, env, rb),
                    node_max(*r, env, rb),
                    ones(w),
                    c,
                ).2,
                UExpressionInner::Sub(l, r) => sub_plan(
                    node_max(*l, env, rb),
                    bit_len(node_max(*r, env, rb)),
                    w,
                    c,
                ).2,
                UExpressionInner::Mult(l, r) => mul_plan(
                    node_max(*l, env, rb),
                    node_max(*r, env, rb),
                    ones(w),
                    c,
                ).2,
                UExpressionInner::IfElse(_, a, b) => {
                    let x = node_max(*a, env, rb);
                    let y = node_max(*b, env, rb);
                    if x < y {
                        y
                    } else {
                        x
                    }
                },
                _ => ones(w),
            }
        },
    }
}

/// The reduction flag that resolving `e` yields.
pub open spec fn node_flag(e: UExpression, env: Env) -> Option<bool> {
    match e.metadata {
        Some(m) => m.should_reduce,
        None => match e.inner {
            UExpressionInner::Identifier(id) => env[(id@, e.bitwidth)].1,
            UExpressionInner::LeftShift(_, _) => Some(true),
            _ => Some(false),
        },
    }
}

/// The reduction flag of a resolved expression.
pub open spec fn meta_flag(e: UExpression) -> Option<bool> {
    e.metadata->0.should_reduce
}

/// The flag an operand carries in the result: forced, or its own.
pub open spec fn operand_flag(force: bool, c: UExpression, env: Env) -> Option<bool> {
    if force {
        Some(true)
    } else {
        node_flag(c, env)
    }
}

/// Whether `e` can be resolved: every unresolved node is narrower than half
/// the field's bits, and every variable it reads is in `env`.
pub open spec fn resolvable(e: UExpression, env: Env, rb: nat) -> bool
    decreases e,
{
    match e.metadata {
        Some(_) => true,
        None => {
            &&& e.bitwidth < rb / 2
            &&& match e.inner {
                UExpressionInner::Value(_) => true,
                UExpressionInner::Identifier(id) => env.contains_key((id@, e.bitwidth)),
                UExpressionInner::Add(l, r) => resolvable(*l, env, rb) && resolvable(*r, env, rb),
                UExpressionInner::Sub(l, r) => resolvable(*l, env, rb) && resolvable(*r, env, rb),
                UExpressionInner::Mult(l, r) => resolvable(*l, env, rb) && resolvable(*r, env, rb),
                UExpressionInner::Xor(l, r) => resolvable(*l, env, rb) && resolvable(*r, env, rb),
                UExpressionInner::And(l, r) => resolvable(*l, env, rb) && resolvable(*r, env, rb),
                UExpressionInner::Or(l, r) => resolvable(*l, env, rb) && resolvable(*r, env, rb),
                UExpressionInner::Not(x) => resolvable(*x, env, rb),
                UExpressionInner::LeftShift(x, _) => resolvable(*x, env, rb),
                UExpressionInner::RightShift(x, _) => resolvable(*x, env, rb),
                UExpressionInner::IfElse(_, a, b) => resolvable(*a, env, rb) && resolvable(*b, env, rb),
            }
        },
    }
}

/// `r` is `e` resolved, up to the reduction flag on `r` itself: same shape,
/// every node resolved with the bound the rules give, operands carrying the
/// flags the rules give, and already resolved nodes left as they were.
pub open spec fn folded_shape(e: UExpression, r: UExpression, env: Env, rb: nat) -> bool
    decreases e,
{
    &&& r.bitwidth == e.bitwidth
    &&& r.metadata is Some
    &&& match e.metadata {
        Some(m) => r.inner == e.inner && r.metadata->0.max == m.max,
        None => {
            let w = e.bitwidth as nat;
            let c = ceiling(rb);
            &&& r.metadata->0.max.value() == node_max(e, env, rb)
            &&& match e.inner {
                UExpressionInner::Value(v) => r.inner == UExpressionInner::Value(v),
                UExpressionInner::Identifier(id) => r.inner == UExpressionInner::Identifier(id),
                UExpressionInner::Add(l, rt) => match r.inner {
                    UExpressionInner::Add(l2, r2) => {
                        let p = add_plan(node_max(*l, env, rb), node_max(*rt, env, rb), ones(w), c);
                        &&& folded_shape(*l, *l2, env, rb)
                        &&& meta_flag(*l2) == operand_flag(p.0, *l, env)
                        &&& folded_shape(*rt, *r2, env, rb)
                        &&& meta_flag(*r2) == operand_flag(p.1, *rt, env)
                    },
                    _ => false,
                },
                UExpressionInner::Sub(l, rt) => match r.inner {
                    UExpressionInner::Sub(l2, r2) => {
                        let p = sub_plan(node_max(*l, env, rb), bit_len(node_max(*rt, env, rb)), w, c);
                        &&& folded_shape(*l, *l2, env, rb)
                        &&& meta_flag(*l2) == operand_flag(p.0, *l, env)
                        &&& folded_shape(*rt, *r2, env, rb)
                        &&& meta_flag(*r2) == operand_flag(p.1, *rt, env)
                    },
                    _ => false,
                },
                UExpressionInner::Mult(l, rt) => match r.inner {
                    UExpressionInner::Mult(l2, r2) => {
                        let p = mul_plan(node_max(*l, env, rb), node_max(*rt, env, rb), ones(w), c);
                        &&& folded_shape(*l, *l2, env, rb)
                        &&& meta_flag(*l2) == operand_flag(p.0, *l, env)
                        &&& folded_shape(*rt, *r2, env, rb)
                        &&& meta_flag(*r2) == operand_flag(p.1, *rt, env)
                    },
                    _ => false,
                },
                UExpressionInner::Xor(l, rt) => match r.inner {
                    UExpressionInner::Xor(l2, r2) => {
                        &&& folded_shape(*l, *l2, env, rb) && meta_flag(*l2) == Some(true)
                        &&& folded_shape(*rt, *r2, env, rb) && meta_flag(*r2) == Some(true)
                    },
                    _ => false,
                },
                UExpressionInner::And(l, rt) => match r.inner {
                    UExpressionInner::And(l2, r2) => {
                        &&& folded_shape(*l, *l2, env, rb) && meta_flag(*l2) == Some(true)
                        &&& folded_shape(*rt, *r2, env, rb) && meta_flag(*r2) == Some(true)
                    },
                    _ => false,
                },
                UExpressionInner::Or(l, rt) => match r.inner {
                    UExpressionInner::Or(l2, r2) => {
                        &&& folded_shape(*l, *l2, env, rb) && meta_flag(*l2) == Some(true)
                        &&& folded_shape(*rt, *r2, env, rb) && meta_flag(*r2) == Some(true)
                    },
                    _ => false,
                },
                UExpressionInner::Not(x) => match r.inner {
                    UExpressionInner::Not(x2) => folded_shape(*x, *x2, env, rb) && meta_flag(*x2) == Some(true),
                    _ => false,
                },
                UExpressionInner::LeftShift(x, by) => match r.inner {
                    UExpressionInner::LeftShift(x2, by2) => {
                        &&& folded_shape(*x, *x2, env, rb) && meta_flag(*x2) == Some(true)
                        &&& by2 == by
                    },
                    _ => false,
                },
                UExpressionInner::RightShift(x, by) => match r.inner {
                    UExpressionInner::RightShift(x2, by2) => {
                        &&& folded_shape(*x, *x2, env, rb) && meta_flag(*x2) == Some(true)
                        &&& by2 == by
                    },
                    _ => false,
                },
                UExpressionInner::IfElse(cond, a, b) => match r.inner {
                    UExpressionInner::IfElse(cond2, a2, b2) => {
                        &&& cond2 == cond
                        &&& folded_shape(*a, *a2, env, rb) && meta_flag(*a2) == node_flag(*a, env)
                        &&& folded_shape(*b, *b2, env, rb) && meta_flag(*b2) == node_flag(*b, env)
                    },
                    _ => false,
                },
            }
        },
    }
}

/// `r` is `e` fully resolved, its own flag included.
pub open spec fn folded(e: UExpression, r: UExpression, env: Env, rb: nat) -> bool {
    &&& folded_shape(e, r, env, rb)
    &&& meta_flag(r) == node_flag(e, env)
}

/// The cheapest reduction choice for `l + r` under the ceiling `c`, with `m`
/// the bound of a reduced operand: (reduce left, reduce right, bound).
pub fn plan_add(l: &BigNat, r: &BigNat, m: &BigNat, c: &BigNat) -> (res: (bool, bool, BigNat))
    ensures
        (res.0, res.1, res.2.value()) == add_plan(l.value(), r.value(), m.value(), c.value()),
{
    let s = l.add(r);
    if s.lt(c) {
        return (false, false, s);
    }
    let s = m.add(r);
    if s.lt(c) {
        return (true, false, s);
    }
    let s = l.add(m);
    if s.lt(c) {
        return (false, true, s);
    }
    (true, true, m.add(m))
}

/// The cheapest reduction choice for `l * r`, as `plan_add` does for `+`.
pub fn plan_mul(l: &BigNat, r: &BigNat, m: &BigNat, c: &BigNat) -> (res: (bool, bool, BigNat))
    ensures
        (res.0, res.1, res.2.value()) == mul_plan(l.value(), r.value(), m.value(), c.value()),
{
    let s = l.mul(r);
    if s.lt(c) {
        return (false, false, s);
    }
    let s = m.mul(r);
    if s.lt(c) {
        return (true, false, s);
    }
    let s = l.mul(m);
    if s.lt(c) {
        return (false, true, s);
    }
    (true, true, m.mul(m))
}

/// The cheapest reduction choice for `l - r` at width `w`, where `rbits` is
/// the bit length of the right bound and `c = 2^ceil_exp` the ceiling.
pub fn plan_sub(l: &BigNat, rbits: u64, w: u32, ceil_exp: u32, c: &BigNat) -> (res: (bool, bool, BigNat))
    requires
        c.value() == pow2(ceil_exp as nat),
    ensures
        (res.0, res.1, res.2.value()) == sub_plan(l.value(), rbits as nat, w as nat, c.value()),
{
    let m = BigNat::all_ones(w);
    let t = BigNat::pow2(w);
    let n: u64 = if rbits < w as u64 { w as u64 } else { rbits };
    if n < ceil_exp as u64 {
        let off = BigNat::pow2(n as u32);
        let s = l.add(&off);
        if s.lt(c) {
            return (false, false, s);
        }
        let s = m.add(&off);
        if s.lt(c) {
            return (true, false, s);
        }
    } else {
        proof {
            if n > ceil_exp {
                lemma_pow2_strictly_increases(ceil_exp as nat, n as nat);
            }
        }
    }
    let s = l.add(&t);
    if s.lt(c) {
        return (false, true, s);
    }
    (true, true, m.add(&t))
}

/// The bound of a resolved expression.
fn max_ref(e: &UExpression) -> (r: &BigNat)
    requires
        e.metadata is Some,
    ensures
        *r == e.metadata->0.max,
{
    &e.metadata.as_ref().unwrap().max
}

/// The expression with its reduction flag set to `flag`.
pub fn with_flag(e: UExpression, flag: bool) -> (r: UExpression)
    requires
        e.metadata is Some,
    ensures
        r == (UExpression {
            bitwidth: e.bitwidth,
            metadata: Some(UMetadata { max: e.metadata->0.max, should_reduce: Some(flag) }),
            inner: e.inner,
        }),
{
    let UExpression { bitwidth, metadata, inner } = e;
    let m = metadata.unwrap();
    UExpression { bitwidth, metadata: Some(UMetadata { max: m.max, should_reduce: Some(flag) }), inner }
}

/// Marks a resolved expression as needing reduction by its consumer.
pub fn force_reduce(e: UExpression) -> (r: UExpression)
    requires
        e.metadata is Some,
    ensures
        r == (UExpression {
            bitwidth: e.bitwidth,
            metadata: Some(UMetadata { max: e.metadata->0.max, should_reduce: Some(true) }),
            inner: e.inner,
        }),
{
    with_flag(e, true)
}

/// Marks a resolved expression as usable without reduction.
pub fn force_no_reduce(e: UExpression) -> (r: UExpression)
    requires
        e.metadata is Some,
    ensures
        r == (UExpression {
            bitwidth: e.bitwidth,
            metadata: Some(UMetadata { max: e.metadata->0.max, should_reduce: Some(false) }),
            inner: e.inner,
        }),
{
    with_flag(e, false)
}

/// Changing the flag on top of a resolved expression keeps it a resolution.
pub proof fn lemma_shape_ignores_flag(e: UExpression, r1: UExpression, r2: UExpression, env: Env, rb: nat)
    requires
        folded_shape(e, r1, env, rb),
        r2.bitwidth == r1.bitwidth,
        r2.inner == r1.inner,
        r2.metadata is Some,
        r2.metadata->0.max == r1.metadata->0.max,
    ensures
        folded_shape(e, r2, env, rb),
{
}

/// Marks `e` for reduction when `force` holds.
fn reduce_if(e: UExpression, force: bool) -> (r: UExpression)
    requires
        e.metadata is Some,
    ensures
        r.bitwidth == e.bitwidth,
        r.inner == e.inner,
        r.metadata is Some,
        r.metadata->0.max == e.metadata->0.max,
        meta_flag(r) == if force { Some(true) } else { meta_flag(e) },
{
    if force {
        force_reduce(e)
    } else {
        e
    }
}

/// The bound propagator, for a field whose modulus needs `required_bits` bits.
#[derive(Debug)]
pub struct UintOptimizer {
    pub required_bits: u32,
    pub ids: VarTable,
}

impl UintOptimizer {
    pub open spec fn env(&self) -> Env {
        self.ids.view()
    }

    /// The variable table holds one entry per key.
    pub open spec fn wf(&self) -> bool {
        self.ids.wf()
    }

    /// A propagator with an empty variable table.
    pub fn new(required_bits: u32) -> (r: UintOptimizer)
        ensures
            r.wf(),
            r.required_bits == required_bits,
            r.env() == Env::empty(),
    {
        UintOptimizer { required_bits, ids: VarTable::new() }
    }

    /// Records the bound of a variable.
    pub fn register(&mut self, name: String, bitwidth: u32, meta: UMetadata)
        requires
            old(self).wf(),
        ensures
            final(self).wf(),
            final(self).required_bits == old(self).required_bits,
            final(self).env() == old(self).env().insert(
                (name@, bitwidth),
                (meta.max.value(), meta.should_reduce),
            ),
    {
        self.ids.register(name, bitwidth, meta);
    }

    /// Resolves the bound metadata of `e` and of every node below it. An
    /// expression that already carries metadata comes back unchanged.
    pub fn fold_uint_expression(&self, e: UExpression) -> (r: UExpression)
        requires
            resolvable(e, self.env(), self.required_bits as nat),
        ensures
            folded(e, r, self.env(), self.required_bits as nat),
            e.metadata is Some ==> r == e,
        decreases e,
    {
        if e.metadata.is_some() {
            return e;
        }
        let ghost env = self.env();
        let ghost rb = self.required_bits as nat;
        let ghost e0 = e;
        let UExpression { bitwidth: range, metadata: _, inner } = e;
        let ceil_exp: u32 = self.required_bits / 2 - 1;
        let ceiling = BigNat::pow2(ceil_exp);
        let range_max = BigNat::all_ones(range);
        match inner {
            UExpressionInner::Value(v) => {
                UExpression {
                    bitwidth: range,
                    metadata: Some(UMetadata::exact(BigNat::from_u128(v))),
                    inner: UExpressionInner::Value(v),
                }
            },
            UExpressionInner::Identifier(id) => {
                let m = self.ids.lookup(&id, range).unwrap();
                UExpression { bitwidth: range, metadata: Some(m), inner: UExpressionInner::Identifier(id) }
            },
            UExpressionInner::Add(left, right) => {
                let left = self.fold_uint_expression(*left);
                let right = self.fold_uint_expression(*right);
                let (rl, rr, max) = plan_add(max_ref(&left), max_ref(&right), &range_max, &ceiling);
                let l2 = reduce_if(left, rl);
                let r2 = reduce_if(right, rr);
                proof {
                    lemma_shape_ignores_flag(*e0.inner->Add_0, left, l2, env, rb);
                    lemma_shape_ignores_flag(*e0.inner->Add_1, right, r2, env, rb);
                }
                UExpression {
                    bitwidth: range,
                    metadata: Some(UMetadata { max, should_reduce: Some(false) }),
                    inner: UExpressionInner::Add(Box::new(l2), Box::new(r2)),
                }
            },
            UExpressionInner::Sub(left, right) => {
                let left = self.fold_uint_expression(*left);
                let right = self.fold_uint_expression(*right);
                let rbits = max_ref(&right).bits();
                let (rl, rr, max) = plan_sub(max_ref(&left), rbits, range, ceil_exp, &ceiling);
                let l2 = reduce_if(left, rl);
                let r2 = reduce_if(right, rr);
                proof {
                    lemma_shape_ignores_flag(*e0.inner->Sub_0, left, l2, env, rb);
                    lemma_shape_ignores_flag(*e0.inner->Sub_1, right, r2, env, rb);
                }
                UExpression {
                    bitwidth: range,
                    metadata: Some(UMetadata { max, should_reduce: Some(false) }),
                    inner: UExpressionInner::Sub(Box::new(l2), Box::new(r2)),
                }
            },
            UExpressionInner::Mult(left, right) => {
                let left = self.fold_uint_expression(*left);
                let right = self.fold_uint_expression(*right);
                let (rl, rr, max) = plan_mul(max_ref(&left), max_ref(&right), &range_max, &ceiling);
                let l2 = reduce_if(left, rl);
                let r2 = reduce_if(right, rr);
                proof {
                    lemma_shape_ignores_flag(*e0.inner->Mult_0, left, l2, env, rb);
                    lemma_shape_ignores_flag(*e0.inner->Mult_1, right, r2, env, rb);
                }
                UExpression {
                    bitwidth: range,
                    metadata: Some(UMetadata { max, should_reduce: Some(false) }),
                    inner: UExpressionInner::Mult(Box::new(l2), Box::new(r2)),
                }
            },
            UExpressionInner::Xor(left, right) => {
                let left = self.fold_uint_expression(*left);
                let right = self.fold_uint_expression(*right);
                let l2 = force_reduce(left);
                let r2 = force_reduce(right);
                proof {
                    lemma_shape_ignores_flag(*e0.inner->Xor_0, left, l2, env, rb);
                    lemma_shape_ignores_flag(*e0.inner->Xor_1, right, r2, env, rb);
                }
                UExpression {
                    bitwidth: range,
                    metadata: Some(UMetadata { max: range_max, should_reduce: Some(false) }),
                    inner: UExpressionInner::Xor(Box::new(l2), Box::new(r2)),
                }
            },
            UExpressionInner::And(left, right) => {
                let left = self.fold_uint_expression(*left);
                let right = self.fold_uint_expression(*right);
                let l2 = force_reduce(left);
                let r2 = force_reduce(right);
                proof {
                    lemma_shape_ignores_flag(*e0.inner->And_0, left, l2, env, rb);
                    lemma_shape_ignores_flag(*e0.inner->And_1, right, r2, env, rb);
                }
                UExpression {
                    bitwidth: range,
                    metadata: Some(UMetadata { max: range_max, should_reduce: Some(false) }),
                    inner: UExpressionInner::And(Box::new(l2), Box::new(r2)),
                }
            },
            UExpressionInner::Or(left, right) => {
                let left = self.fold_uint_expression(*left);
                let right = self.fold_uint_expression(*right);
                let l2 = force_reduce(left);
                let r2 = force_reduce(right);
                proof {
                    lemma_shape_ignores_flag(*e0.inner->Or_0, left, l2, env, rb);
                    lemma_shape_ignores_flag(*e0.inner->Or_1, right, r2, env, rb);
                }
                UExpression {
                    bitwidth: range,
                    metadata: Some(UMetadata { max: range_max, should_reduce: Some(false) }),
                    inner: UExpressionInner::Or(Box::new(l2), Box::new(r2)),
                }
            },
            UExpressionInner::Not(x) => {
                let x = self.fold_uint_expression(*x);
                let x2 = force_reduce(x);
                proof {
                    lemma_shape_ignores_flag(*e0.inner->Not_0, x, x2, env, rb);
                }
                UExpression {
                    bitwidth: range,
                    metadata: Some(UMetadata { max: range_max, should_reduce: Some(false) }),
                    inner: UExpressionInner::Not(Box::new(x2)),
                }
            },
            UExpressionInner::LeftShift(x, by) => {
                let x = self.fold_uint_expression(*x);
                let x2 = force_reduce(x);
                proof {
                    lemma_shape_ignores_flag(*e0.inner->LeftShift_0, x, x2, env, rb);
                }
                UExpression {
                    bitwidth: range,
                    metadata: Some(UMetadata { max: range_max, should_reduce: Some(true) }),
                    inner: UExpressionInner::LeftShift(Box::new(x2), by),
                }
            },
            UExpressionInner::RightShift(x, by) => {
                let x = self.fold_uint_expression(*x);
                let x2 = force_reduce(x);
                proof {
                    lemma_shape_ignores_flag(*e0.inner->RightShift_0, x, x2, env, rb);
                }
                UExpression {
                    bitwidth: range,
                    metadata: Some(UMetadata { max: range_max, should_reduce: Some(false) }),
                    inner: UExpressionInner::RightShift(Box::new(x2), by),
                }
            },
            UExpressionInner::IfElse(condition, consequence, alternative) => {
                let consequence = self.fold_uint_expression(*consequence);
                let alternative = self.fold_uint_expression(*alternative);
                let max = max_ref(&consequence).max(max_ref(&alternative));
                UExpression {
                    bitwidth: range,
                    metadata: Some(UMetadata { max, should_reduce: Some(false) }),
                    inner: UExpressionInner::IfElse(condition, Box::new(consequence), Box::new(alternative)),
                }
            },
        }
    }
}

} // verus!
