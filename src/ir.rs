//! The unsigned-integer fragment of the intermediate representation that the
//! bound propagator works on, with the per-expression bound metadata.

use crate::bignat::BigNat;
use vstd::prelude::*;

verus! {

/// Bound metadata of a resolved unsigned-integer expression.
#[derive(Debug)]
pub struct UMetadata {
    /// A provable upper bound on the value the expression can take.
    pub max: BigNat,
    /// Unset: not decided yet. `Some(true)`: a consumer must reduce the value
    /// to its canonical width first. `Some(false)`: it may be used as it is.
    pub should_reduce: Option<bool>,
}

impl UMetadata {
    /// Metadata with a hand-given bound and no reduction decision yet.
    pub fn with_max(max: BigNat) -> (r: UMetadata)
        ensures
            r.max == max,
            r.should_reduce is None,
    {
        UMetadata { max, should_reduce: None }
    }

    /// Metadata of an exactly known value: its bound is the value itself.
    pub fn exact(value: BigNat) -> (r: UMetadata)
        ensures
            r.max == value,
            r.should_reduce == Some(false),
    {
        UMetadata { max: value, should_reduce: Some(false) }
    }

    /// A copy with the same bound and flag.
    pub fn duplicate(&self) -> (r: UMetadata)
        ensures
            r.max.digits@ == self.max.digits@,
            r.max.value() == self.max.value(),
            r.should_reduce == self.should_reduce,
    {
        UMetadata { max: self.max.duplicate(), should_reduce: self.should_reduce }
    }
}

/// A field-element expression. Nothing in it is an unsigned integer, so the
/// bound propagator carries it through as it is.
#[derive(Debug)]
pub enum FieldExpression {
    Number(u128),
    Identifier(String),
    Add(Box<FieldExpression>, Box<FieldExpression>),
    Mult(Box<FieldExpression>, Box<FieldExpression>),
}

/// A boolean expression, carried through as it is.
#[derive(Debug)]
pub enum BooleanExpression {
    Value(bool),
    Identifier(String),
    Not(Box<BooleanExpression>),
    And(Box<BooleanExpression>, Box<BooleanExpression>),
}

/// An unsigned-integer expression node.
#[derive(Debug)]
pub enum UExpressionInner {
    Value(u128),
    Identifier(String),
    Add(Box<UExpression>, Box<UExpression>),
    Sub(Box<UExpression>, Box<UExpression>),
    Mult(Box<UExpression>, Box<UExpression>),
    Xor(Box<UExpression>, Box<UExpression>),
    And(Box<UExpression>, Box<UExpression>),
    Or(Box<UExpression>, Box<UExpression>),
    Not(Box<UExpression>),
    LeftShift(Box<UExpression>, Box<FieldExpression>),
    RightShift(Box<UExpression>, Box<FieldExpression>),
    IfElse(Box<BooleanExpression>, Box<UExpression>, Box<UExpression>),
}

/// An unsigned-integer expression of a given bit width, with its bound
/// metadata once it has been resolved.
#[derive(Debug)]
pub struct UExpression {
    pub bitwidth: u32,
    pub metadata: Option<UMetadata>,
    pub inner: UExpressionInner,
}

impl UExpressionInner {
    /// This node at the given bit width, unresolved.
    pub fn annotate(self, bitwidth: u32) -> (r: UExpression)
        ensures
            r == (UExpression { bitwidth, metadata: None, inner: self }),
    {
        UExpression { bitwidth, metadata: None, inner: self }
    }
}

impl UExpression {
    /// This expression with the given metadata.
    pub fn metadata(self, m: UMetadata) -> (r: UExpression)
        ensures
            r == (UExpression { bitwidth: self.bitwidth, metadata: Some(m), inner: self.inner }),
    {
        UExpression { bitwidth: self.bitwidth, metadata: Some(m), inner: self.inner }
    }

    /// `left + right`, at the width of `left`.
    pub fn add(left: UExpression, right: UExpression) -> (r: UExpression)
        ensures
            r == (UExpression {
                bitwidth: left.bitwidth,
                metadata: None,
                inner: UExpressionInner::Add(Box::new(left), Box::new(right)),
            }),
    {
        let bitwidth = left.bitwidth;
        UExpression { bitwidth, metadata: None, inner: UExpressionInner::Add(Box::new(left), Box::new(right)) }
    }

    /// `left - right`, at the width of `left`.
    pub fn sub(left: UExpression, right: UExpression) -> (r: UExpression)
        ensures
            r == (UExpression {
                bitwidth: left.bitwidth,
                metadata: None,
                inner: UExpressionInner::Sub(Box::new(left), Box::new(right)),
            }),
    {
        let bitwidth = left.bitwidth;
        UExpression { bitwidth, metadata: None, inner: UExpressionInner::Sub(Box::new(left), Box::new(right)) }
    }

    /// `left * right`, at the width of `left`.
    pub fn mult(left: UExpression, right: UExpression) -> (r: UExpression)
        ensures
            r == (UExpression {
                bitwidth: left.bitwidth,
                metadata: None,
                inner: UExpressionInner::Mult(Box::new(left), Box::new(right)),
            }),
    {
        let bitwidth = left.bitwidth;
        UExpression { bitwidth, metadata: None, inner: UExpressionInner::Mult(Box::new(left), Box::new(right)) }
    }

    /// `condition ? consequence : alternative`, at the width of `consequence`.
    pub fn if_else(condition: BooleanExpression, consequence: UExpression, alternative: UExpression) -> (r: UExpression)
        ensures
            r == (UExpression {
                bitwidth: consequence.bitwidth,
                metadata: None,
                inner: UExpressionInner::IfElse(Box::new(condition), Box::new(consequence), Box::new(alternative)),
            }),
    {
        let bitwidth = consequence.bitwidth;
        UExpression {
            bitwidth,
            metadata: None,
            inner: UExpressionInner::IfElse(Box::new(condition), Box::new(consequence), Box::new(alternative)),
        }
    }
}

} // verus!
