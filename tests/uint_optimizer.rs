use num_bigint::BigUint;
use uint_bounds::bignat::BigNat;
use uint_bounds::ir::{BooleanExpression, FieldExpression, UExpression, UExpressionInner, UMetadata};
use uint_bounds::optimizer::{force_reduce, plan_add, plan_mul, plan_sub, UintOptimizer, BN128_REQUIRED_BITS};
use uint_bounds::program::{
    FunctionCall, Parameter, Type, Variable, ZirExpression, ZirProgram, ZirStatement,
};

fn big(n: &BigNat) -> BigUint {
    BigUint::from_slice(&n.to_u32_digits())
}

fn num(v: u128) -> BigNat {
    BigNat::from_u128(v)
}

fn max_of(e: &UExpression) -> BigUint {
    big(&e.metadata.as_ref().unwrap().max)
}

fn flag_of(e: &UExpression) -> Option<bool> {
    e.metadata.as_ref().unwrap().should_reduce
}

fn known(id: &str, width: u32, max: u128) -> UExpression {
    UExpressionInner::Identifier(id.to_string())
        .annotate(width)
        .metadata(UMetadata::with_max(num(max)))
}

fn canonical(id: &str, width: u32, max: u128) -> UExpression {
    UExpressionInner::Identifier(id.to_string())
        .annotate(width)
        .metadata(UMetadata::exact(num(max)))
}

fn pow2(n: u32) -> BigUint {
    BigUint::from(2u32).pow(n)
}

#[test]
fn add() {
    let left = known("foo", 32, 42);
    let right = known("foo", 32, 33);
    let r = UintOptimizer::new(BN128_REQUIRED_BITS).fold_uint_expression(UExpression::add(left, right));
    assert_eq!(big(&r.metadata.unwrap().max), BigUint::from(75u32));
}

#[test]
fn sub() {
    let left = known("a", 32, 42);
    let right = known("b", 32, 33);
    let r = UintOptimizer::new(BN128_REQUIRED_BITS).fold_uint_expression(UExpression::sub(left, right));
    assert_eq!(max_of(&r), pow2(32) + BigUint::from(42u32));

    let left = known("a", 32, u64::MAX as u128);
    let right = known("b", 32, u64::MAX as u128);
    let r = UintOptimizer::new(BN128_REQUIRED_BITS).fold_uint_expression(UExpression::sub(left, right));
    assert_eq!(max_of(&r), pow2(64) + BigUint::from(u64::MAX));

    let left = UExpressionInner::Identifier("a".to_string())
        .annotate(32)
        .metadata(UMetadata::with_max(BigNat::all_ones(BN128_REQUIRED_BITS - 1)));
    let right = known("b", 32, 42);
    let r = UintOptimizer::new(BN128_REQUIRED_BITS).fold_uint_expression(UExpression::sub(left, right));
    assert_eq!(max_of(&r), pow2(32) * BigUint::from(2u32) - BigUint::from(1u32));
}

#[test]
fn if_else() {
    let consequence = known("a", 32, 42);
    let alternative = known("b", 32, 33);
    let r = UintOptimizer::new(BN128_REQUIRED_BITS).fold_uint_expression(UExpression::if_else(
        BooleanExpression::Value(true),
        consequence,
        alternative,
    ));
    assert_eq!(max_of(&r), BigUint::from(42u32));
}

#[test]
fn exact_addition_keeps_operands() {
    let r = UintOptimizer::new(BN128_REQUIRED_BITS)
        .fold_uint_expression(UExpression::add(canonical("a", 32, 42), canonical("b", 32, 33)));
    assert_eq!(max_of(&r), BigUint::from(75u32));
    assert_eq!(flag_of(&r), Some(false));
    match &r.inner {
        UExpressionInner::Add(l, rt) => {
            assert_eq!(flag_of(l), Some(false));
            assert_eq!(flag_of(rt), Some(false));
        }
        _ => panic!("shape changed"),
    }
}

#[test]
fn addition_reduces_left_first() {
    let huge = BigNat::all_ones(200);
    let left = UExpressionInner::Identifier("a".to_string())
        .annotate(32)
        .metadata(UMetadata::exact(huge));
    let r = UintOptimizer::new(BN128_REQUIRED_BITS).fold_uint_expression(UExpression::add(left, canonical("b", 32, 5)));
    assert_eq!(max_of(&r), pow2(32) - BigUint::from(1u32) + BigUint::from(5u32));
    match &r.inner {
        UExpressionInner::Add(l, rt) => {
            assert_eq!(flag_of(l), Some(true));
            assert_eq!(flag_of(rt), Some(false));
        }
        _ => panic!("shape changed"),
    }
}

#[test]
fn conditional_takes_larger_branch() {
    let r = UintOptimizer::new(BN128_REQUIRED_BITS).fold_uint_expression(UExpression::if_else(
        BooleanExpression::Value(false),
        known("a", 8, 3),
        known("b", 8, 200),
    ));
    assert_eq!(max_of(&r), BigUint::from(200u32));
    assert_eq!(flag_of(&r), Some(false));
}

#[test]
fn resolved_expression_is_unchanged() {
    let e = UExpressionInner::Value(7).annotate(16).metadata(UMetadata {
        max: num(1000),
        should_reduce: Some(true),
    });
    let r = UintOptimizer::new(BN128_REQUIRED_BITS).fold_uint_expression(e);
    assert_eq!(max_of(&r), BigUint::from(1000u32));
    assert_eq!(flag_of(&r), Some(true));
    assert!(matches!(r.inner, UExpressionInner::Value(7)));
}

#[test]
fn literal_bound_is_its_value() {
    let r = UintOptimizer::new(BN128_REQUIRED_BITS).fold_uint_expression(UExpressionInner::Value(9).annotate(8));
    assert_eq!(max_of(&r), BigUint::from(9u32));
    assert_eq!(flag_of(&r), Some(false));
}

#[test]
fn bitwise_results_are_canonical() {
    for w in [8u32, 16, 32] {
        let ops = vec![
            UExpressionInner::Xor(Box::new(known("a", w, 1)), Box::new(known("b", w, 1u128 << 90))).annotate(w),
            UExpressionInner::And(Box::new(known("a", w, 5)), Box::new(known("b", w, 6))).annotate(w),
            UExpressionInner::Or(Box::new(known("a", w, 5)), Box::new(known("b", w, 6))).annotate(w),
            UExpressionInner::Not(Box::new(known("a", w, 1u128 << 100))).annotate(w),
        ];
        for e in ops {
            let r = UintOptimizer::new(BN128_REQUIRED_BITS).fold_uint_expression(e);
            assert_eq!(max_of(&r), pow2(w) - BigUint::from(1u32));
            assert_eq!(flag_of(&r), Some(false));
        }
    }
}

#[test]
fn shifts_reduce_their_operand() {
    let by = FieldExpression::Number(3);
    let e = UExpressionInner::LeftShift(Box::new(known("a", 16, 5)), Box::new(by)).annotate(16);
    let r = UintOptimizer::new(BN128_REQUIRED_BITS).fold_uint_expression(e);
    assert_eq!(max_of(&r), pow2(16) - BigUint::from(1u32));
    assert_eq!(flag_of(&r), Some(true));
    match &r.inner {
        UExpressionInner::LeftShift(x, _) => assert_eq!(flag_of(x), Some(true)),
        _ => panic!("shape changed"),
    }

    let e = UExpressionInner::RightShift(Box::new(known("a", 16, 5)), Box::new(FieldExpression::Number(1))).annotate(16);
    let r = UintOptimizer::new(BN128_REQUIRED_BITS).fold_uint_expression(e);
    assert_eq!(flag_of(&r), Some(false));
}

#[test]
fn multiplication_bound() {
    let r = UintOptimizer::new(BN128_REQUIRED_BITS).fold_uint_expression(UExpression::mult(known("a", 32, 6), known("b", 32, 7)));
    assert_eq!(max_of(&r), BigUint::from(42u32));
}

#[test]
fn plans_escalate_in_order() {
    let c = BigNat::pow2(10);
    let m = num(15);
    let (l, r, max) = plan_add(&num(1020), &num(1020), &m, &c);
    assert_eq!((l, r, big(&max)), (true, true, BigUint::from(30u32)));
    let (l, r, max) = plan_add(&num(5), &num(1020), &m, &c);
    assert_eq!((l, r, big(&max)), (false, true, BigUint::from(20u32)));
    let (l, r, max) = plan_mul(&num(100), &num(3), &m, &c);
    assert_eq!((l, r, big(&max)), (false, false, BigUint::from(300u32)));
    let (l, r, max) = plan_mul(&num(100), &num(100), &m, &c);
    assert_eq!((l, r, big(&max)), (true, true, BigUint::from(225u32)));
    let (l, r, max) = plan_sub(&num(5), 12, 4, 10, &c);
    assert_eq!((l, r, big(&max)), (false, true, BigUint::from(21u32)));
}

#[test]
fn identifier_reads_the_table() {
    let mut o = UintOptimizer::new(BN128_REQUIRED_BITS);
    o.register("x".to_string(), 8, UMetadata::exact(num(77)));
    let r = o.fold_uint_expression(UExpressionInner::Identifier("x".to_string()).annotate(8));
    assert_eq!(max_of(&r), BigUint::from(77u32));
    assert_eq!(flag_of(&r), Some(false));
}

#[test]
fn force_reduce_sets_flag() {
    let r = force_reduce(canonical("a", 8, 3));
    assert_eq!(flag_of(&r), Some(true));
    assert_eq!(max_of(&r), BigUint::from(3u32));
}

fn uint_var(id: &str, w: u32) -> Variable {
    Variable { id: id.to_string(), ty: Type::Uint(w) }
}

#[test]
fn program_returns_are_reduced() {
    let p = ZirProgram {
        arguments: vec![Parameter { id: uint_var("a", 32), private: true }],
        statements: vec![
            ZirStatement::Definition(
                uint_var("b", 32),
                ZirExpression::Uint(UExpression::add(
                    UExpressionInner::Identifier("a".to_string()).annotate(32),
                    UExpressionInner::Value(1).annotate(32),
                )),
            ),
            ZirStatement::Return(vec![
                ZirExpression::Uint(UExpressionInner::Identifier("b".to_string()).annotate(32)),
                ZirExpression::FieldElement(FieldExpression::Number(4)),
            ]),
        ],
    };
    let r = UintOptimizer::optimize(p, BN128_REQUIRED_BITS);
    match &r.statements[0] {
        ZirStatement::Definition(_, ZirExpression::Uint(e)) => {
            assert_eq!(flag_of(e), Some(false));
            assert_eq!(max_of(e), pow2(32));
        }
        _ => panic!("definition changed"),
    }
    match &r.statements[1] {
        ZirStatement::Return(es) => {
            match &es[0] {
                ZirExpression::Uint(e) => {
                    assert_eq!(flag_of(e), Some(true));
                    assert_eq!(max_of(e), pow2(32));
                }
                _ => panic!("return changed"),
            }
            assert!(matches!(es[1], ZirExpression::FieldElement(FieldExpression::Number(4))));
        }
        _ => panic!("return changed"),
    }
}

#[test]
fn condition_reduces_both_sides() {
    let mut o = UintOptimizer::new(BN128_REQUIRED_BITS);
    let s = ZirStatement::Condition(
        ZirExpression::Uint(UExpressionInner::Value(3).annotate(8)),
        ZirExpression::Uint(UExpressionInner::Value(4).annotate(8)),
    );
    match o.fold_statement(s) {
        ZirStatement::Condition(ZirExpression::Uint(l), ZirExpression::Uint(r)) => {
            assert_eq!(flag_of(&l), Some(true));
            assert_eq!(flag_of(&r), Some(true));
        }
        _ => panic!("condition changed"),
    }
}

#[test]
fn u32_from_bits_output_is_canonical() {
    let mut o = UintOptimizer::new(BN128_REQUIRED_BITS);
    let s = ZirStatement::MultipleDefinition(
        vec![uint_var("y", 32)],
        FunctionCall { id: "_U32_FROM_BITS".to_string(), arguments: vec![] },
    );
    let _ = o.fold_statement(s);
    let r = o.fold_uint_expression(UExpressionInner::Identifier("y".to_string()).annotate(32));
    assert_eq!(max_of(&r), pow2(32) - BigUint::from(1u32));
}

#[test]
fn parameters_are_canonical() {
    let mut o = UintOptimizer::new(BN128_REQUIRED_BITS);
    let _ = o.fold_parameter(Parameter { id: uint_var("p", 16), private: false });
    let r = o.fold_uint_expression(UExpressionInner::Identifier("p".to_string()).annotate(16));
    assert_eq!(max_of(&r), pow2(16) - BigUint::from(1u32));
    assert_eq!(flag_of(&r), Some(false));
}

#[test]
fn big_numbers_compute() {
    assert_eq!(big(&num(6).mul(&num(7))), BigUint::from(42u32));
    assert_eq!(big(&num(6).add(&num(7))), BigUint::from(13u32));
    assert!(num(6).lt(&num(7)));
    assert!(!num(7).lt(&num(7)));
    assert_eq!(num(255).bits(), 8);
    assert_eq!(big(&BigNat::pow2(70)), pow2(70));
    assert_eq!(big(&BigNat::all_ones(40)), pow2(40) - BigUint::from(1u32));
    assert!(num(9).same_value(&BigNat::from_digits(vec![9, 0])));
    assert_eq!(BigNat::from_digits(vec![9, 0, 0]).to_u32_digits(), vec![9]);
    assert_eq!(num(1u128 << 40).to_u32_digits(), vec![0, 256]);
    assert_eq!(num(12345).to_decimal(), "12345");
}
