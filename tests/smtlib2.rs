use uint_bounds::bignat::BigNat;
use uint_bounds::smtlib2::{
    format_prefix_op_smtlib2, Directive, LinComb, Prog, QuadComb, SMTLib2, SMTLib2Display, Statement, Variable,
};

fn term(id: i64, c: u128) -> (Variable, BigNat) {
    (Variable { id }, BigNat::from_u128(c))
}

#[test]
fn variable_names() {
    assert_eq!(Variable { id: 0 }.to_smtlib2(), "|~one|");
    assert_eq!(Variable { id: 1 }.to_smtlib2(), "|_0|");
    assert_eq!(Variable { id: 12 }.to_smtlib2(), "|_11|");
    assert_eq!(Variable { id: -1 }.to_smtlib2(), "|~out_0|");
    assert_eq!(Variable { id: -3 }.to_smtlib2(), "|~out_2|");
}

#[test]
fn prefix_operator() {
    let r = format_prefix_op_smtlib2("+", &Variable { id: 2 }, &BigNat::from_u128(5));
    assert_eq!(r, "(+ |_1| 5)");
}

#[test]
fn linear_combinations() {
    assert_eq!(LinComb(vec![]).to_smtlib2(), "0");
    assert_eq!(LinComb(vec![term(1, 4)]).to_smtlib2(), "(* |_0| 4)");
    assert_eq!(LinComb(vec![term(1, 2), term(2, 3)]).to_smtlib2(), "(+ (* |_0| 2) (* |_1| 3))");
}

#[test]
fn quadratic_combination() {
    let q = QuadComb { left: LinComb(vec![term(1, 1)]), right: LinComb(vec![]) };
    assert_eq!(q.to_smtlib2(), "(* (* |_0| 1) 0)");
}

#[test]
fn directive_and_log_render_empty() {
    let d = Statement::Directive(Directive { inputs: vec![], outputs: vec![Variable { id: 3 }] });
    assert_eq!(d.to_smtlib2(), "");
    assert_eq!(Statement::Log("x".to_string()).to_smtlib2(), "");
}

#[test]
fn whole_program() {
    let p = Prog {
        modulus: BigNat::from_u128(7),
        statements: vec![
            Statement::Constraint(
                QuadComb { left: LinComb(vec![term(1, 1)]), right: LinComb(vec![term(0, 1)]) },
                LinComb(vec![term(-1, 1)]),
            ),
            Statement::Directive(Directive { inputs: vec![], outputs: vec![Variable { id: 1 }] }),
        ],
    };
    let expected = "; Auto generated by ZoKrates\n\
; Number of circuit variables: 3\n\
; Number of equalities: 2\n\
(declare-const |~prime| Int)\n\
(declare-const |~out_0| Int)\n\
(declare-const |~one| Int)\n\
(declare-const |_0| Int)\n\
(assert (and\n\
(= |~prime| 7)\n\
(= |~one| 1)\n\
(= (mod (* (* |_0| 1) (* |~one| 1)) |~prime|) (mod (* |~out_0| 1) |~prime|))\n\
\n\
))";
    assert_eq!(SMTLib2Display(&p).to_string(), expected);
}
