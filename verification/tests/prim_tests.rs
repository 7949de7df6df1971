use kern::ast::{Expr, Program, SuperCombinator};
use kern::compiler::compile;
use kern::graph::{HNode, Prim};
use kern::reducer::{calculate_primitve, reduce};

fn var(n: &str) -> Expr {
    Expr::Variable(n.to_string())
}

fn num(k: i64) -> Expr {
    Expr::Number(k)
}

fn app(a: Expr, b: Expr) -> Expr {
    Expr::Application(Box::new(a), Box::new(b))
}

fn def(name: &str, args: &[&str], value: Expr) -> SuperCombinator {
    SuperCombinator {
        name: name.to_string(),
        args: args.iter().map(|s| s.to_string()).collect(),
        value,
    }
}

fn eval_op(op: &str, a: i64, b: i64) -> i64 {
    let prog: Program = vec![def("main", &[], app(app(var(op), num(a)), num(b)))];
    let mut st = compile(prog).unwrap();
    let nb = reduce(&mut st, 100_000).unwrap();
    match st.heap[nb.ix] {
        HNode::Number(v) => v,
        other => panic!("result of {} is not a number: {:?}", op, other),
    }
}

#[test]
fn bitwise_operators_match_the_native_ones() {
    assert_eq!(eval_op("|", 7, 3), 7 | 3);
    assert_eq!(eval_op("|", -1, 6), -1);
    assert_eq!(eval_op("&", 7, 3), 7 & 3);
    assert_eq!(eval_op("&", -1, 6), 6);
}

#[test]
fn comparisons_are_normalized_to_zero_and_one() {
    assert_eq!(eval_op("==", 7, 3), 0);
    assert_eq!(eval_op("==", 7, 7), 1);
    assert_eq!(eval_op("!=", 7, 3), 1);
    assert_eq!(eval_op("!=", 7, 7), 0);
    assert_eq!(eval_op(">", 7, 3), 1);
    assert_eq!(eval_op(">", 3, 7), 0);
    assert_eq!(eval_op(">=", 7, 7), 1);
    assert_eq!(eval_op(">=", 3, 7), 0);
    assert_eq!(eval_op("<", 3, 7), 1);
    assert_eq!(eval_op("<", 7, 3), 0);
    assert_eq!(eval_op("<=", 7, 7), 1);
    assert_eq!(eval_op("<=", 7, 3), 0);
}

#[test]
fn arithmetic_matches_the_native_operators() {
    assert_eq!(eval_op("+", 7, 3), 10);
    assert_eq!(eval_op("+", -7, 3), -4);
    assert_eq!(eval_op("-", 7, 3), 4);
    assert_eq!(eval_op("-", 3, 7), -4);
    assert_eq!(eval_op("*", 7, 3), 21);
    assert_eq!(eval_op("*", -7, 3), -21);
}

#[test]
fn division_truncates_toward_zero() {
    assert_eq!(eval_op("/", 7, 3), 2);
    assert_eq!(eval_op("/", -7, 3), -2);
    assert_eq!(eval_op("/", 7, -3), -2);
    assert_eq!(eval_op("/", -7, -3), 2);
    assert_eq!(eval_op("/", 3, 7), 0);
    assert_eq!(eval_op("/", i64::MIN, 2), i64::MIN / 2);
}

#[test]
fn overflow_wraps_around() {
    assert_eq!(eval_op("+", i64::MAX, 1), i64::MIN);
    assert_eq!(eval_op("-", i64::MIN, 1), i64::MAX);
    assert_eq!(eval_op("*", i64::MAX, 2), i64::MAX.wrapping_mul(2));
    assert_eq!(eval_op("/", i64::MIN, -1), i64::MIN);
    assert_eq!(eval_op("*", i64::MIN, -1), i64::MIN);
}

#[test]
fn calculate_primitve_computes_each_operator() {
    assert_eq!(calculate_primitve(Prim::Or, 12, 10), 12 | 10);
    assert_eq!(calculate_primitve(Prim::And, 12, 10), 12 & 10);
    assert_eq!(calculate_primitve(Prim::Eq, 4, 4), 1);
    assert_eq!(calculate_primitve(Prim::Ne, 4, 4), 0);
    assert_eq!(calculate_primitve(Prim::Gt, 5, 4), 1);
    assert_eq!(calculate_primitve(Prim::Ge, 4, 5), 0);
    assert_eq!(calculate_primitve(Prim::Lt, 4, 5), 1);
    assert_eq!(calculate_primitve(Prim::Le, 5, 4), 0);
    assert_eq!(calculate_primitve(Prim::Add, 30, 12), 42);
    assert_eq!(calculate_primitve(Prim::Sub, 30, 12), 18);
    assert_eq!(calculate_primitve(Prim::Mul, 6, 7), 42);
    assert_eq!(calculate_primitve(Prim::Div, 45, 7), 6);
    assert_eq!(calculate_primitve(Prim::Div, -45, 7), -6);
}

#[test]
fn random_pairs_match_native_semantics() {
    // a fixed spread of operand pairs, compared against Rust's own
    // wrapping and truncating operations
    let pairs: &[(i64, i64)] = &[
        (0, 1),
        (1, -1),
        (-1, -1),
        (123456789, -987),
        (-40, 40),
        (i64::MAX, i64::MAX),
        (i64::MIN, 3),
        (17, 5),
    ];
    for &(a, b) in pairs {
        assert_eq!(eval_op("|", a, b), a | b);
        assert_eq!(eval_op("&", a, b), a & b);
        assert_eq!(eval_op("==", a, b), (a == b) as i64);
        assert_eq!(eval_op("!=", a, b), (a != b) as i64);
        assert_eq!(eval_op(">", a, b), (a > b) as i64);
        assert_eq!(eval_op(">=", a, b), (a >= b) as i64);
        assert_eq!(eval_op("<", a, b), (a < b) as i64);
        assert_eq!(eval_op("<=", a, b), (a <= b) as i64);
        assert_eq!(eval_op("+", a, b), a.wrapping_add(b));
        assert_eq!(eval_op("-", a, b), a.wrapping_sub(b));
        assert_eq!(eval_op("*", a, b), a.wrapping_mul(b));
        if b != 0 {
            assert_eq!(eval_op("/", a, b), a.wrapping_div(b));
        }
    }
}
