use kern::ast::{Expr, Program, SuperCombinator};
use kern::compiler::compile;
use kern::graph::{HNode, NodeBox};
use kern::reducer::{reduce, RuntimeError, State, Stat};

fn var(n: &str) -> Expr {
    Expr::Variable(n.to_string())
}

fn num(k: i64) -> Expr {
    Expr::Number(k)
}

fn app(a: Expr, b: Expr) -> Expr {
    Expr::Application(Box::new(a), Box::new(b))
}

fn binop(op: &str, a: Expr, b: Expr) -> Expr {
    app(app(var(op), a), b)
}

fn def(name: &str, args: &[&str], value: Expr) -> SuperCombinator {
    SuperCombinator {
        name: name.to_string(),
        args: args.iter().map(|s| s.to_string()).collect(),
        value,
    }
}

fn run(prog: Program) -> (State, Result<NodeBox, RuntimeError>) {
    let mut st = compile(prog).unwrap();
    let r = reduce(&mut st, 100_000);
    (st, r)
}

fn run_num(prog: Program) -> i64 {
    let (st, r) = run(prog);
    let nb = r.unwrap();
    match st.heap[nb.ix] {
        HNode::Number(v) => v,
        other => panic!("result is not a number: {:?}", other),
    }
}

#[test]
fn two_plus_three_is_five() {
    assert_eq!(run_num(vec![def("main", &[], binop("+", num(2), num(3)))]), 5);
}

#[test]
fn two_plus_three_takes_two_steps() {
    let (st, r) = run(vec![def("main", &[], binop("+", num(2), num(3)))]);
    assert!(r.is_ok());
    assert_eq!(st.stats.steps(), 2);
}

#[test]
fn shared_argument_is_used_through_one_node() {
    // double x = x + x; main = double 21: both uses of x bind the same
    // node, so the whole run takes one instantiation of main, one of
    // double, and one primitive step
    let prog = vec![
        def("double", &["x"], binop("+", var("x"), var("x"))),
        def("main", &[], app(var("double"), num(21))),
    ];
    let (st, r) = run(prog);
    let nb = r.unwrap();
    assert!(matches!(st.heap[nb.ix], HNode::Number(42)));
    assert_eq!(st.stats.steps(), 3);
}

#[test]
fn arity_zero_combinator_is_computed_once() {
    // c = 1 + 2; main = c + c: the second use of c sees the number the
    // first reduction wrote in place of c's canonical node
    let prog = vec![
        def("c", &[], binop("+", num(1), num(2))),
        def("main", &[], binop("+", var("c"), var("c"))),
    ];
    let (st, r) = run(prog);
    let nb = r.unwrap();
    assert!(matches!(st.heap[nb.ix], HNode::Number(6)));
    assert_eq!(st.stats.steps(), 6);
}

#[test]
fn division_by_zero_fails_and_preserves_the_machine() {
    let prog = vec![def("main", &[], binop("/", num(5), num(0)))];
    let mut st = compile(prog).unwrap();
    let r = reduce(&mut st, 100_000);
    assert_eq!(r, Err(RuntimeError::ArithmeticError));
    // the failing step is not counted and the machine is intact: stack,
    // dump and table are as the last successful step left them
    assert_eq!(st.stats.steps(), 1);
    assert_eq!(st.stack.len(), 1);
    assert!(st.dump.is_empty());
    // reducing again reports the same error instead of hanging or lying
    let again = reduce(&mut st, 100_000);
    assert_eq!(again, Err(RuntimeError::ArithmeticError));
    assert_eq!(st.stats.steps(), 1);
}

#[test]
fn applying_a_number_is_a_type_error() {
    let prog = vec![def("main", &[], app(num(1), num(2)))];
    let (st, r) = run(prog);
    assert_eq!(r, Err(RuntimeError::RuntimeTypeError));
    assert_eq!(st.stats.steps(), 1);
}

#[test]
fn reduce_on_a_final_state_is_a_no_op() {
    let prog = vec![def("main", &[], binop("+", num(2), num(3)))];
    let mut st = compile(prog).unwrap();
    let first = reduce(&mut st, 100_000).unwrap();
    let steps = st.stats.steps();
    let heap_len = st.heap.len();
    let second = reduce(&mut st, 100_000).unwrap();
    assert_eq!(second.ix, first.ix);
    assert_eq!(st.stats.steps(), steps);
    assert_eq!(st.heap.len(), heap_len);
    assert!(matches!(st.heap[second.ix], HNode::Number(5)));
}

#[test]
fn equal_programs_reduce_identically() {
    let make = || {
        vec![
            def("double", &["x"], binop("+", var("x"), var("x"))),
            def("main", &[], app(var("double"), num(21))),
        ]
    };
    let mut a = compile(make()).unwrap();
    let mut b = compile(make()).unwrap();
    let ra = reduce(&mut a, 100_000).unwrap();
    let rb = reduce(&mut b, 100_000).unwrap();
    assert_eq!(ra.ix, rb.ix);
    assert_eq!(a.stats.steps(), b.stats.steps());
    match (a.heap[ra.ix], b.heap[rb.ix]) {
        (HNode::Number(x), HNode::Number(y)) => assert_eq!(x, y),
        other => panic!("results are not numbers: {:?}", other),
    }
}

#[test]
fn nonterminating_program_exhausts_its_budget() {
    let prog = vec![def("loop", &[], var("loop")), def("main", &[], var("loop"))];
    let mut st = compile(prog).unwrap();
    let r = reduce(&mut st, 50);
    assert_eq!(r, Err(RuntimeError::Divergence));
}

#[test]
fn identity_from_the_prelude() {
    assert_eq!(run_num(vec![def("main", &[], app(var("I"), num(5)))]), 5);
}

#[test]
fn fst_and_snd_from_the_prelude() {
    assert_eq!(run_num(vec![def("main", &[], app(app(var("Fst"), num(1)), num(2)))]), 1);
    assert_eq!(run_num(vec![def("main", &[], app(app(var("Snd"), num(1)), num(2)))]), 2);
}

#[test]
fn laziness_keeps_an_unneeded_argument_unevaluated() {
    // S Fst Snd 7 = Fst 7 (Snd 7): the second argument is an unsaturated
    // application and is never forced
    let prog = vec![def(
        "main",
        &[],
        app(app(app(var("S"), var("Fst")), var("Snd")), num(7)),
    )];
    assert_eq!(run_num(prog), 7);
}

#[test]
fn compose_and_twice_from_the_prelude() {
    let prog = vec![
        def("inc", &["x"], binop("+", var("x"), num(1))),
        def("dbl", &["x"], binop("+", var("x"), var("x"))),
        def("main", &[], app(app(app(var("Compose"), var("inc")), var("dbl")), num(3))),
    ];
    assert_eq!(run_num(prog), 7);
    let prog2 = vec![
        def("inc", &["x"], binop("+", var("x"), num(1))),
        def("main", &[], app(app(var("Twice"), var("inc")), num(3))),
    ];
    assert_eq!(run_num(prog2), 5);
}

#[test]
fn user_definition_overrides_the_prelude() {
    let prog = vec![
        def("I", &["x"], binop("+", var("x"), num(1))),
        def("main", &[], app(var("I"), num(5))),
    ];
    assert_eq!(run_num(prog), 6);
}

#[test]
fn later_duplicate_definition_wins() {
    let prog = vec![
        def("f", &[], num(1)),
        def("f", &[], num(2)),
        def("main", &[], var("f")),
    ];
    assert_eq!(run_num(prog), 2);
}

#[test]
fn repeated_parameter_name_binds_its_last_occurrence() {
    let prog = vec![
        def("pick", &["x", "x"], var("x")),
        def("main", &[], app(app(var("pick"), num(1)), num(2))),
    ];
    assert_eq!(run_num(prog), 2);
}

#[test]
fn nested_arithmetic_forces_arguments_in_order() {
    // (1 + 2) * (10 - 4) forces both sides through the dump
    let prog = vec![def(
        "main",
        &[],
        binop("*", binop("+", num(1), num(2)), binop("-", num(10), num(4))),
    )];
    assert_eq!(run_num(prog), 18);
}

#[test]
fn steppable_and_final_track_the_machine() {
    let prog = vec![def("main", &[], binop("+", num(2), num(3)))];
    let mut st = compile(prog).unwrap();
    assert!(!st.is_final());
    assert!(st.is_steppable());
    reduce(&mut st, 100_000).unwrap();
    assert!(st.is_final());
    assert!(!st.is_steppable());
}

#[test]
fn single_steps_reach_the_same_result() {
    let prog = vec![def("main", &[], binop("+", num(2), num(3)))];
    let mut st = compile(prog).unwrap();
    let mut steps: i32 = 0;
    while st.is_steppable() {
        st.step().unwrap();
        steps += 1;
        assert!(steps < 100);
    }
    let top = st.stack[st.stack.len() - 1];
    assert!(matches!(st.heap[top.ix], HNode::Number(5)));
    assert_eq!(steps, 2);
}

#[test]
fn node_boxes_share_one_overwritten_slot() {
    let mut heap: Vec<HNode> = Vec::new();
    let a = NodeBox::new(&mut heap, HNode::Number(1));
    let b = a;
    let old = a.replace(&mut heap, HNode::Number(2));
    assert!(matches!(old, HNode::Number(1)));
    assert!(matches!(*b.borrow(&heap), HNode::Number(2)));
    assert_eq!(heap.len(), 1);
}

#[test]
fn statistics_start_at_zero() {
    let s = Stat::new();
    assert_eq!(s.steps(), 0);
}
