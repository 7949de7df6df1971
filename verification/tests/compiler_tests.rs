use kern::ast::{Expr, Program, SuperCombinator};
use kern::compiler::{compile, CompileError, ConstructKind};

fn var(n: &str) -> Expr {
    Expr::Variable(n.to_string())
}

fn num(k: i64) -> Expr {
    Expr::Number(k)
}

fn app(a: Expr, b: Expr) -> Expr {
    Expr::Application(Box::new(a), Box::new(b))
}

fn binop(op: &str, a: Expr, b: Expr) -> Expr {
    app(app(var(op), a), b)
}

fn def(name: &str, args: &[&str], value: Expr) -> SuperCombinator {
    SuperCombinator {
        name: name.to_string(),
        args: args.iter().map(|s| s.to_string()).collect(),
        value,
    }
}

#[test]
fn missing_main_is_reported() {
    let prog: Program = vec![def("double", &["x"], binop("+", var("x"), var("x")))];
    match compile(prog) {
        Err(CompileError::MissingEntryPoint) => {}
        other => panic!("expected MissingEntryPoint, got {:?}", other.err()),
    }
}

#[test]
fn empty_program_lacks_main() {
    let prog: Program = vec![];
    assert!(matches!(compile(prog), Err(CompileError::MissingEntryPoint)));
}

#[test]
fn main_with_parameters_is_no_entry_point() {
    let prog: Program = vec![def("main", &["x"], var("x"))];
    assert!(matches!(compile(prog), Err(CompileError::MissingEntryPoint)));
}

#[test]
fn unbound_identifier_is_named() {
    let prog: Program = vec![def("main", &[], var("x"))];
    match compile(prog) {
        Err(CompileError::UndefinedReference(n)) => assert_eq!(n, "x"),
        other => panic!("expected UndefinedReference, got {:?}", other.err()),
    }
}

#[test]
fn unbound_function_name_is_named() {
    let prog: Program = vec![def("main", &[], app(var("mystery"), num(1)))];
    match compile(prog) {
        Err(CompileError::UndefinedReference(n)) => assert_eq!(n, "mystery"),
        other => panic!("expected UndefinedReference, got {:?}", other.err()),
    }
}

#[test]
fn constructor_is_rejected() {
    let prog: Program = vec![def("main", &[], Expr::Constructor { tag: 1, arity: 0 })];
    assert!(matches!(
        compile(prog),
        Err(CompileError::UnsupportedConstruct(ConstructKind::Constructor))
    ));
}

#[test]
fn let_is_rejected() {
    let body = Expr::Let {
        is_recursive: false,
        definitions: vec![("a".to_string(), num(1))],
        body: Box::new(var("a")),
    };
    let prog: Program = vec![def("main", &[], body)];
    assert!(matches!(
        compile(prog),
        Err(CompileError::UnsupportedConstruct(ConstructKind::Let))
    ));
}

#[test]
fn case_is_rejected() {
    let body = Expr::Case {
        expr: Box::new(num(1)),
        alts: vec![(1, vec!["x".to_string()], var("x"))],
    };
    let prog: Program = vec![def("main", &[], body)];
    assert!(matches!(
        compile(prog),
        Err(CompileError::UnsupportedConstruct(ConstructKind::Case))
    ));
}

#[test]
fn lambda_is_rejected() {
    let body = Expr::Lambda { args: vec!["x".to_string()], body: Box::new(var("x")) };
    let prog: Program = vec![def("main", &[], body)];
    assert!(matches!(
        compile(prog),
        Err(CompileError::UnsupportedConstruct(ConstructKind::Lambda))
    ));
}

#[test]
fn reserved_symbol_as_definition_name_collides() {
    let prog: Program = vec![def("+", &["x", "y"], var("x")), def("main", &[], num(1))];
    match compile(prog) {
        Err(CompileError::ReservedNameCollision(n)) => assert_eq!(n, "+"),
        other => panic!("expected ReservedNameCollision, got {:?}", other.err()),
    }
}

#[test]
fn compile_builds_initial_state_without_reducing() {
    let prog: Program = vec![def("main", &[], binop("+", num(2), num(3)))];
    let st = compile(prog).unwrap();
    // the prelude's six entries come first, then the user's definition
    assert_eq!(st.globals.len(), 7);
    assert_eq!(st.globals[6].name, "main");
    assert_eq!(st.stack.len(), 1);
    assert_eq!(st.stack[0].ix, st.globals[6].node.ix);
    assert!(st.dump.is_empty());
    assert_eq!(st.stats.steps(), 0);
}

#[test]
fn nested_unsupported_construct_fails_closed() {
    let body = app(num(1), Expr::Lambda { args: vec!["x".to_string()], body: Box::new(var("x")) });
    let prog: Program = vec![def("main", &[], body)];
    assert!(matches!(
        compile(prog),
        Err(CompileError::UnsupportedConstruct(ConstructKind::Lambda))
    ));
}

#[test]
fn atomic_expressions_are_variables_and_numbers() {
    assert!(var("x").is_atomic_expression());
    assert!(num(3).is_atomic_expression());
    assert!(!app(var("f"), num(1)).is_atomic_expression());
}

#[test]
fn binaryop_expr_builds_curried_application() {
    let e = kern::ast::binaryop_expr("+", num(2), num(3));
    match e {
        Expr::Application(f, b) => {
            assert!(matches!(*b, Expr::Number(3)));
            match *f {
                Expr::Application(op, a) => {
                    assert!(matches!(*a, Expr::Number(2)));
                    match *op {
                        Expr::Variable(n) => assert_eq!(n, "+"),
                        other => panic!("expected operator variable, got {:?}", other),
                    }
                }
                other => panic!("expected inner application, got {:?}", other),
            }
        }
        other => panic!("expected application, got {:?}", other),
    }
}
