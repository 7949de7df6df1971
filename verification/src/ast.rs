//! The abstract syntax tree handed to the compiler: an ordered list of
//! top-level definitions, each a name, an ordered parameter list and a body
//! expression.

use vstd::prelude::*;
use vstd::string::StringExecFns;

verus! {

/// A body expression. The baseline language accepts variables, integer
/// literals and applications; constructors, local bindings, case analysis
/// and anonymous functions are part of the tree but rejected by the
/// compiler.
#[derive(Debug)]
pub enum Expr {
    Variable(String),
    Number(i64),
    Constructor { tag: i64, arity: i64 },
    Application(Box<Expr>, Box<Expr>),
    Let { is_recursive: bool, definitions: Vec<(String, Expr)>, body: Box<Expr> },
    Case { expr: Box<Expr>, alts: Vec<(i64, Vec<String>, Expr)> },
    Lambda { args: Vec<String>, body: Box<Expr> },
}

/// A top-level definition: a unique name, the ordered parameter list that
/// fixes the arity and the positional binding, and the body.
#[derive(Debug)]
pub struct SuperCombinator {
    pub name: String,
    pub args: Vec<String>,
    pub value: Expr,
}

/// A program: an ordered list of definitions.
pub type Program = Vec<SuperCombinator>;

/// An expression as a mathematical value: names as character sequences,
/// and the rejected constructs kept only as their kind.
pub ghost enum ExprV {
    Var(Seq<char>),
    Num(i64),
    Ctor,
    App(Box<ExprV>, Box<ExprV>),
    LetE,
    CaseE,
    LambdaE,
}

pub open spec fn expr_view(e: Expr) -> ExprV
    decreases e,
{
    match e {
        Expr::Variable(n) => ExprV::Var(n@),
        Expr::Number(k) => ExprV::Num(k),
        Expr::Constructor { .. } => ExprV::Ctor,
        Expr::Application(a, b) => ExprV::App(Box::new(expr_view(*a)), Box::new(expr_view(*b))),
        Expr::Let { .. } => ExprV::LetE,
        Expr::Case { .. } => ExprV::CaseE,
        Expr::Lambda { .. } => ExprV::LambdaE,
    }
}

/// A definition as a mathematical value.
pub ghost struct DefV {
    pub name: Seq<char>,
    pub params: Seq<Seq<char>>,
    pub body: ExprV,
}

pub open spec fn def_view(sc: SuperCombinator) -> DefV {
    DefV {
        name: sc.name@,
        params: sc.args@.map_values(|a: String| a@),
        body: expr_view(sc.value),
    }
}

pub open spec fn prog_view(p: Seq<SuperCombinator>) -> Seq<DefV> {
    p.map_values(|sc: SuperCombinator| def_view(sc))
}

impl Expr {
    /// Whether the expression is a variable or a literal, the forms that
    /// need no parentheses as a function argument.
    pub fn is_atomic_expression(&self) -> (r: bool)
        ensures
            r == (expr_view(*self) matches ExprV::Var(_) || expr_view(*self)
                matches ExprV::Num(_)),
    {
        match self {
            Expr::Variable(_) => true,
            Expr::Number(_) => true,
            _ => false,
        }
    }
}

/// Builds the application of a binary operator to two operands, in the
/// curried shape the compiler expects.
pub fn binaryop_expr(operator: &str, x: Expr, y: Expr) -> (r: Expr)
    ensures
        expr_view(r) == ExprV::App(
            Box::new(
                ExprV::App(Box::new(ExprV::Var(operator@)), Box::new(expr_view(x))),
            ),
            Box::new(expr_view(y)),
        ),
{
    let ghost xv = expr_view(x);
    let ghost yv = expr_view(y);
    let op_s = String::from_str(operator);
    proof {
        assert(expr_view(Expr::Variable(op_s)) == ExprV::Var(operator@));
    }
    let inner = Expr::Application(Box::new(Expr::Variable(op_s)), Box::new(x));
    proof {
        assert(expr_view(inner) == ExprV::App(
            Box::new(ExprV::Var(operator@)),
            Box::new(xv),
        ));
    }
    let r = Expr::Application(Box::new(inner), Box::new(y));
    proof {
        assert(expr_view(r) == ExprV::App(Box::new(expr_view(inner)), Box::new(yv)));
    }
    r
}

} // verus!
