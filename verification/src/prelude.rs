//! The standard prelude: a fixed list of basic combinators merged into the
//! global table before the user program, whose definitions with the same
//! name silently override them.

use crate::ast::def_view;
use crate::ast::expr_view;
use crate::ast::prog_view;
use crate::ast::DefV;
use crate::ast::Expr;
use crate::ast::ExprV;
use crate::ast::Program;
use crate::ast::SuperCombinator;
use vstd::prelude::*;
use vstd::string::StringExecFns;

verus! {

/// What the prelude defines: the identity, the constant-first and
/// constant-second combinators, the general combinator `S`, function
/// composition, and self-composition.
pub open spec fn prelude_view() -> Seq<DefV> {
    seq![
        // I x = x
        DefV { name: "I"@, params: seq!["x"@], body: ExprV::Var("x"@) },
        // Fst x y = x
        DefV { name: "Fst"@, params: seq!["x"@, "y"@], body: ExprV::Var("x"@) },
        // Snd x y = y
        DefV { name: "Snd"@, params: seq!["x"@, "y"@], body: ExprV::Var("y"@) },
        // S f g x = f x (g x)
        DefV {
            name: "S"@,
            params: seq!["f"@, "g"@, "x"@],
            body: ExprV::App(
                Box::new(
                    ExprV::App(Box::new(ExprV::Var("f"@)), Box::new(ExprV::Var("x"@))),
                ),
                Box::new(
                    ExprV::App(Box::new(ExprV::Var("g"@)), Box::new(ExprV::Var("x"@))),
                ),
            ),
        },
        // Compose f g x = f (g x)
        DefV {
            name: "Compose"@,
            params: seq!["f"@, "g"@, "x"@],
            body: ExprV::App(
                Box::new(ExprV::Var("f"@)),
                Box::new(
                    ExprV::App(Box::new(ExprV::Var("g"@)), Box::new(ExprV::Var("x"@))),
                ),
            ),
        },
        // Twice f = Compose f f
        DefV {
            name: "Twice"@,
            params: seq!["f"@],
            body: ExprV::App(
                Box::new(
                    ExprV::App(
                        Box::new(ExprV::Var("Compose"@)),
                        Box::new(ExprV::Var("f"@)),
                    ),
                ),
                Box::new(ExprV::Var("f"@)),
            ),
        },
    ]
}

/// A variable expression with the given name.
fn var(n: &str) -> (e: Expr)
    ensures
        expr_view(e) == ExprV::Var(n@),
{
    let s = String::from_str(n);
    let ghost sv = s@;
    let e = Expr::Variable(s);
    proof {
        assert(expr_view(e) == ExprV::Var(sv));
    }
    e
}

/// An application expression.
fn app(a: Expr, b: Expr) -> (e: Expr)
    ensures
        expr_view(e) == ExprV::App(Box::new(expr_view(a)), Box::new(expr_view(b))),
{
    let ghost av = expr_view(a);
    let ghost bv = expr_view(b);
    let e = Expr::Application(Box::new(a), Box::new(b));
    proof {
        assert(expr_view(e) == ExprV::App(Box::new(av), Box::new(bv)));
    }
    e
}

/// A definition from its parts.
fn def(name: &str, params: Vec<String>, value: Expr) -> (d: SuperCombinator)
    ensures
        def_view(d) == (DefV {
            name: name@,
            params: params@.map_values(|s: String| s@),
            body: expr_view(value),
        }),
{
    SuperCombinator { name: String::from_str(name), args: params, value }
}

/// One parameter list.
fn params1(a: &str) -> (v: Vec<String>)
    ensures
        v@.map_values(|s: String| s@) == seq![a@],
{
    let mut v: Vec<String> = Vec::new();
    v.push(String::from_str(a));
    proof {
        assert(v@.map_values(|s: String| s@) =~= seq![a@]);
    }
    v
}

/// Two parameters.
fn params2(a: &str, b: &str) -> (v: Vec<String>)
    ensures
        v@.map_values(|s: String| s@) == seq![a@, b@],
{
    let mut v: Vec<String> = Vec::new();
    v.push(String::from_str(a));
    v.push(String::from_str(b));
    proof {
        assert(v@.map_values(|s: String| s@) =~= seq![a@, b@]);
    }
    v
}

/// Three parameters.
fn params3(a: &str, b: &str, c: &str) -> (v: Vec<String>)
    ensures
        v@.map_values(|s: String| s@) == seq![a@, b@, c@],
{
    let mut v: Vec<String> = Vec::new();
    v.push(String::from_str(a));
    v.push(String::from_str(b));
    v.push(String::from_str(c));
    proof {
        assert(v@.map_values(|s: String| s@) =~= seq![a@, b@, c@]);
    }
    v
}

/// Builds the prelude program.
pub fn prelude() -> (r: Program)
    ensures
        prog_view(r@) == prelude_view(),
{
    let mut p: Vec<SuperCombinator> = Vec::new();
    p.push(def("I", params1("x"), var("x")));
    p.push(def("Fst", params2("x", "y"), var("x")));
    p.push(def("Snd", params2("x", "y"), var("y")));
    p.push(
        def(
            "S",
            params3("f", "g", "x"),
            app(app(var("f"), var("x")), app(var("g"), var("x"))),
        ),
    );
    p.push(
        def("Compose", params3("f", "g", "x"), app(var("f"), app(var("g"), var("x")))),
    );
    p.push(def("Twice", params1("f"), app(app(var("Compose"), var("f")), var("f"))));
    proof {
        assert(prog_view(p@) =~= prelude_view());
    }
    p
}

} // verus!
