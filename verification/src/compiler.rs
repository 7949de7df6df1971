//! The compiler: merges the prelude with the user program, classifies every
//! identifier as a primitive operator, a parameter or a global reference,
//! emits a graph template per definition, and builds the initial machine
//! state rooted at the entry point `main`. It fails closed: unsupported
//! constructs, unbound identifiers, definitions that reuse a primitive
//! symbol, and a missing or non-nullary `main` are reported as typed
//! errors, and no partial table is ever returned.

use crate::ast::expr_view;
use crate::ast::prog_view;
use crate::ast::DefV;
use crate::ast::Expr;
use crate::ast::ExprV;
use crate::ast::Program;
use crate::ast::SuperCombinator;
use crate::graph::GlobalDef;
use crate::graph::HNode;
use crate::graph::NodeBox;
use crate::graph::Prim;
use crate::graph::Template;
use crate::graph::wf_template;
use crate::reducer::Stat;
use crate::reducer::State;
use vstd::prelude::*;
use vstd::string::StringExecFns;

verus! {

/// Which rejected construct a program used.
#[derive(Clone, Copy, Debug, PartialEq, Eq, Structural)]
pub enum ConstructKind {
    Constructor,
    Let,
    Case,
    Lambda,
}

/// The ways compilation can fail.
#[derive(Debug)]
pub enum CompileError {
    /// The merged table holds no definition named `main` with zero
    /// parameters.
    MissingEntryPoint,
    /// An identifier is neither a parameter, nor a global, nor a primitive
    /// operator; carries the identifier.
    UndefinedReference(String),
    /// The program uses a construct outside the baseline language.
    UnsupportedConstruct(ConstructKind),
    /// A user definition reuses a reserved primitive symbol as its name.
    ReservedNameCollision(String),
}

/// A compile error as a mathematical value.
pub ghost enum CErrV {
    MissingEntryPoint,
    UndefinedReference(Seq<char>),
    UnsupportedConstruct(ConstructKind),
    ReservedNameCollision(Seq<char>),
}

pub open spec fn err_view(e: CompileError) -> CErrV {
    match e {
        CompileError::MissingEntryPoint => CErrV::MissingEntryPoint,
        CompileError::UndefinedReference(n) => CErrV::UndefinedReference(n@),
        CompileError::UnsupportedConstruct(k) => CErrV::UnsupportedConstruct(k),
        CompileError::ReservedNameCollision(n) => CErrV::ReservedNameCollision(n@),
    }
}

/// The primitive operator a reserved symbol names, if any.
pub open spec fn prim_of_name(n: Seq<char>) -> Option<Prim> {
    if n == "|"@ {
        Some(Prim::Or)
    } else if n == "&"@ {
        Some(Prim::And)
    } else if n == "=="@ {
        Some(Prim::Eq)
    } else if n == "!="@ {
        Some(Prim::Ne)
    } else if n == ">"@ {
        Some(Prim::Gt)
    } else if n == ">="@ {
        Some(Prim::Ge)
    } else if n == "<"@ {
        Some(Prim::Lt)
    } else if n == "<="@ {
        Some(Prim::Le)
    } else if n == "+"@ {
        Some(Prim::Add)
    } else if n == "-"@ {
        Some(Prim::Sub)
    } else if n == "*"@ {
        Some(Prim::Mul)
    } else if n == "/"@ {
        Some(Prim::Div)
    } else {
        None
    }
}

/// The first definition at or after `j` whose name is a reserved primitive
/// symbol, or minus one.
pub open spec fn first_collision_from(defs: Seq<DefV>, j: int) -> int
    decreases defs.len() - j when 0 <= j
{
    if j >= defs.len() {
        -1
    } else if prim_of_name(defs[j].name) is Some {
        j
    } else {
        first_collision_from(defs, j + 1)
    }
}

/// The first definition at or after `j` with the given name, or minus one.
pub open spec fn find_name_from(defs: Seq<DefV>, n: Seq<char>, j: int) -> int
    decreases defs.len() - j when 0 <= j
{
    if j >= defs.len() {
        -1
    } else if defs[j].name == n {
        j
    } else {
        find_name_from(defs, n, j + 1)
    }
}

pub open spec fn find_name(defs: Seq<DefV>, n: Seq<char>) -> int {
    find_name_from(defs, n, 0)
}

/// Merging one definition: a definition with a known name replaces the
/// earlier entry in place; a new name is appended.
pub open spec fn merge_one(acc: Seq<DefV>, d: DefV) -> Seq<DefV> {
    let i = find_name(acc, d.name);
    if i >= 0 {
        acc.update(i, d)
    } else {
        acc.push(d)
    }
}

/// Merging a list of definitions in order, later definitions of a name
/// overriding earlier ones.
pub open spec fn merge_defs(acc: Seq<DefV>, rest: Seq<DefV>) -> Seq<DefV>
    decreases rest.len(),
{
    if rest.len() == 0 {
        acc
    } else {
        merge_defs(merge_one(acc, rest[0]), rest.drop_first())
    }
}

/// The position a parameter name binds to, considering only the first
/// `upto` parameters: the rightmost occurrence, so a repeated name is
/// bound by its last occurrence; or minus one.
pub open spec fn last_param_upto(params: Seq<Seq<char>>, n: Seq<char>, upto: int) -> int
    decreases upto when upto <= params.len()
{
    if upto <= 0 {
        -1
    } else if params[upto - 1] == n {
        upto - 1
    } else {
        last_param_upto(params, n, upto - 1)
    }
}

pub open spec fn last_param(params: Seq<Seq<char>>, n: Seq<char>) -> int {
    last_param_upto(params, n, params.len() as int)
}

/// The outcome of translating one expression.
pub ghost enum TransRes {
    Good(Template),
    Fail(CErrV),
}

/// Translating a body expression against a parameter list and the merged
/// table: a reserved symbol becomes a primitive node; otherwise a
/// parameter occurrence becomes its positional placeholder; otherwise a
/// known global name becomes a reference to its table entry; any other
/// identifier is an unbound reference. Applications translate
/// structurally, the left branch reporting its error first; the constructs
/// outside the baseline language fail closed with their kind.
pub open spec fn translate_spec(e: ExprV, params: Seq<Seq<char>>, defs: Seq<DefV>) -> TransRes
    decreases e,
{
    match e {
        ExprV::Var(n) => match prim_of_name(n) {
            Some(p) => TransRes::Good(Template::Op(p)),
            None => {
                let pi = last_param(params, n);
                if pi >= 0 {
                    TransRes::Good(Template::Param(pi as usize))
                } else {
                    let gi = find_name(defs, n);
                    if gi >= 0 {
                        TransRes::Good(Template::Global(gi as usize))
                    } else {
                        TransRes::Fail(CErrV::UndefinedReference(n))
                    }
                }
            },
        },
        ExprV::Num(k) => TransRes::Good(Template::Num(k)),
        ExprV::App(a, b) => match translate_spec(*a, params, defs) {
            TransRes::Fail(e1) => TransRes::Fail(e1),
            TransRes::Good(ta) => match translate_spec(*b, params, defs) {
                TransRes::Fail(e2) => TransRes::Fail(e2),
                TransRes::Good(tb) => TransRes::Good(
                    Template::App(Box::new(ta), Box::new(tb)),
                ),
            },
        },
        ExprV::Ctor => TransRes::Fail(
            CErrV::UnsupportedConstruct(ConstructKind::Constructor),
        ),
        ExprV::LetE => TransRes::Fail(CErrV::UnsupportedConstruct(ConstructKind::Let)),
        ExprV::CaseE => TransRes::Fail(CErrV::UnsupportedConstruct(ConstructKind::Case)),
        ExprV::LambdaE => TransRes::Fail(
            CErrV::UnsupportedConstruct(ConstructKind::Lambda),
        ),
    }
}

/// The translation of the table entry at `j`.
pub open spec fn def_trans(defs: Seq<DefV>, j: int) -> TransRes {
    translate_spec(defs[j].body, defs[j].params, defs)
}

/// The first table entry at or after `j` whose body fails to translate,
/// or minus one.
pub open spec fn first_fail_from(defs: Seq<DefV>, j: int) -> int
    decreases defs.len() - j when 0 <= j
{
    if j >= defs.len() {
        -1
    } else if def_trans(defs, j) is Fail {
        j
    } else {
        first_fail_from(defs, j + 1)
    }
}

pub open spec fn fail_of(t: TransRes) -> CErrV {
    match t {
        TransRes::Fail(e) => e,
        TransRes::Good(_) => CErrV::MissingEntryPoint,
    }
}

/// The whole compilation pipeline as a function of the user program: the
/// first user definition colliding with a reserved symbol fails first;
/// then the prelude and the user program are merged and each entry's body
/// translated in table order, the first failure aborting; then the table
/// must hold a `main` with zero parameters. On success, the merged table
/// and the position of `main`.
pub ghost enum CompileOutcome {
    Failure(CErrV),
    Success(Seq<DefV>, int),
}

pub open spec fn compile_outcome(user: Seq<DefV>) -> CompileOutcome {
    let c = first_collision_from(user, 0);
    if c >= 0 {
        CompileOutcome::Failure(CErrV::ReservedNameCollision(user[c].name))
    } else {
        let merged = merge_defs(Seq::empty(), crate::prelude::prelude_view() + user);
        let f = first_fail_from(merged, 0);
        if f >= 0 {
            CompileOutcome::Failure(fail_of(def_trans(merged, f)))
        } else {
            let mi = find_name(merged, "main"@);
            if mi >= 0 && merged[mi].params.len() == 0 {
                CompileOutcome::Success(merged, mi)
            } else {
                CompileOutcome::Failure(CErrV::MissingEntryPoint)
            }
        }
    }
}

/// No definition at or after `j` has a reserved symbol as its name, so
/// the scan finds no collision.
proof fn lemma_no_collision(defs: Seq<DefV>, j: int)
    requires
        0 <= j,
        forall|i: int| j <= i < defs.len() ==> prim_of_name((#[trigger] defs[i]).name) is None,
    ensures
        first_collision_from(defs, j) == -1,
    decreases defs.len() - j,
{
    if j < defs.len() {
        lemma_no_collision(defs, j + 1);
    }
}

/// Every entry at or after `j` translates, so the scan finds no failure.
proof fn lemma_no_fail(defs: Seq<DefV>, j: int)
    requires
        0 <= j,
        forall|i: int| j <= i < defs.len() ==> def_trans(defs, i) is Good,
    ensures
        first_fail_from(defs, j) == -1,
    decreases defs.len() - j,
{
    if j < defs.len() {
        lemma_no_fail(defs, j + 1);
    }
}

/// Every entry in `[t, j)` translates and entry `j` fails, so `j` is the
/// first failure.
proof fn lemma_first_fail_at(defs: Seq<DefV>, j: int, t: int)
    requires
        0 <= t <= j < defs.len(),
        forall|i: int| t <= i < j ==> def_trans(defs, i) is Good,
        def_trans(defs, j) is Fail,
    ensures
        first_fail_from(defs, t) == j,
    decreases j - t,
{
    if t < j {
        lemma_first_fail_at(defs, j, t + 1);
    }
}

/// A found name scan lands on an entry with that name.
proof fn lemma_find_name_found(defs: Seq<DefV>, n: Seq<char>, j: int)
    requires
        0 <= j,
        find_name_from(defs, n, j) >= 0,
    ensures
        j <= find_name_from(defs, n, j) < defs.len(),
        defs[find_name_from(defs, n, j)].name == n,
    decreases defs.len() - j,
{
    if j < defs.len() && defs[j].name != n {
        lemma_find_name_found(defs, n, j + 1);
    }
}

/// A program lacking a zero-parameter `main` fails with the missing entry
/// point error: whenever no user definition reuses a reserved symbol,
/// every merged body translates, and no merged definition is named `main`
/// with zero parameters, compilation fails with exactly
/// `MissingEntryPoint`.
pub proof fn lemma_missing_entry_point(user: Seq<DefV>)
    requires
        forall|i: int| 0 <= i < user.len() ==> prim_of_name((#[trigger] user[i]).name) is None,
        ({
            let merged = merge_defs(Seq::empty(), crate::prelude::prelude_view() + user);
            &&& forall|i: int| 0 <= i < merged.len() ==> def_trans(merged, i) is Good
            &&& forall|i: int|
                0 <= i < merged.len() ==> ((#[trigger] merged[i]).name == "main"@
                    ==> merged[i].params.len() != 0)
        }),
    ensures
        compile_outcome(user) == CompileOutcome::Failure(CErrV::MissingEntryPoint),
{
    lemma_no_collision(user, 0);
    let merged = merge_defs(Seq::empty(), crate::prelude::prelude_view() + user);
    lemma_no_fail(merged, 0);
    let mi = find_name(merged, "main"@);
    if mi >= 0 {
        lemma_find_name_found(merged, "main"@, 0);
    }
}

/// An unbound identifier is reported by name: whenever no user definition
/// reuses a reserved symbol and the first merged body that fails to
/// translate fails on an unbound identifier, compilation fails with
/// exactly `UndefinedReference` carrying that identifier.
pub proof fn lemma_undefined_reference(user: Seq<DefV>, j: int, n: Seq<char>)
    requires
        forall|i: int| 0 <= i < user.len() ==> prim_of_name((#[trigger] user[i]).name) is None,
        ({
            let merged = merge_defs(Seq::empty(), crate::prelude::prelude_view() + user);
            &&& 0 <= j < merged.len()
            &&& forall|i: int| 0 <= i < j ==> def_trans(merged, i) is Good
            &&& def_trans(merged, j) == TransRes::Fail(CErrV::UndefinedReference(n))
        }),
    ensures
        compile_outcome(user) == CompileOutcome::Failure(CErrV::UndefinedReference(n)),
{
    lemma_no_collision(user, 0);
    let merged = merge_defs(Seq::empty(), crate::prelude::prelude_view() + user);
    lemma_first_fail_at(merged, j, 0);
}

/// A rejected construct is reported with its kind: whenever no user
/// definition reuses a reserved symbol and the first merged body that
/// fails to translate uses a constructor, a local binding, a case
/// analysis or an anonymous function, compilation fails with exactly
/// `UnsupportedConstruct` carrying that kind.
pub proof fn lemma_unsupported_construct(user: Seq<DefV>, j: int, k: ConstructKind)
    requires
        forall|i: int| 0 <= i < user.len() ==> prim_of_name((#[trigger] user[i]).name) is None,
        ({
            let merged = merge_defs(Seq::empty(), crate::prelude::prelude_view() + user);
            &&& 0 <= j < merged.len()
            &&& forall|i: int| 0 <= i < j ==> def_trans(merged, i) is Good
            &&& def_trans(merged, j) == TransRes::Fail(CErrV::UnsupportedConstruct(k))
        }),
    ensures
        compile_outcome(user) == CompileOutcome::Failure(CErrV::UnsupportedConstruct(k)),
{
    lemma_no_collision(user, 0);
    let merged = merge_defs(Seq::empty(), crate::prelude::prelude_view() + user);
    lemma_first_fail_at(merged, j, 0);
}

/// One entry of a successfully built table corresponds to its merged
/// definition: same name, same parameters, the translated template, and
/// the canonical node right after the primitive nodes.
pub open spec fn ok_global(g: GlobalDef, d: DefV, merged: Seq<DefV>, j: int) -> bool {
    &&& g.name@ == d.name
    &&& g.params@.map_values(|s: String| s@) == d.params
    &&& def_trans(merged, j) == TransRes::Good(g.template)
    &&& wf_template(g.template, d.params.len() as int, merged.len() as int)
    &&& g.node.ix == crate::graph::NUM_PRIMS + j
}

/// The state a successful compilation returns: a well-formed machine whose
/// heap holds exactly the twelve canonical primitive nodes followed by one
/// canonical node per global, whose table corresponds entry by entry to
/// the merged definitions, whose stack holds the entry point's node alone,
/// with an empty dump and a zeroed step count.
pub open spec fn ok_state(st: State, merged: Seq<DefV>, mi: int) -> bool {
    &&& st.wf()
    &&& st.globals@.len() == merged.len()
    &&& forall|j: int|
        0 <= j < merged.len() ==> ok_global(#[trigger] st.globals@[j], merged[j], merged, j)
    &&& st.prims@.len() == crate::graph::NUM_PRIMS
    &&& forall|p: int|
        0 <= p < crate::graph::NUM_PRIMS ==> (#[trigger] st.prims@[p]).ix == p
    &&& st.heap@.len() == crate::graph::NUM_PRIMS + merged.len()
    &&& forall|j: int|
        0 <= j < merged.len() ==> #[trigger] st.heap@[crate::graph::NUM_PRIMS + j]
            == HNode::SuperCombinator(j as usize)
    &&& st.stack@ == seq![st.globals@[mi].node]
    &&& st.dump@.len() == 0
    &&& st.stats.steps == 0
}

/// Compares a name against a literal.
fn eq_lit(n: &String, lit: &str) -> (r: bool)
    ensures
        r == (n@ == lit@),
{
    let s = String::from_str(lit);
    *n == s
}

/// Compares two names.
fn eq_string(a: &String, b: &String) -> (r: bool)
    ensures
        r == (a@ == b@),
{
    *a == *b
}

/// The primitive operator a name denotes, if any.
fn prim_lookup(n: &String) -> (r: Option<Prim>)
    ensures
        r == prim_of_name(n@),
{
    if eq_lit(n, "|") {
        Some(Prim::Or)
    } else if eq_lit(n, "&") {
        Some(Prim::And)
    } else if eq_lit(n, "==") {
        Some(Prim::Eq)
    } else if eq_lit(n, "!=") {
        Some(Prim::Ne)
    } else if eq_lit(n, ">") {
        Some(Prim::Gt)
    } else if eq_lit(n, ">=") {
        Some(Prim::Ge)
    } else if eq_lit(n, "<") {
        Some(Prim::Lt)
    } else if eq_lit(n, "<=") {
        Some(Prim::Le)
    } else if eq_lit(n, "+") {
        Some(Prim::Add)
    } else if eq_lit(n, "-") {
        Some(Prim::Sub)
    } else if eq_lit(n, "*") {
        Some(Prim::Mul)
    } else if eq_lit(n, "/") {
        Some(Prim::Div)
    } else {
        None
    }
}

/// The position a parameter name binds to: its rightmost occurrence.
fn param_lookup(params: &Vec<String>, n: &String) -> (r: Option<usize>)
    ensures
        ({
            let li = last_param(params@.map_values(|s: String| s@), n@);
            match r {
                Some(i) => li == i as int && i < params@.len(),
                None => li == -1,
            }
        }),
{
    let ghost pv = params@.map_values(|s: String| s@);
    let mut i: usize = params.len();
    while i > 0
        invariant
            i <= params@.len(),
            pv == params@.map_values(|s: String| s@),
            last_param(pv, n@) == last_param_upto(pv, n@, i as int),
        decreases i,
    {
        i = i - 1;
        proof {
            assert(pv[i as int] == params@[i as int]@);
        }
        if eq_string(&params[i], n) {
            return Some(i);
        }
    }
    None
}

/// The table position of a global name: its first occurrence.
fn global_lookup(defs: &Vec<SuperCombinator>, n: &String) -> (r: Option<usize>)
    ensures
        ({
            let gi = find_name(prog_view(defs@), n@);
            match r {
                Some(i) => gi == i as int && i < defs@.len(),
                None => gi == -1,
            }
        }),
{
    let ghost dv = prog_view(defs@);
    let mut i: usize = 0;
    while i < defs.len()
        invariant
            i <= defs@.len(),
            dv == prog_view(defs@),
            find_name(dv, n@) == find_name_from(dv, n@, i as int),
        decreases defs@.len() - i,
    {
        proof {
            assert(dv[i as int] == crate::ast::def_view(defs@[i as int]));
        }
        if eq_string(&defs[i].name, n) {
            return Some(i);
        }
        i = i + 1;
    }
    None
}

/// Inserts one definition into the table under construction, overriding an
/// entry of the same name in place.
fn merge_into(merged: &mut Vec<SuperCombinator>, d: SuperCombinator)
    ensures
        prog_view(final(merged)@) == merge_one(
            prog_view(old(merged)@),
            crate::ast::def_view(d),
        ),
{
    let ghost dv0 = prog_view(old(merged)@);
    let ghost dd = crate::ast::def_view(d);
    let found = global_lookup(merged, &d.name);
    match found {
        Some(i) => {
            merged.set(i, d);
            proof {
                assert(prog_view(merged@) =~= dv0.update(i as int, dd));
            }
        },
        None => {
            merged.push(d);
            proof {
                assert(prog_view(merged@) =~= dv0.push(dd));
            }
        },
    }
}

/// Translates one body expression to a template, classifying each
/// identifier, or fails with the first error in left-to-right order. A
/// successful template mentions only existing parameters and globals.
fn translate(e: &Expr, params: &Vec<String>, defs: &Vec<SuperCombinator>) -> (r: Result<
    Template,
    CompileError,
>)
    ensures
        ({
            let tr = translate_spec(
                expr_view(*e),
                params@.map_values(|s: String| s@),
                prog_view(defs@),
            );
            match r {
                Ok(t) => tr == TransRes::Good(t) && wf_template(
                    t,
                    params@.len() as int,
                    defs@.len() as int,
                ),
                Err(err) => tr == TransRes::Fail(err_view(err)),
            }
        }),
    decreases *e,
{
    match e {
        Expr::Variable(n) => {
            proof {
                assert(expr_view(*e) == ExprV::Var(n@));
            }
            match prim_lookup(n) {
                Some(p) => Ok(Template::Op(p)),
                None => {
                    match param_lookup(params, n) {
                        Some(i) => Ok(Template::Param(i)),
                        None => {
                            match global_lookup(defs, n) {
                                Some(g) => Ok(Template::Global(g)),
                                None => Err(CompileError::UndefinedReference(n.clone())),
                            }
                        },
                    }
                },
            }
        },
        Expr::Number(k) => {
            proof {
                assert(expr_view(*e) == ExprV::Num(*k));
            }
            Ok(Template::Num(*k))
        },
        Expr::Application(a, b) => {
            proof {
                assert(expr_view(*e) == ExprV::App(
                    Box::new(expr_view(**a)),
                    Box::new(expr_view(**b)),
                ));
            }
            match translate(&**a, params, defs) {
                Err(err) => Err(err),
                Ok(ta) => {
                    match translate(&**b, params, defs) {
                        Err(err) => Err(err),
                        Ok(tb) => Ok(Template::App(Box::new(ta), Box::new(tb))),
                    }
                },
            }
        },
        Expr::Constructor { .. } => {
            proof {
                assert(expr_view(*e) == ExprV::Ctor);
            }
            Err(CompileError::UnsupportedConstruct(ConstructKind::Constructor))
        },
        Expr::Let { .. } => {
            proof {
                assert(expr_view(*e) == ExprV::LetE);
            }
            Err(CompileError::UnsupportedConstruct(ConstructKind::Let))
        },
        Expr::Case { .. } => {
            proof {
                assert(expr_view(*e) == ExprV::CaseE);
            }
            Err(CompileError::UnsupportedConstruct(ConstructKind::Case))
        },
        Expr::Lambda { .. } => {
            proof {
                assert(expr_view(*e) == ExprV::LambdaE);
            }
            Err(CompileError::UnsupportedConstruct(ConstructKind::Lambda))
        },
    }
}

/// A compiled two-literal primitive program computes the native operator:
/// on any state compilation built whose entry point's body is a primitive
/// applied to the numbers `a` and `b`, reduction takes two steps --- one
/// to instantiate the entry point, one to compute --- and ends with the
/// entry point's own node holding `prim_val(op, a, b)`; except division
/// by zero, which fails with an arithmetic error after the one
/// instantiation step.
pub proof fn lemma_compiled_primitive_program(
    st: State,
    merged: Seq<DefV>,
    mi: int,
    op: Prim,
    a: i64,
    b: i64,
    budget: nat,
)
    requires
        ok_state(st, merged, mi),
        0 <= mi < merged.len(),
        merged.len() <= usize::MAX,
        merged[mi].params.len() == 0,
        def_trans(merged, mi) == TransRes::Good(
            Template::App(
                Box::new(
                    Template::App(Box::new(Template::Op(op)), Box::new(Template::Num(a))),
                ),
                Box::new(Template::Num(b)),
            ),
        ),
        st@.heap.len() + 4 <= usize::MAX,
        budget >= 2,
    ensures
        ({
            let out = crate::reducer::run_spec(st.gsigs(), st.prims@, st@, budget);
            let root = st.globals@[mi].node;
            if op == Prim::Div && b == 0 {
                &&& out.1 == Err::<NodeBox, crate::reducer::RuntimeError>(
                    crate::reducer::RuntimeError::ArithmeticError,
                )
                &&& out.0.steps == 1
            } else {
                &&& out.1 == Ok::<NodeBox, crate::reducer::RuntimeError>(root)
                &&& out.0.heap[root.ix as int] == HNode::Number(
                    crate::reducer::prim_val(op, a, b),
                )
                &&& out.0.steps == 2
            }
        }),
{
    let g = st.gsigs();
    let prims = st.prims@;
    let m0 = st@;
    let h0 = m0.heap;
    let root = st.globals@[mi].node;
    assert(ok_global(st.globals@[mi], merged[mi], merged, mi));
    assert(g[mi].arity == st.globals@[mi].params@.len());
    assert(g[mi].template == st.globals@[mi].template);
    assert(g[mi].node == root);
    assert(st.globals@[mi].params@.map_values(|s: String| s@).len() == 0);
    assert(g[mi].arity == 0);
    let tpl = Template::App(
        Box::new(Template::App(Box::new(Template::Op(op)), Box::new(Template::Num(a)))),
        Box::new(Template::Num(b)),
    );
    assert(g[mi].template == tpl);
    // the initial spine is the entry point's node alone
    assert(m0.stack.last() == root);
    assert(root.ix == crate::graph::NUM_PRIMS + mi);
    assert(h0[root.ix as int] == HNode::SuperCombinator(mi as usize));
    let sp0 = seq![root];
    assert(crate::graph::is_spine(h0, root, sp0));
    assert(crate::graph::has_spine(h0, root));
    crate::graph::lemma_spine_unique(h0, root, sp0, crate::graph::the_spine(h0, root));
    assert(!crate::reducer::no_work(g, h0, sp0));
    assert(!crate::reducer::final_spec(g, m0));
    // the first step instantiates the entry point's template in place
    let s1 = crate::reducer::step_spec(g, prims, m0);
    let args = crate::reducer::sc_args(h0, sp0, 0);
    let pnode = prims[crate::graph::prim_ix(op)];
    assert(crate::reducer::prim_node_ok(h0, prims, crate::graph::prim_ix(op)));
    assert(crate::graph::prim_of_ix(crate::graph::prim_ix(op)) == op);
    assert(h0[pnode.ix as int] == HNode::PrimitiveFn(op));
    let an = (NodeBox { ix: h0.len() as usize });
    let inner = (NodeBox { ix: (h0.len() + 1) as usize });
    let bn = (NodeBox { ix: (h0.len() + 2) as usize });
    let rt = (NodeBox { ix: (h0.len() + 3) as usize });
    let inst = crate::graph::inst_spec(h0, tpl, args, g, prims);
    assert(crate::graph::inst_spec(h0, Template::Op(op), args, g, prims) == (h0, pnode));
    let h_a = h0.push(HNode::Number(a));
    assert(crate::graph::inst_spec(h0, Template::Num(a), args, g, prims) == (h_a, an));
    let h_b = h_a.push(HNode::Application(pnode, an));
    assert(crate::graph::inst_spec(
        h0,
        Template::App(Box::new(Template::Op(op)), Box::new(Template::Num(a))),
        args,
        g,
        prims,
    ) == (h_b, inner));
    let h_c = h_b.push(HNode::Number(b));
    assert(crate::graph::inst_spec(h_b, Template::Num(b), args, g, prims) == (h_c, bn));
    let h_d = h_c.push(HNode::Application(inner, bn));
    assert(inst == (h_d, rt));
    let h2 = h_d.update(root.ix as int, HNode::Application(inner, bn));
    assert(h_d[rt.ix as int] == HNode::Application(inner, bn));
    assert(s1.0.heap == h2);
    assert(s1.1 == Ok::<(), crate::reducer::RuntimeError>(()));
    assert(s1.0.stack == m0.stack);
    assert(s1.0.dump == m0.dump);
    let m1 = crate::reducer::bump(s1.0);
    assert(m1.steps == 1);
    // the rewritten root now holds the two-literal application, and the
    // second step computes it
    assert(root.ix < h0.len());
    assert(h2[root.ix as int] == HNode::Application(inner, bn));
    assert(h2[inner.ix as int] == HNode::Application(pnode, an));
    assert(h2[an.ix as int] == HNode::Number(a));
    assert(h2[bn.ix as int] == HNode::Number(b));
    assert(h2[pnode.ix as int] == HNode::PrimitiveFn(op));
    crate::reducer::lemma_primitive_application_reduces(
        g,
        prims,
        m1,
        root,
        inner,
        pnode,
        an,
        bn,
        op,
        a,
        b,
        (budget - 1) as nat,
    );
}

/// Compiles a program: checks the user definitions against the reserved
/// symbols, merges the prelude and the program into the global table,
/// translates every body into a template, verifies that `main` exists with
/// zero parameters, and builds the initial machine state rooted at
/// `main`'s canonical node. The result is exactly `compile_outcome` of the
/// program: each error on the inputs that provoke it, and on success a
/// well-formed state whose table matches the merged definitions entry by
/// entry. No reduction is performed.
pub fn compile(program: Program) -> (r: Result<State, CompileError>)
    ensures
        ({
            let user = prog_view(program@);
            match compile_outcome(user) {
                CompileOutcome::Failure(ev) => r matches Err(e) && err_view(e) == ev,
                CompileOutcome::Success(merged, mi) => r matches Ok(st) && ok_state(
                    st,
                    merged,
                    mi,
                ),
            }
        }),
{
    let ghost user = prog_view(program@);
    let mut ci: usize = 0;
    #[verifier::loop_isolation(false)]
    while ci < program.len()
        invariant
            ci <= program@.len(),
            user == prog_view(program@),
            first_collision_from(user, 0) == first_collision_from(user, ci as int),
        decreases program@.len() - ci,
    {
        proof {
            assert(user[ci as int] == crate::ast::def_view(program@[ci as int]));
        }
        match prim_lookup(&program[ci].name) {
            Some(_) => {
                let name = program[ci].name.clone();
                return Err(CompileError::ReservedNameCollision(name));
            },
            None => {},
        }
        ci = ci + 1;
    }
    proof {
        assert(first_collision_from(user, 0) == -1);
    }
    let mut pending: Vec<SuperCombinator> = crate::prelude::prelude();
    let mut user_vec: Vec<SuperCombinator> = program;
    pending.append(&mut user_vec);
    let ghost all = crate::prelude::prelude_view() + user;
    proof {
        assert(prog_view(pending@) =~= all);
    }
    let mut merged: Vec<SuperCombinator> = Vec::new();
    proof {
        assert(prog_view(merged@) =~= Seq::<DefV>::empty());
    }
    #[verifier::loop_isolation(false)]
    while pending.len() > 0
        invariant
            merge_defs(Seq::empty(), all) == merge_defs(
                prog_view(merged@),
                prog_view(pending@),
            ),
        decreases pending@.len(),
    {
        let ghost pend0 = prog_view(pending@);
        let ghost mv0 = prog_view(merged@);
        let d = pending.remove(0);
        proof {
            assert(crate::ast::def_view(d) == pend0[0]);
            assert(prog_view(pending@) =~= pend0.drop_first());
        }
        merge_into(&mut merged, d);
        proof {
            assert(merge_defs(mv0, pend0) == merge_defs(
                merge_one(mv0, pend0[0]),
                pend0.drop_first(),
            ));
        }
    }
    let ghost mseq = merge_defs(Seq::empty(), crate::prelude::prelude_view() + user);
    proof {
        assert(prog_view(pending@) =~= Seq::<DefV>::empty());
        assert(mseq == prog_view(merged@));
    }
    let mut templates: Vec<Template> = Vec::new();
    let mut j: usize = 0;
    #[verifier::loop_isolation(false)]
    while j < merged.len()
        invariant
            j <= merged@.len(),
            mseq == prog_view(merged@),
            templates@.len() == j,
            forall|t: int|
                0 <= t < j ==> def_trans(mseq, t) == TransRes::Good(#[trigger] templates@[t]),
            forall|t: int|
                0 <= t < j ==> wf_template(
                    #[trigger] templates@[t],
                    mseq[t].params.len() as int,
                    mseq.len() as int,
                ),
            first_fail_from(mseq, 0) == first_fail_from(mseq, j as int),
        decreases merged@.len() - j,
    {
        proof {
            assert(mseq[j as int] == crate::ast::def_view(merged@[j as int]));
        }
        let res = translate(&merged[j].value, &merged[j].args, &merged);
        match res {
            Ok(t) => {
                templates.push(t);
            },
            Err(e) => {
                proof {
                    assert(def_trans(mseq, j as int) == TransRes::Fail(err_view(e)));
                    assert(first_fail_from(mseq, j as int) == j as int);
                    assert(compile_outcome(user) == CompileOutcome::Failure(err_view(e)));
                }
                return Err(e);
            },
        }
        j = j + 1;
    }
    let main_s = String::from_str("main");
    let mi: usize = match global_lookup(&merged, &main_s) {
        Some(i) => i,
        None => {
            return Err(CompileError::MissingEntryPoint);
        },
    };
    proof {
        assert(mseq[mi as int] == crate::ast::def_view(merged@[mi as int]));
    }
    if merged[mi].args.len() > 0 {
        return Err(CompileError::MissingEntryPoint);
    }
    let mut heap: Vec<HNode> = Vec::new();
    let mut prims: Vec<NodeBox> = Vec::new();
    heap.push(HNode::PrimitiveFn(Prim::Or));
    prims.push(NodeBox { ix: 0 });
    heap.push(HNode::PrimitiveFn(Prim::And));
    prims.push(NodeBox { ix: 1 });
    heap.push(HNode::PrimitiveFn(Prim::Eq));
    prims.push(NodeBox { ix: 2 });
    heap.push(HNode::PrimitiveFn(Prim::Ne));
    prims.push(NodeBox { ix: 3 });
    heap.push(HNode::PrimitiveFn(Prim::Gt));
    prims.push(NodeBox { ix: 4 });
    heap.push(HNode::PrimitiveFn(Prim::Ge));
    prims.push(NodeBox { ix: 5 });
    heap.push(HNode::PrimitiveFn(Prim::Lt));
    prims.push(NodeBox { ix: 6 });
    heap.push(HNode::PrimitiveFn(Prim::Le));
    prims.push(NodeBox { ix: 7 });
    heap.push(HNode::PrimitiveFn(Prim::Add));
    prims.push(NodeBox { ix: 8 });
    heap.push(HNode::PrimitiveFn(Prim::Sub));
    prims.push(NodeBox { ix: 9 });
    heap.push(HNode::PrimitiveFn(Prim::Mul));
    prims.push(NodeBox { ix: 10 });
    heap.push(HNode::PrimitiveFn(Prim::Div));
    prims.push(NodeBox { ix: 11 });
    proof {
        assert forall|p: int|
            0 <= p < crate::graph::NUM_PRIMS implies heap@[p] == HNode::PrimitiveFn(
            crate::graph::prim_of_ix(p),
        ) by {}
    }
    let mut globals: Vec<GlobalDef> = Vec::new();
    #[verifier::loop_isolation(false)]
    while merged.len() > 0
        invariant
            templates@.len() == merged@.len(),
            globals@.len() + merged@.len() == mseq.len(),
            prog_view(merged@) == mseq.subrange(globals@.len() as int, mseq.len() as int),
            forall|t: int|
                0 <= t < templates@.len() ==> def_trans(mseq, globals@.len() + t)
                    == TransRes::Good(#[trigger] templates@[t]),
            forall|t: int|
                0 <= t < templates@.len() ==> wf_template(
                    #[trigger] templates@[t],
                    mseq[globals@.len() + t].params.len() as int,
                    mseq.len() as int,
                ),
            heap@.len() == crate::graph::NUM_PRIMS + globals@.len(),
            prims@.len() == crate::graph::NUM_PRIMS,
            forall|p: int|
                0 <= p < crate::graph::NUM_PRIMS ==> (#[trigger] prims@[p]).ix == p,
            forall|p: int|
                0 <= p < crate::graph::NUM_PRIMS ==> #[trigger] heap@[p]
                    == HNode::PrimitiveFn(crate::graph::prim_of_ix(p)),
            forall|jj: int|
                0 <= jj < globals@.len() ==> #[trigger] heap@[crate::graph::NUM_PRIMS + jj]
                    == HNode::SuperCombinator(jj as usize),
            forall|jj: int|
                0 <= jj < globals@.len() ==> ok_global(
                    #[trigger] globals@[jj],
                    mseq[jj],
                    mseq,
                    jj,
                ),
        decreases merged@.len(),
    {
        let ghost rest0 = prog_view(merged@);
        let d = merged.remove(0);
        let t = templates.remove(0);
        proof {
            assert(crate::ast::def_view(d) == rest0[0]);
            assert(rest0[0] == mseq[globals@.len() as int]);
            assert(prog_view(merged@) =~= rest0.drop_first());
            assert(prog_view(merged@) =~= mseq.subrange(
                globals@.len() as int + 1,
                mseq.len() as int,
            ));
        }
        let gix = globals.len();
        let node = NodeBox::new(&mut heap, HNode::SuperCombinator(gix));
        globals.push(GlobalDef { name: d.name, params: d.args, template: t, node });
    }
    let mut stack: Vec<NodeBox> = Vec::new();
    proof {
        assert(mi < globals@.len());
        assert(ok_global(globals@[mi as int], mseq[mi as int], mseq, mi as int));
    }
    stack.push(globals[mi].node);
    let st = State {
        heap,
        stack,
        dump: Vec::new(),
        globals,
        prims,
        stats: Stat::new(),
    };
    proof {
        let ng = st.globals@.len() as int;
        assert forall|i: int| 0 <= i < st.heap@.len() implies #[trigger] crate::graph::app_children_ok(
            st.heap@,
            i,
        ) by {
            if i < crate::graph::NUM_PRIMS {
                assert(st.heap@[i] == HNode::PrimitiveFn(crate::graph::prim_of_ix(i)));
            } else {
                let jj = i - crate::graph::NUM_PRIMS;
                assert(st.heap@[crate::graph::NUM_PRIMS + jj] == HNode::SuperCombinator(
                    jj as usize,
                ));
            }
        }
        assert forall|i: int| 0 <= i < st.heap@.len() implies #[trigger] crate::graph::sc_ok(
            st.heap@,
            ng,
            i,
        ) by {
            if i < crate::graph::NUM_PRIMS {
                assert(st.heap@[i] == HNode::PrimitiveFn(crate::graph::prim_of_ix(i)));
            } else {
                let jj = i - crate::graph::NUM_PRIMS;
                assert(st.heap@[crate::graph::NUM_PRIMS + jj] == HNode::SuperCombinator(
                    jj as usize,
                ));
            }
        }
        assert forall|jj: int| 0 <= jj < st.globals@.len() implies crate::reducer::global_ok(
            st.heap@,
            ng,
            #[trigger] st.globals@[jj],
        ) by {
            assert(ok_global(st.globals@[jj], mseq[jj], mseq, jj));
            assert(st.globals@[jj].params@.map_values(|s: String| s@).len()
                == st.globals@[jj].params@.len());
        }
        assert forall|p: int| 0 <= p < crate::graph::NUM_PRIMS implies #[trigger] crate::reducer::prim_node_ok(
            st.heap@,
            st.prims@,
            p,
        ) by {}
        assert(st.wf());
        assert(st.stack@ == seq![st.globals@[mi as int].node]);
        assert(st@.dump =~= Seq::<Seq<NodeBox>>::empty());
        assert(ok_state(st, mseq, mi as int));
        assert(compile_outcome(user) == CompileOutcome::Success(mseq, mi as int));
    }
    Ok(st)
}

} // verus!
