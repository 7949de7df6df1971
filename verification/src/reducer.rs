//! The reducer: a spine-stack/dump state machine performing normal-order
//! graph reduction with update-in-place sharing.
//!
//! A step unwinds the spine of the stack's top node, and acts on the head:
//! a saturated combinator call instantiates its template and overwrites the
//! call's root node in place; a primitive with two numeric arguments is
//! computed and its root overwritten; a primitive with an unevaluated
//! argument suspends the current stack on the dump and reduces the argument
//! first; a value resumes the most recently suspended stack, or ends the
//! reduction.

use crate::graph::app_children_ok;
use crate::graph::app_left;
use crate::graph::app_right;
use crate::graph::apps_closed;
use crate::graph::gview;
use crate::graph::has_spine;
use crate::graph::inst_spec;
use crate::graph::instantiate;
use crate::graph::is_spine;
use crate::graph::lemma_inst_props;
use crate::graph::lemma_spine_unique;
use crate::graph::prim_of_ix;
use crate::graph::sc_ok;
use crate::graph::scs_closed;
use crate::graph::spine_link;
use crate::graph::the_spine;
use crate::graph::unwind;
use crate::graph::wf_template;
use crate::graph::Template;
use crate::graph::GlobalDef;
use crate::graph::GlobalSig;
use crate::graph::HNode;
use crate::graph::NodeBox;
use crate::graph::Prim;
use crate::graph::NUM_PRIMS;
use vstd::prelude::*;

verus! {

/// The ways a reduction can fail.
#[derive(Clone, Copy, Debug, PartialEq, Eq, Structural)]
pub enum RuntimeError {
    /// A value stood in function position with arguments applied to it.
    RuntimeTypeError,
    /// Division by zero.
    ArithmeticError,
    /// The caller's step budget ran out, or the machine stood on a graph
    /// whose spine revisits a node and so can never reach a head.
    Divergence,
}

/// Statistics about an evaluation.
#[derive(Debug)]
pub struct Stat {
    pub steps: i64,
}

impl Stat {
    pub fn new() -> (r: Stat)
        ensures
            r.steps == 0,
    {
        Stat { steps: 0 }
    }

    /// How many reduction steps have been taken. Saturates at the largest
    /// representable count.
    pub fn steps(&self) -> (r: i64)
        ensures
            r == self.steps,
    {
        self.steps
    }
}

/// The mutable part of a machine state, as mathematical values.
pub ghost struct MView {
    pub heap: Seq<HNode>,
    pub stack: Seq<NodeBox>,
    pub dump: Seq<Seq<NodeBox>>,
    pub steps: int,
}

/// The machine: a heap arena of graph nodes, the spine stack, the dump of
/// suspended stacks, the read-only global table with its canonical nodes,
/// and statistics.
#[derive(Debug)]
pub struct State {
    pub heap: Vec<HNode>,
    pub stack: Vec<NodeBox>,
    pub dump: Vec<Vec<NodeBox>>,
    pub globals: Vec<GlobalDef>,
    pub prims: Vec<NodeBox>,
    pub stats: Stat,
}

impl View for State {
    type V = MView;

    open spec fn view(&self) -> MView {
        MView {
            heap: self.heap@,
            stack: self.stack@,
            dump: self.dump@.map_values(|v: Vec<NodeBox>| v@),
            steps: self.stats.steps as int,
        }
    }
}

/// A stack is never empty and points into the heap.
pub open spec fn stack_ok(h: Seq<HNode>, s: Seq<NodeBox>) -> bool {
    &&& s.len() >= 1
    &&& forall|i: int| 0 <= i < s.len() ==> (#[trigger] s[i]).ix < h.len()
}

/// One global table entry is well formed with respect to the machine.
pub open spec fn global_ok(h: Seq<HNode>, ng: int, d: GlobalDef) -> bool {
    &&& wf_template(d.template, d.params@.len() as int, ng)
    &&& d.node.ix < h.len()
}

/// One canonical primitive node holds its operator.
pub open spec fn prim_node_ok(h: Seq<HNode>, prims: Seq<NodeBox>, p: int) -> bool {
    &&& prims[p].ix < h.len()
    &&& h[prims[p].ix as int] == HNode::PrimitiveFn(prim_of_ix(p))
}

impl State {
    /// The semantic signature of the global table.
    pub open spec fn gsigs(&self) -> Seq<GlobalSig> {
        gview(self.globals@)
    }

    /// Well-formedness: every handle in the stack, the dump, the heap's own
    /// edges and the global table stays inside the heap; templates mention
    /// only existing parameters and globals; the canonical primitive nodes
    /// hold their operators. Established by the compiler and preserved by
    /// every step.
    pub open spec fn wf(&self) -> bool {
        &&& stack_ok(self.heap@, self.stack@)
        &&& forall|d: int|
            0 <= d < self.dump@.len() ==> stack_ok(self.heap@, (#[trigger] self.dump@[d])@)
        &&& apps_closed(self.heap@)
        &&& scs_closed(self.heap@, self.globals@.len() as int)
        &&& forall|j: int|
            0 <= j < self.globals@.len() ==> global_ok(
                self.heap@,
                self.globals@.len() as int,
                #[trigger] self.globals@[j],
            )
        &&& self.prims@.len() == NUM_PRIMS
        &&& forall|p: int| 0 <= p < NUM_PRIMS ==> #[trigger] prim_node_ok(self.heap@, self.prims@, p)
    }
}

/// Truncating division of the magnitudes, signed by the operands: the
/// quotient Rust's `/` computes.
pub open spec fn tdiv(a: int, b: int) -> int {
    let q: int = vstd::math::abs(a) as int / vstd::math::abs(b) as int;
    if (a < 0) != (b < 0) {
        -q
    } else {
        q
    }
}

/// Division as the machine performs it: truncating, wrapping on the one
/// overflowing case (the smallest number divided by minus one).
pub open spec fn wrap_div(a: i64, b: i64) -> i64 {
    if a == i64::MIN && b == -1 {
        i64::MIN
    } else {
        tdiv(a as int, b as int) as i64
    }
}

/// What each primitive operator computes on two numbers. Comparisons
/// produce the integers zero and one; addition, subtraction and
/// multiplication wrap around on overflow.
pub open spec fn prim_val(p: Prim, a: i64, b: i64) -> i64 {
    match p {
        Prim::Or => a | b,
        Prim::And => a & b,
        Prim::Eq => if a == b {
            1
        } else {
            0
        },
        Prim::Ne => if a != b {
            1
        } else {
            0
        },
        Prim::Gt => if a > b {
            1
        } else {
            0
        },
        Prim::Ge => if a >= b {
            1
        } else {
            0
        },
        Prim::Lt => if a < b {
            1
        } else {
            0
        },
        Prim::Le => if a <= b {
            1
        } else {
            0
        },
        Prim::Add => vstd::wrapping::i64_specs::wrapping_add(a, b),
        Prim::Sub => vstd::wrapping::i64_specs::wrapping_sub(a, b),
        Prim::Mul => vstd::wrapping::i64_specs::wrapping_mul(a, b),
        Prim::Div => wrap_div(a, b),
    }
}

/// The argument nodes of a saturated call: the right children of the `k`
/// application nodes above the head, nearest first, so parameters bind
/// positionally left to right. The nodes are shared, not copied: binding
/// is lazy and duplicate parameter uses observe one evaluation.
pub open spec fn sc_args(h: Seq<HNode>, sp: Seq<NodeBox>, k: nat) -> Seq<NodeBox> {
    Seq::new(k, |i: int| app_right(h[sp[sp.len() - 2 - i].ix as int]))
}

/// Suspending the current stack on the dump to reduce `arg` alone.
pub open spec fn suspend_spec(m: MView, arg: NodeBox) -> MView {
    MView { heap: m.heap, stack: seq![arg], dump: m.dump.push(m.stack), steps: m.steps }
}

/// Resuming the most recently suspended stack, if any.
pub open spec fn resume_spec(m: MView) -> MView {
    if m.dump.len() > 0 {
        MView { heap: m.heap, stack: m.dump.last(), dump: m.dump.drop_last(), steps: m.steps }
    } else {
        m
    }
}

/// One reduction step, as a function of the machine state: what the new
/// state is and whether the step failed. The case is decided by the head
/// of the spine of the stack's top node, exactly as `State::step` performs
/// it.
pub open spec fn step_spec(g: Seq<GlobalSig>, prims: Seq<NodeBox>, m: MView) -> (
    MView,
    Result<(), RuntimeError>,
) {
    let top = m.stack.last();
    if !has_spine(m.heap, top) {
        (m, Err(RuntimeError::Divergence))
    } else {
        let sp = the_spine(m.heap, top);
        match m.heap[sp.last().ix as int] {
            HNode::SuperCombinator(j) => {
                let k = g[j as int].arity;
                if k < sp.len() {
                    let redex = sp[sp.len() - 1 - k];
                    let inst = inst_spec(
                        m.heap,
                        g[j as int].template,
                        sc_args(m.heap, sp, k),
                        g,
                        prims,
                    );
                    (
                        MView {
                            heap: inst.0.update(redex.ix as int, inst.0[inst.1.ix as int]),
                            stack: m.stack,
                            dump: m.dump,
                            steps: m.steps,
                        },
                        Ok(()),
                    )
                } else {
                    (resume_spec(m), Ok(()))
                }
            },
            HNode::PrimitiveFn(p) => {
                if sp.len() >= 3 {
                    let a1 = app_right(m.heap[sp[sp.len() - 2].ix as int]);
                    let a2 = app_right(m.heap[sp[sp.len() - 3].ix as int]);
                    match (m.heap[a1.ix as int], m.heap[a2.ix as int]) {
                        (HNode::Number(x), HNode::Number(y)) => {
                            if p == Prim::Div && y == 0 {
                                (m, Err(RuntimeError::ArithmeticError))
                            } else {
                                let redex = sp[sp.len() - 3];
                                (
                                    MView {
                                        heap: m.heap.update(
                                            redex.ix as int,
                                            HNode::Number(prim_val(p, x, y)),
                                        ),
                                        stack: m.stack,
                                        dump: m.dump,
                                        steps: m.steps,
                                    },
                                    Ok(()),
                                )
                            }
                        },
                        (HNode::Number(_), _) => (suspend_spec(m, a2), Ok(())),
                        (_, _) => (suspend_spec(m, a1), Ok(())),
                    }
                } else {
                    (resume_spec(m), Ok(()))
                }
            },
            HNode::Number(_) => {
                if sp.len() >= 2 {
                    (m, Err(RuntimeError::RuntimeTypeError))
                } else {
                    (resume_spec(m), Ok(()))
                }
            },
            HNode::Application(_, _) => (m, Ok(())),
        }
    }
}

/// The head holds a value and no reduction applies to this spine: a
/// combinator with too few arguments, a primitive with fewer than two, or
/// a plain number.
pub open spec fn no_work(g: Seq<GlobalSig>, h: Seq<HNode>, sp: Seq<NodeBox>) -> bool {
    match h[sp.last().ix as int] {
        HNode::SuperCombinator(j) => sp.len() <= g[j as int].arity,
        HNode::PrimitiveFn(_) => sp.len() <= 2,
        HNode::Number(_) => sp.len() == 1,
        HNode::Application(_, _) => false,
    }
}

/// No further step exists: the dump holds no suspended context and the
/// spine of the stack's top ends at once in a head value with no
/// outstanding work.
pub open spec fn final_spec(g: Seq<GlobalSig>, m: MView) -> bool {
    &&& m.dump.len() == 0
    &&& has_spine(m.heap, m.stack.last())
    &&& no_work(g, m.heap, the_spine(m.heap, m.stack.last()))
}

/// Truncating division on machine integers, built from unsigned division
/// of the magnitudes.
fn div_trunc(a: i64, b: i64) -> (r: i64)
    requires
        b != 0,
    ensures
        r == wrap_div(a, b),
{
    if a == i64::MIN && b == -1 {
        return i64::MIN;
    }
    let neg: bool = (a < 0) != (b < 0);
    let ua: u64 = if a == i64::MIN {
        9223372036854775808
    } else if a < 0 {
        (-a) as u64
    } else {
        a as u64
    };
    let ub: u64 = if b == i64::MIN {
        9223372036854775808
    } else if b < 0 {
        (-b) as u64
    } else {
        b as u64
    };
    proof {
        assert(ua as int == vstd::math::abs(a as int));
        assert(ub as int == vstd::math::abs(b as int));
    }
    let q: u64 = ua / ub;
    proof {
        vstd::arithmetic::div_mod::lemma_div_is_ordered_by_denominator(ua as int, 1, ub as int);
        assert(ua as int / 1 == ua as int);
    }
    if neg {
        if q >= 9223372036854775808 {
            proof {
                assert(q == 9223372036854775808);
                assert(tdiv(a as int, b as int) == -9223372036854775808);
            }
            i64::MIN
        } else {
            -(q as i64)
        }
    } else {
        proof {
            if ua == 9223372036854775808 {
                assert(ub >= 2);
                vstd::arithmetic::div_mod::lemma_div_is_ordered_by_denominator(
                    ua as int,
                    2,
                    ub as int,
                );
                assert(9223372036854775808int / 2 == 4611686018427387904int);
            }
        }
        q as i64
    }
}

/// Computes one primitive operator on two evaluated arguments. Division by
/// zero is ruled out by the caller, which reports it as an arithmetic
/// error instead.
pub fn calculate_primitve(operator: Prim, a: i64, b: i64) -> (r: i64)
    requires
        operator == Prim::Div ==> b != 0,
    ensures
        r == prim_val(operator, a, b),
{
    match operator {
        Prim::Or => a | b,
        Prim::And => a & b,
        Prim::Eq => if a == b {
            1
        } else {
            0
        },
        Prim::Ne => if a != b {
            1
        } else {
            0
        },
        Prim::Gt => if a > b {
            1
        } else {
            0
        },
        Prim::Ge => if a >= b {
            1
        } else {
            0
        },
        Prim::Lt => if a < b {
            1
        } else {
            0
        },
        Prim::Le => if a <= b {
            1
        } else {
            0
        },
        Prim::Add => a.wrapping_add(b),
        Prim::Sub => a.wrapping_sub(b),
        Prim::Mul => a.wrapping_mul(b),
        Prim::Div => div_trunc(a, b),
    }
}

impl State {
    /// Pushes the current stack onto the dump and starts a fresh stack
    /// holding `arg` alone, so the argument is reduced before the
    /// suspended context is retried.
    fn suspend(&mut self, arg: NodeBox)
        requires
            old(self).wf(),
            arg.ix < old(self).heap@.len(),
        ensures
            final(self).wf(),
            final(self)@ == suspend_spec(old(self)@, arg),
            final(self).globals == old(self).globals,
            final(self).prims == old(self).prims,
            final(self).stats == old(self).stats,
    {
        let mut fresh: Vec<NodeBox> = Vec::new();
        fresh.push(arg);
        core::mem::swap(&mut self.stack, &mut fresh);
        self.dump.push(fresh);
        proof {
            let f = |v: Vec<NodeBox>| v@;
            assert(self.dump@.map_values(f) =~= old(self).dump@.map_values(f).push(
                old(self).stack@,
            ));
            assert(self@.stack =~= seq![arg]);
        }
    }

    /// Pops the most recently suspended stack, if any, back into place.
    fn resume_or_stay(&mut self)
        requires
            old(self).wf(),
        ensures
            final(self).wf(),
            final(self)@ == resume_spec(old(self)@),
            final(self).globals == old(self).globals,
            final(self).prims == old(self).prims,
            final(self).stats == old(self).stats,
    {
        if self.dump.len() > 0 {
            match self.dump.pop() {
                Some(s) => {
                    self.stack = s;
                },
                None => {},
            }
            proof {
                let f = |v: Vec<NodeBox>| v@;
                assert(self.dump@.map_values(f) =~= old(self).dump@.map_values(f).drop_last());
                assert(old(self).dump@.map_values(f).last() == old(self).dump@.last()@);
            }
        }
    }

    /// Performs one reduction step, or reports the error the machine ran
    /// into. The new state and the outcome are exactly `step_spec` of the
    /// old state.
    pub fn step(&mut self) -> (r: Result<(), RuntimeError>)
        requires
            old(self).wf(),
        ensures
            final(self).wf(),
            final(self).globals == old(self).globals,
            final(self).prims == old(self).prims,
            final(self).stats == old(self).stats,
            final(self)@ == step_spec(old(self).gsigs(), old(self).prims@, old(self)@).0,
            r == step_spec(old(self).gsigs(), old(self).prims@, old(self)@).1,
    {
        let ghost g = self.gsigs();
        let ghost ng = self.globals@.len() as int;
        let ghost m0 = self@;
        let nstack: usize = self.stack.len();
        let top = self.stack[nstack - 1];
        let sp = match unwind(&self.heap, top) {
            None => {
                return Err(RuntimeError::Divergence);
            },
            Some(sp) => sp,
        };
        proof {
            assert(has_spine(self.heap@, top));
            lemma_spine_unique(self.heap@, top, sp@, the_spine(self.heap@, top));
        }
        let n: usize = sp.len();
        let head = sp[n - 1];
        match self.heap[head.ix] {
            HNode::SuperCombinator(j) => {
                proof {
                    assert(sc_ok(self.heap@, ng, head.ix as int));
                    assert(g[j as int].arity == self.globals@[j as int].params@.len());
                    assert(g[j as int].template == self.globals@[j as int].template);
                    assert(global_ok(self.heap@, ng, self.globals@[j as int]));
                }
                let k: usize = self.globals[j].params.len();
                if k < n {
                    let redex = sp[n - 1 - k];
                    let mut args: Vec<NodeBox> = Vec::new();
                    let mut i: usize = 0;
                    while i < k
                        invariant
                            i <= k,
                            k < n,
                            n == sp@.len(),
                            args@.len() == i,
                            self.wf(),
                            is_spine(self.heap@, top, sp@),
                            forall|t: int|
                                0 <= t < i ==> args@[t] == sc_args(self.heap@, sp@, k as nat)[t],
                        decreases k - i,
                    {
                        let app = sp[n - 2 - i];
                        proof {
                            assert(spine_link(self.heap@, sp@, n - 2 - i));
                        }
                        match self.heap[app.ix] {
                            HNode::Application(_, rr) => {
                                args.push(rr);
                            },
                            _ => {
                                proof {
                                    assert(false);
                                }
                                args.push(NodeBox { ix: 0 });
                            },
                        }
                        i = i + 1;
                    }
                    proof {
                        assert(args@ =~= sc_args(self.heap@, sp@, k as nat));
                        assert forall|t: int| 0 <= t < args@.len() implies (#[trigger] args@[t]).ix
                            < self.heap@.len() by {
                            assert(spine_link(self.heap@, sp@, n - 2 - t));
                            assert(app_children_ok(self.heap@, sp@[n - 2 - t].ix as int));
                        }
                        assert forall|j2: int| 0 <= j2 < g.len() implies (#[trigger] g[j2]).node.ix
                            < self.heap@.len() by {
                            assert(global_ok(self.heap@, ng, self.globals@[j2]));
                            assert(g[j2].node == self.globals@[j2].node);
                        }
                        assert forall|p: int| 0 <= p < self.prims@.len() implies (
                        #[trigger] self.prims@[p]).ix < self.heap@.len() by {
                            assert(prim_node_ok(self.heap@, self.prims@, p));
                        }
                        lemma_inst_props(
                            self.heap@,
                            g[j as int].template,
                            args@,
                            g,
                            self.prims@,
                            ng,
                        );
                    }
                    let ghost h0 = self.heap@;
                    let ghost inst = inst_spec(h0, g[j as int].template, args@, g, self.prims@);
                    let tref: &Template = &self.globals[j].template;
                    let r = instantiate(&mut self.heap, tref, &args, &self.globals, &self.prims);
                    proof {
                        assert(self.heap@ == inst.0);
                        assert(r == inst.1);
                    }
                    proof {
                        if k >= 1 {
                            assert(spine_link(h0, sp@, n - 1 - k));
                        }
                        assert(redex.ix < h0.len());
                    }
                    let content = self.heap[r.ix];
                    self.heap.set(redex.ix, content);
                    proof {
                        let h2 = self.heap@;
                        assert(h2 == inst.0.update(redex.ix as int, inst.0[inst.1.ix as int]));
                        // the redex root held an application (or, for an
                        // arity-zero call, the combinator reference itself),
                        // so overwriting it cannot touch a canonical
                        // primitive node
                        if k >= 1 {
                            assert(spine_link(h0, sp@, n - 1 - k));
                        }
                        assert forall|i2: int| 0 <= i2 < h2.len() implies #[trigger] app_children_ok(
                            h2,
                            i2,
                        ) by {
                            assert(app_children_ok(inst.0, i2));
                            if i2 != redex.ix {
                            } else {
                                assert(app_children_ok(inst.0, inst.1.ix as int));
                            }
                        }
                        assert forall|i2: int| 0 <= i2 < h2.len() implies #[trigger] sc_ok(
                            h2,
                            ng,
                            i2,
                        ) by {
                            assert(sc_ok(inst.0, ng, i2));
                            assert(sc_ok(inst.0, ng, inst.1.ix as int));
                        }
                        assert forall|j2: int| 0 <= j2 < self.globals@.len() implies global_ok(
                            h2,
                            ng,
                            #[trigger] self.globals@[j2],
                        ) by {
                            assert(global_ok(h0, ng, self.globals@[j2]));
                        }
                        assert forall|p: int| 0 <= p < NUM_PRIMS implies #[trigger] prim_node_ok(
                            h2,
                            self.prims@,
                            p,
                        ) by {
                            assert(prim_node_ok(h0, self.prims@, p));
                            let pix = self.prims@[p].ix as int;
                            assert(inst.0[pix] == inst.0.subrange(0, h0.len() as int)[pix]);
                            assert(inst.0[pix] == h0[pix]);
                            assert(h0[redex.ix as int] != h0[pix]);
                        }
                        assert(self@ == step_spec(g, self.prims@, m0).0);
                    }
                    Ok(())
                } else {
                    self.resume_or_stay();
                    Ok(())
                }
            },
            HNode::PrimitiveFn(p) => {
                if n >= 3 {
                    let app1 = sp[n - 2];
                    let app2 = sp[n - 3];
                    proof {
                        assert(spine_link(self.heap@, sp@, n - 2));
                        assert(spine_link(self.heap@, sp@, n - 3));
                        assert(app_children_ok(self.heap@, app1.ix as int));
                        assert(app_children_ok(self.heap@, app2.ix as int));
                    }
                    let a1 = match self.heap[app1.ix] {
                        HNode::Application(_, rr) => rr,
                        _ => {
                            proof {
                                assert(false);
                            }
                            NodeBox { ix: 0 }
                        },
                    };
                    let a2 = match self.heap[app2.ix] {
                        HNode::Application(_, rr) => rr,
                        _ => {
                            proof {
                                assert(false);
                            }
                            NodeBox { ix: 0 }
                        },
                    };
                    match self.heap[a1.ix] {
                        HNode::Number(x) => {
                            match self.heap[a2.ix] {
                                HNode::Number(y) => {
                                    if matches!(p, Prim::Div) && y == 0 {
                                        return Err(RuntimeError::ArithmeticError);
                                    }
                                    let v = calculate_primitve(p, x, y);
                                    self.heap.set(app2.ix, HNode::Number(v));
                                    proof {
                                        let h0 = m0.heap;
                                        let h2 = self.heap@;
                                        assert forall|i2: int|
                                            0 <= i2 < h2.len() implies #[trigger] app_children_ok(
                                            h2,
                                            i2,
                                        ) by {
                                            assert(app_children_ok(h0, i2));
                                        }
                                        assert forall|i2: int| 0 <= i2 < h2.len() implies #[trigger] sc_ok(
                                            h2,
                                            ng,
                                            i2,
                                        ) by {
                                            assert(sc_ok(h0, ng, i2));
                                        }
                                        assert forall|j2: int|
                                            0 <= j2 < self.globals@.len() implies global_ok(
                                            h2,
                                            ng,
                                            #[trigger] self.globals@[j2],
                                        ) by {
                                            assert(global_ok(h0, ng, self.globals@[j2]));
                                        }
                                        assert forall|p2: int|
                                            0 <= p2 < NUM_PRIMS implies #[trigger] prim_node_ok(
                                            h2,
                                            self.prims@,
                                            p2,
                                        ) by {
                                            assert(prim_node_ok(h0, self.prims@, p2));
                                            assert(h0[app2.ix as int] != h0[self.prims@[p2].ix as int]);
                                        }
                                        assert(self@ == step_spec(g, self.prims@, m0).0);
                                    }
                                    Ok(())
                                },
                                _ => {
                                    self.suspend(a2);
                                    Ok(())
                                },
                            }
                        },
                        _ => {
                            self.suspend(a1);
                            Ok(())
                        },
                    }
                } else {
                    self.resume_or_stay();
                    Ok(())
                }
            },
            HNode::Number(_) => {
                if n >= 2 {
                    Err(RuntimeError::RuntimeTypeError)
                } else {
                    self.resume_or_stay();
                    Ok(())
                }
            },
            HNode::Application(_, _) => {
                proof {
                    assert(false);
                }
                Ok(())
            },
        }
    }

    /// Whether the machine is final: no suspended context remains and the
    /// spine of the stack's top ends at once in a head value with no
    /// outstanding work.
    pub fn is_final(&self) -> (r: bool)
        requires
            self.wf(),
        ensures
            r == final_spec(self.gsigs(), self@),
    {
        if self.dump.len() > 0 {
            return false;
        }
        let nstack: usize = self.stack.len();
        let top = self.stack[nstack - 1];
        match unwind(&self.heap, top) {
            None => false,
            Some(sp) => {
                proof {
                    assert(has_spine(self.heap@, top));
                    lemma_spine_unique(self.heap@, top, sp@, the_spine(self.heap@, top));
                }
                let n: usize = sp.len();
                match self.heap[sp[n - 1].ix] {
                    HNode::SuperCombinator(j) => {
                        proof {
                            assert(sc_ok(self.heap@, self.globals@.len() as int, sp@[n - 1].ix as int));
                            assert(self.gsigs()[j as int].arity
                                == self.globals@[j as int].params@.len());
                        }
                        let k: usize = self.globals[j].params.len();
                        n <= k
                    },
                    HNode::PrimitiveFn(_) => n <= 2,
                    HNode::Number(_) => n == 1,
                    HNode::Application(_, _) => {
                        proof {
                            assert(false);
                        }
                        false
                    },
                }
            },
        }
    }

    /// Whether a further step exists: the negation of `is_final`.
    pub fn is_steppable(&self) -> (r: bool)
        requires
            self.wf(),
        ensures
            r == !final_spec(self.gsigs(), self@),
    {
        !self.is_final()
    }
}

/// One successful step counted, saturating at the largest representable
/// count.
pub open spec fn bump(m: MView) -> MView {
    MView {
        heap: m.heap,
        stack: m.stack,
        dump: m.dump,
        steps: if m.steps < i64::MAX {
            m.steps + 1
        } else {
            m.steps
        },
    }
}

/// Running the machine: step until final, counting each successful step,
/// propagating the first error, and giving up with `Divergence` when
/// `budget` steps were not enough. On a final state the result is the
/// stack's top node, untouched.
pub open spec fn run_spec(g: Seq<GlobalSig>, prims: Seq<NodeBox>, m: MView, budget: nat) -> (
    MView,
    Result<NodeBox, RuntimeError>,
)
    decreases budget,
{
    if final_spec(g, m) {
        (m, Ok(m.stack.last()))
    } else if budget == 0 {
        (m, Err(RuntimeError::Divergence))
    } else {
        let s = step_spec(g, prims, m);
        match s.1 {
            Ok(_) => run_spec(g, prims, bump(s.0), (budget - 1) as nat),
            Err(e) => (s.0, Err(e)),
        }
    }
}

/// Well-formedness of a machine view against a global table: every handle
/// in the stack, the dump, the heap's own edges and the table stays
/// inside the heap, and templates mention only existing parameters and
/// globals. A well-formed `State` satisfies this of its view.
pub open spec fn mwf(g: Seq<GlobalSig>, prims: Seq<NodeBox>, m: MView) -> bool {
    &&& stack_ok(m.heap, m.stack)
    &&& forall|d: int| 0 <= d < m.dump.len() ==> stack_ok(m.heap, #[trigger] m.dump[d])
    &&& apps_closed(m.heap)
    &&& scs_closed(m.heap, g.len() as int)
    &&& forall|j: int|
        0 <= j < g.len() ==> wf_template(
            (#[trigger] g[j]).template,
            g[j].arity as int,
            g.len() as int,
        ) && g[j].node.ix < m.heap.len()
    &&& prims.len() == NUM_PRIMS
    &&& forall|p: int| 0 <= p < NUM_PRIMS ==> (#[trigger] prims[p]).ix < m.heap.len()
}

/// A well-formed state is well formed as a view.
pub proof fn lemma_wf_view(st: State)
    requires
        st.wf(),
    ensures
        mwf(st.gsigs(), st.prims@, st@),
{
    let g = st.gsigs();
    assert forall|j: int| 0 <= j < g.len() implies wf_template(
        (#[trigger] g[j]).template,
        g[j].arity as int,
        g.len() as int,
    ) && g[j].node.ix < st@.heap.len() by {
        assert(global_ok(st.heap@, st.globals@.len() as int, st.globals@[j]));
    }
    assert forall|p: int| 0 <= p < NUM_PRIMS implies (#[trigger] st.prims@[p]).ix
        < st@.heap.len() by {
        assert(prim_node_ok(st.heap@, st.prims@, p));
    }
}

/// All nodes of `h` except the one at `r` keep their content in `h2`.
pub open spec fn only_changed_at(h: Seq<HNode>, h2: Seq<HNode>, r: int) -> bool {
    forall|i: int| 0 <= i < h.len() && i != r ==> h2[i] == h[i]
}

/// Update in place: a successful step never moves a node. The heap only
/// grows, and at most one existing node — the root of the reduced call —
/// has its content overwritten, so every handle into the graph stays
/// valid and observes the reduced value through the same slot without
/// recomputation.
pub proof fn lemma_step_updates_in_place(g: Seq<GlobalSig>, prims: Seq<NodeBox>, m: MView)
    requires
        mwf(g, prims, m),
        step_spec(g, prims, m).1 is Ok,
    ensures
        ({
            let h2 = step_spec(g, prims, m).0.heap;
            &&& h2.len() >= m.heap.len()
            &&& exists|r: int| 0 <= r < m.heap.len() && #[trigger] only_changed_at(m.heap, h2, r)
        }),
{
    let h = m.heap;
    let top = m.stack.last();
    assert(m.stack[m.stack.len() - 1].ix < h.len());
    let h2 = step_spec(g, prims, m).0.heap;
    if !has_spine(h, top) {
        assert(false);
    } else {
        let sp = the_spine(h, top);
        assert(is_spine(h, top, sp));
        let head = sp.last();
        match h[head.ix as int] {
            HNode::SuperCombinator(j) => {
                assert(sc_ok(h, g.len() as int, head.ix as int));
                let k = g[j as int].arity;
                if k < sp.len() {
                    let args = sc_args(h, sp, k);
                    assert forall|i: int| 0 <= i < args.len() implies (#[trigger] args[i]).ix
                        < h.len() by {
                        assert(spine_link(h, sp, sp.len() - 2 - i));
                        assert(app_children_ok(h, sp[sp.len() - 2 - i].ix as int));
                    }
                    lemma_inst_props(h, g[j as int].template, args, g, prims, g.len() as int);
                    let inst = inst_spec(h, g[j as int].template, args, g, prims);
                    let redex = sp[sp.len() - 1 - k];
                    if k >= 1 {
                        assert(spine_link(h, sp, sp.len() - 1 - k));
                    }
                    assert(redex.ix < h.len());
                    assert forall|i: int| 0 <= i < h.len() && i != redex.ix implies h2[i] == h[i] by {
                        assert(inst.0[i] == inst.0.subrange(0, h.len() as int)[i]);
                    }
                    assert(only_changed_at(h, h2, redex.ix as int));
                } else {
                    assert(h2 == h);
                    assert(only_changed_at(h, h2, 0));
                }
            },
            HNode::PrimitiveFn(p) => {
                if sp.len() >= 3 {
                    let a1 = app_right(h[sp[sp.len() - 2].ix as int]);
                    let a2 = app_right(h[sp[sp.len() - 3].ix as int]);
                    assert(spine_link(h, sp, sp.len() - 2));
                    assert(spine_link(h, sp, sp.len() - 3));
                    assert(app_children_ok(h, sp[sp.len() - 2].ix as int));
                    assert(app_children_ok(h, sp[sp.len() - 3].ix as int));
                    match (h[a1.ix as int], h[a2.ix as int]) {
                        (HNode::Number(x), HNode::Number(y)) => {
                            let redex = sp[sp.len() - 3];
                            assert(only_changed_at(h, h2, redex.ix as int));
                        },
                        _ => {
                            assert(h2 == h);
                            assert(only_changed_at(h, h2, 0));
                        },
                    }
                } else {
                    assert(h2 == h);
                    assert(only_changed_at(h, h2, 0));
                }
            },
            _ => {
                assert(h2 == h);
                assert(only_changed_at(h, h2, 0));
            },
        }
    }
}

/// Determinism: the outcome of a reduction — final state, step count and
/// result — is a function of the starting state, the global table and the
/// budget alone, so two reductions of the same program agree in every
/// observable.
pub proof fn lemma_reduce_deterministic(
    g: Seq<GlobalSig>,
    prims: Seq<NodeBox>,
    m1: MView,
    m2: MView,
    budget: nat,
)
    requires
        m1 == m2,
    ensures
        run_spec(g, prims, m1, budget) == run_spec(g, prims, m2, budget),
{
}

/// Primitive applications compute the native operator: on a machine whose
/// top node is the two-literal application of a primitive to the numbers
/// `a` and `b`, with no suspended context, one step computes
/// `prim_val(op, a, b)` into the root node in place and the machine is
/// final, the root being the result — except division by zero, which
/// fails with an arithmetic error and leaves the machine untouched.
pub proof fn lemma_primitive_application_reduces(
    g: Seq<GlobalSig>,
    prims: Seq<NodeBox>,
    m: MView,
    root: NodeBox,
    inner: NodeBox,
    pn: NodeBox,
    an: NodeBox,
    bn: NodeBox,
    op: Prim,
    a: i64,
    b: i64,
    budget: nat,
)
    requires
        m.dump.len() == 0,
        m.stack.len() >= 1,
        m.stack.last() == root,
        root.ix < m.heap.len(),
        inner.ix < m.heap.len(),
        pn.ix < m.heap.len(),
        an.ix < m.heap.len(),
        bn.ix < m.heap.len(),
        m.heap[root.ix as int] == HNode::Application(inner, bn),
        m.heap[inner.ix as int] == HNode::Application(pn, an),
        m.heap[pn.ix as int] == HNode::PrimitiveFn(op),
        m.heap[an.ix as int] == HNode::Number(a),
        m.heap[bn.ix as int] == HNode::Number(b),
        budget >= 1,
    ensures
        ({
            let out = run_spec(g, prims, m, budget);
            if op == Prim::Div && b == 0 {
                out.1 == Err::<NodeBox, RuntimeError>(RuntimeError::ArithmeticError) && out.0
                    == m
            } else {
                &&& out.1 == Ok::<NodeBox, RuntimeError>(root)
                &&& out.0.heap == m.heap.update(
                    root.ix as int,
                    HNode::Number(prim_val(op, a, b)),
                )
                &&& out.0.stack == m.stack
                &&& out.0.dump == m.dump
                &&& out.0.steps == bump(m).steps
            }
        }),
{
    let sp = seq![root, inner, pn];
    assert(is_spine(m.heap, root, sp)) by {
        assert forall|i: int| 0 <= i < sp.len() - 1 implies #[trigger] spine_link(
            m.heap,
            sp,
            i,
        ) by {
            if i == 0 {
                assert(app_left(m.heap[sp[0].ix as int]) == inner);
            } else {
                assert(app_left(m.heap[sp[1].ix as int]) == pn);
            }
        }
    }
    assert(has_spine(m.heap, root));
    lemma_spine_unique(m.heap, root, sp, the_spine(m.heap, root));
    assert(!no_work(g, m.heap, sp));
    assert(!final_spec(g, m));
    let s = step_spec(g, prims, m);
    assert(app_right(m.heap[sp[sp.len() - 2].ix as int]) == an);
    assert(app_right(m.heap[sp[sp.len() - 3].ix as int]) == bn);
    if op == Prim::Div && b == 0 {
        assert(s == (m, Err::<(), RuntimeError>(RuntimeError::ArithmeticError)));
    } else {
        let h2 = m.heap.update(root.ix as int, HNode::Number(prim_val(op, a, b)));
        assert(s.0.heap == h2);
        assert(s.1 == Ok::<(), RuntimeError>(()));
        let m2 = bump(s.0);
        let sp2 = seq![root];
        assert(is_spine(h2, root, sp2));
        assert(has_spine(h2, root));
        lemma_spine_unique(h2, root, sp2, the_spine(h2, root));
        assert(no_work(g, h2, sp2));
        assert(final_spec(g, m2));
        assert(run_spec(g, prims, m2, (budget - 1) as nat) == (
            m2,
            Ok::<NodeBox, RuntimeError>(root),
        ));
    }
}

/// Reduces until no redex remains and returns the final node, in weak head
/// normal form; or fails with the first runtime error, or with
/// `Divergence` once `budget` steps have been spent. The final state, the
/// result and the step statistics are exactly `run_spec` of the input, so
/// two reductions of equal states agree in every observable; in
/// particular, reducing an already final state returns its top node
/// unchanged without counting a step.
pub fn reduce(state: &mut State, budget: u64) -> (r: Result<NodeBox, RuntimeError>)
    requires
        old(state).wf(),
    ensures
        final(state).wf(),
        final(state).globals == old(state).globals,
        final(state).prims == old(state).prims,
        final(state)@ == run_spec(old(state).gsigs(), old(state).prims@, old(state)@, budget as nat).0,
        r == run_spec(old(state).gsigs(), old(state).prims@, old(state)@, budget as nat).1,
        final_spec(old(state).gsigs(), old(state)@) ==> final(state)@ == old(state)@ && r
            == Ok::<NodeBox, RuntimeError>(old(state)@.stack.last()),
{
    let ghost g = old(state).gsigs();
    let ghost pr = old(state).prims@;
    let ghost m0 = old(state)@;
    let ghost gl0 = old(state).globals;
    let ghost pv0 = old(state).prims;
    let mut fuel: u64 = budget;
    #[verifier::loop_isolation(false)]
    loop
        invariant
            state.wf(),
            state.globals == gl0,
            state.prims == pv0,
            state.gsigs() == g,
            state.prims@ == pr,
            fuel <= budget,
            run_spec(g, pr, m0, budget as nat) == run_spec(g, pr, state@, fuel as nat),
        decreases fuel,
    {
        if state.is_final() {
            let nstack: usize = state.stack.len();
            let top = state.stack[nstack - 1];
            return Ok(top);
        }
        if fuel == 0 {
            return Err(RuntimeError::Divergence);
        }
        match state.step() {
            Ok(_) => {
            },
            Err(e) => {
                return Err(e);
            },
        }
        if state.stats.steps < i64::MAX {
            state.stats.steps = state.stats.steps + 1;
        }
        fuel = fuel - 1;
    }
}

} // verus!
