//! The runtime graph: heap nodes, handles, primitive operators and the
//! compiled body templates of the global combinators.
//!
//! Nodes live in an arena (a `Vec<HNode>`) and are identified by stable
//! integer handles (`NodeBox`). Two edges may point at the same node, and
//! overwriting a node's content in place is how reduced results are shared
//! by every holder of a handle.

use vstd::prelude::*;

verus! {

/// The twelve reserved binary primitive operators.
#[derive(Clone, Copy, Debug, PartialEq, Eq, Structural)]
pub enum Prim {
    Or,
    And,
    Eq,
    Ne,
    Gt,
    Ge,
    Lt,
    Le,
    Add,
    Sub,
    Mul,
    Div,
}

/// How many primitive operators there are.
pub const NUM_PRIMS: usize = 12;

/// The canonical position of a primitive's shared node in the machine's
/// primitive-node table.
pub open spec fn prim_ix(p: Prim) -> int {
    match p {
        Prim::Or => 0,
        Prim::And => 1,
        Prim::Eq => 2,
        Prim::Ne => 3,
        Prim::Gt => 4,
        Prim::Ge => 5,
        Prim::Lt => 6,
        Prim::Le => 7,
        Prim::Add => 8,
        Prim::Sub => 9,
        Prim::Mul => 10,
        Prim::Div => 11,
    }
}

/// The primitive sitting at a given position of the primitive-node table.
pub open spec fn prim_of_ix(i: int) -> Prim {
    if i == 0 { Prim::Or }
    else if i == 1 { Prim::And }
    else if i == 2 { Prim::Eq }
    else if i == 3 { Prim::Ne }
    else if i == 4 { Prim::Gt }
    else if i == 5 { Prim::Ge }
    else if i == 6 { Prim::Lt }
    else if i == 7 { Prim::Le }
    else if i == 8 { Prim::Add }
    else if i == 9 { Prim::Sub }
    else if i == 10 { Prim::Mul }
    else { Prim::Div }
}

/// Executable table position of a primitive.
pub fn prim_index(p: Prim) -> (r: usize)
    ensures
        r == prim_ix(p),
        r < NUM_PRIMS,
{
    match p {
        Prim::Or => 0,
        Prim::And => 1,
        Prim::Eq => 2,
        Prim::Ne => 3,
        Prim::Gt => 4,
        Prim::Ge => 5,
        Prim::Lt => 6,
        Prim::Le => 7,
        Prim::Add => 8,
        Prim::Sub => 9,
        Prim::Mul => 10,
        Prim::Div => 11,
    }
}

/// A handle to a node of the heap arena. Copying the handle does not copy
/// the node: all copies keep naming the same arena slot, so an in-place
/// overwrite of the slot is observed through every copy.
#[derive(Clone, Copy, Debug, PartialEq, Eq, Structural)]
pub struct NodeBox {
    pub ix: usize,
}

/// The content of one heap node.
#[derive(Clone, Copy, Debug)]
pub enum HNode {
    /// An application of the function named by the left handle to the
    /// argument named by the right handle.
    Application(NodeBox, NodeBox),
    /// A reference to the global combinator with this table index.
    SuperCombinator(usize),
    /// A primitive operator used as a function.
    PrimitiveFn(Prim),
    /// An integer in weak head normal form.
    Number(i64),
}

impl NodeBox {
    /// Allocates a fresh node holding `node` and returns its handle.
    pub fn new(heap: &mut Vec<HNode>, node: HNode) -> (r: NodeBox)
        ensures
            final(heap)@ == old(heap)@.push(node),
            r.ix == old(heap)@.len(),
    {
        let ix = heap.len();
        heap.push(node);
        NodeBox { ix }
    }

    /// Overwrites the node in place, preserving its identity, and returns
    /// the content it held before. Every other handle to this slot observes
    /// the new content.
    pub fn replace(&self, heap: &mut Vec<HNode>, new: HNode) -> (r: HNode)
        requires
            self.ix < old(heap)@.len(),
        ensures
            final(heap)@ == old(heap)@.update(self.ix as int, new),
            r == old(heap)@[self.ix as int],
    {
        let r = heap[self.ix];
        heap.set(self.ix, new);
        r
    }

    /// Reads the node's current content.
    pub fn borrow<'a>(&self, heap: &'a Vec<HNode>) -> (r: &'a HNode)
        requires
            self.ix < heap@.len(),
        ensures
            *r == heap@[self.ix as int],
    {
        &heap[self.ix]
    }

    /// Borrows the node's content for writing. What is written through the
    /// borrow stands in the same slot, so every other handle observes it.
    pub fn borrow_mut<'a>(&self, heap: &'a mut Vec<HNode>) -> (r: &'a mut HNode)
        requires
            self.ix < old(heap)@.len(),
        ensures
            *r == old(heap)@[self.ix as int],
            final(heap)@ == old(heap)@.update(self.ix as int, *final(r)),
    {
        &mut heap[self.ix]
    }
}

/// A compiled combinator body. Parameter and global occurrences are resolved
/// to positions at compile time, so instantiation never looks names up.
#[derive(Debug)]
pub enum Template {
    /// An integer constant; instantiated as a fresh node.
    Num(i64),
    /// A primitive operator; instantiated as the shared canonical node.
    Op(Prim),
    /// The global combinator with this table index; instantiated as its
    /// shared canonical node.
    Global(usize),
    /// The parameter with this position; instantiated as the caller's
    /// argument node, shared, not copied.
    Param(usize),
    /// An application; instantiated as a fresh node over the instantiated
    /// children.
    App(Box<Template>, Box<Template>),
}

/// A template mentions only existing parameters and existing globals.
pub open spec fn wf_template(t: Template, arity: int, ng: int) -> bool
    decreases t,
{
    match t {
        Template::Num(_) => true,
        Template::Op(_) => true,
        Template::Global(j) => j < ng,
        Template::Param(i) => i < arity,
        Template::App(a, b) => wf_template(*a, arity, ng) && wf_template(*b, arity, ng),
    }
}

/// One entry of the global combinator table: the combinator's name, its
/// ordered parameter list, its compiled body template, and its canonical
/// heap node (shared by every reference to the combinator).
#[derive(Debug)]
pub struct GlobalDef {
    pub name: String,
    pub params: Vec<String>,
    pub template: Template,
    pub node: NodeBox,
}

/// The part of a global table entry that the reduction semantics reads.
pub ghost struct GlobalSig {
    pub arity: nat,
    pub template: Template,
    pub node: NodeBox,
}

/// Abstracts the global table for use in specifications.
pub open spec fn gview(g: Seq<GlobalDef>) -> Seq<GlobalSig> {
    g.map_values(
        |d: GlobalDef|
            GlobalSig { arity: d.params@.len(), template: d.template, node: d.node },
    )
}

/// Whether a node is an application.
pub open spec fn is_app(n: HNode) -> bool {
    n matches HNode::Application(_, _)
}

/// The function (left) edge of an application node.
pub open spec fn app_left(n: HNode) -> NodeBox {
    match n {
        HNode::Application(l, _) => l,
        _ => (NodeBox { ix: 0 }),
    }
}

/// The argument (right) edge of an application node.
pub open spec fn app_right(n: HNode) -> NodeBox {
    match n {
        HNode::Application(_, r) => r,
        _ => (NodeBox { ix: 0 }),
    }
}

/// Every application node's edges stay inside the heap.
pub open spec fn app_children_ok(h: Seq<HNode>, i: int) -> bool {
    is_app(h[i]) ==> app_left(h[i]).ix < h.len() && app_right(h[i]).ix < h.len()
}

pub open spec fn apps_closed(h: Seq<HNode>) -> bool {
    forall|i: int| 0 <= i < h.len() ==> #[trigger] app_children_ok(h, i)
}

/// Every combinator-reference node names an existing global.
pub open spec fn sc_ok(h: Seq<HNode>, ng: int, i: int) -> bool {
    h[i] matches HNode::SuperCombinator(j) ==> j < ng
}

pub open spec fn scs_closed(h: Seq<HNode>, ng: int) -> bool {
    forall|i: int| 0 <= i < h.len() ==> #[trigger] sc_ok(h, ng, i)
}

/// Element `i` of a spine is an application whose function edge is element
/// `i + 1`.
pub open spec fn spine_link(h: Seq<HNode>, sp: Seq<NodeBox>, i: int) -> bool {
    &&& sp[i].ix < h.len()
    &&& is_app(h[sp[i].ix as int])
    &&& app_left(h[sp[i].ix as int]) == sp[i + 1]
}

pub open spec fn linked(h: Seq<HNode>, sp: Seq<NodeBox>) -> bool {
    forall|i: int| 0 <= i < sp.len() - 1 ==> #[trigger] spine_link(h, sp, i)
}

/// The spine of `top`: the chain of application nodes from `top` down the
/// function side, ending at the first non-application node (the head).
pub open spec fn is_spine(h: Seq<HNode>, top: NodeBox, sp: Seq<NodeBox>) -> bool {
    &&& sp.len() >= 1
    &&& sp[0] == top
    &&& linked(h, sp)
    &&& sp.last().ix < h.len()
    &&& !is_app(h[sp.last().ix as int])
}

pub open spec fn has_spine(h: Seq<HNode>, top: NodeBox) -> bool {
    exists|sp: Seq<NodeBox>| is_spine(h, top, sp)
}

pub open spec fn the_spine(h: Seq<HNode>, top: NodeBox) -> Seq<NodeBox> {
    choose|sp: Seq<NodeBox>| is_spine(h, top, sp)
}

/// A partial unwind: `c` holds application nodes walked so far from `top`
/// down the function side, and `cur` is the node the walk stands on.
pub open spec fn is_chain(h: Seq<HNode>, top: NodeBox, c: Seq<NodeBox>, cur: NodeBox) -> bool {
    &&& if c.len() == 0 {
        cur == top
    } else {
        c[0] == top && app_left(h[c.last().ix as int]) == cur
    }
    &&& forall|i: int|
        0 <= i < c.len() ==> (#[trigger] c[i]).ix < h.len() && is_app(h[c[i].ix as int])
    &&& linked(h, c)
}

/// Two linked sequences with the same start agree element by element.
proof fn lemma_linked_agree(h: Seq<HNode>, sp1: Seq<NodeBox>, sp2: Seq<NodeBox>, i: int)
    requires
        linked(h, sp1),
        linked(h, sp2),
        sp1.len() >= 1,
        sp2.len() >= 1,
        sp1[0] == sp2[0],
        0 <= i < sp1.len(),
        i < sp2.len(),
    ensures
        sp1[i] == sp2[i],
    decreases i,
{
    if i > 0 {
        lemma_linked_agree(h, sp1, sp2, i - 1);
        assert(spine_link(h, sp1, i - 1));
        assert(spine_link(h, sp2, i - 1));
    }
}

/// A node has at most one spine.
pub proof fn lemma_spine_unique(h: Seq<HNode>, top: NodeBox, sp1: Seq<NodeBox>, sp2: Seq<NodeBox>)
    requires
        is_spine(h, top, sp1),
        is_spine(h, top, sp2),
    ensures
        sp1 == sp2,
{
    if sp1.len() < sp2.len() {
        lemma_linked_agree(h, sp1, sp2, sp1.len() - 1);
        assert(spine_link(h, sp2, sp1.len() - 1));
        assert(false);
    }
    if sp2.len() < sp1.len() {
        lemma_linked_agree(h, sp2, sp1, sp2.len() - 1);
        assert(spine_link(h, sp1, sp2.len() - 1));
        assert(false);
    }
    assert forall|i: int| 0 <= i < sp1.len() implies sp1[i] == sp2[i] by {
        lemma_linked_agree(h, sp1, sp2, i);
    }
    assert(sp1 =~= sp2);
}

/// If a linked sequence repeats an element, the repetition shifts along it.
proof fn lemma_linked_shift(h: Seq<HNode>, sp: Seq<NodeBox>, i: int, j: int, t: int)
    requires
        linked(h, sp),
        0 <= i < j < sp.len(),
        sp[i] == sp[j],
        0 <= t,
        j + t < sp.len(),
    ensures
        sp[i + t] == sp[j + t],
    decreases t,
{
    if t > 0 {
        lemma_linked_shift(h, sp, i, j, t - 1);
        assert(spine_link(h, sp, i + t - 1));
        assert(spine_link(h, sp, j + t - 1));
    }
}

/// A spine never visits a node twice: a revisit would repeat forever and
/// the spine could not end in a non-application head.
proof fn lemma_spine_no_dup(h: Seq<HNode>, top: NodeBox, sp: Seq<NodeBox>)
    requires
        is_spine(h, top, sp),
    ensures
        sp.no_duplicates(),
{
    assert forall|a: int, b: int|
        0 <= a < sp.len() && 0 <= b < sp.len() && a != b implies sp[a] != sp[b] by {
        let (i, j) = if a < b {
            (a, b)
        } else {
            (b, a)
        };
        if sp[i] == sp[j] {
            lemma_linked_shift(h, sp, i, j, sp.len() - 1 - j);
            assert(spine_link(h, sp, i + sp.len() - 1 - j));
            assert(false);
        }
    }
}

/// A spine's nodes are distinct and in bounds, so it is no longer than the
/// heap.
pub proof fn lemma_spine_bound(h: Seq<HNode>, top: NodeBox, sp: Seq<NodeBox>)
    requires
        is_spine(h, top, sp),
    ensures
        sp.len() <= h.len(),
{
    lemma_spine_no_dup(h, top, sp);
    let f = |b: NodeBox| b.ix as int;
    assert(vstd::relations::injective(f)) by {
        assert forall|x: NodeBox, y: NodeBox| #[trigger] f(x) == #[trigger] f(y) implies x == y by {}
    }
    sp.lemma_no_duplicates_injective(f);
    let ixs = sp.map_values(f);
    ixs.unique_seq_to_set();
    let range = vstd::set_lib::set_int_range(0, h.len() as int);
    vstd::set_lib::lemma_int_range(0, h.len() as int);
    assert(ixs.to_set().subset_of(range)) by {
        assert forall|e: int| ixs.to_set().contains(e) implies range.contains(e) by {
            let k = choose|k: int| 0 <= k < ixs.len() && ixs[k] == e;
            assert(ixs[k] == f(sp[k]));
            if k < sp.len() - 1 {
                assert(spine_link(h, sp, k));
            }
        }
    }
    vstd::set_lib::lemma_len_subset(ixs.to_set(), range);
}

/// A walk that has visited more application nodes than the heap holds has
/// looped, so no spine exists.
pub proof fn lemma_long_chain_no_spine(h: Seq<HNode>, top: NodeBox, c: Seq<NodeBox>, cur: NodeBox)
    requires
        is_chain(h, top, c, cur),
        c.len() == h.len() + 1,
    ensures
        !has_spine(h, top),
{
    if has_spine(h, top) {
        let sp = choose|sp: Seq<NodeBox>| is_spine(h, top, sp);
        lemma_spine_bound(h, top, sp);
        let full = c.push(cur);
        assert(linked(h, full)) by {
            assert forall|i: int| 0 <= i < full.len() - 1 implies #[trigger] spine_link(h, full, i) by {
                if i < c.len() - 1 {
                    assert(spine_link(h, c, i));
                }
            }
        }
        lemma_linked_agree(h, sp, full, sp.len() - 1);
        assert(spine_link(h, full, sp.len() - 1));
        assert(false);
    }
}

/// What instantiating a template does to the heap, and which node the
/// instance's root is. Constants and applications are allocated fresh, in
/// left-to-right order; parameters share the caller's argument nodes, and
/// globals and primitives share their canonical nodes.
pub open spec fn inst_spec(
    h: Seq<HNode>,
    t: Template,
    args: Seq<NodeBox>,
    g: Seq<GlobalSig>,
    prims: Seq<NodeBox>,
) -> (Seq<HNode>, NodeBox)
    decreases t,
{
    match t {
        Template::Num(n) => (h.push(HNode::Number(n)), NodeBox { ix: h.len() as usize }),
        Template::Op(p) => (h, prims[prim_ix(p)]),
        Template::Global(j) => (h, g[j as int].node),
        Template::Param(i) => (h, args[i as int]),
        Template::App(a, b) => {
            let la = inst_spec(h, *a, args, g, prims);
            let lb = inst_spec(la.0, *b, args, g, prims);
            (
                lb.0.push(HNode::Application(la.1, lb.1)),
                NodeBox { ix: lb.0.len() as usize },
            )
        },
    }
}

/// Instantiation only appends nodes, keeps the heap closed, and roots the
/// instance at an in-bounds node.
pub proof fn lemma_inst_props(
    h: Seq<HNode>,
    t: Template,
    args: Seq<NodeBox>,
    g: Seq<GlobalSig>,
    prims: Seq<NodeBox>,
    ng: int,
)
    requires
        wf_template(t, args.len() as int, g.len() as int),
        g.len() <= ng,
        forall|i: int| 0 <= i < args.len() ==> (#[trigger] args[i]).ix < h.len(),
        forall|j: int| 0 <= j < g.len() ==> (#[trigger] g[j]).node.ix < h.len(),
        prims.len() == NUM_PRIMS,
        forall|p: int| 0 <= p < prims.len() ==> (#[trigger] prims[p]).ix < h.len(),
        apps_closed(h),
        scs_closed(h, ng),
    ensures
        ({
            let (h2, r) = inst_spec(h, t, args, g, prims);
            &&& h2.len() >= h.len()
            &&& h2.subrange(0, h.len() as int) == h
            &&& r.ix < h2.len()
            &&& apps_closed(h2)
            &&& scs_closed(h2, ng)
        }),
    decreases t,
{
    let (h2, r) = inst_spec(h, t, args, g, prims);
    match t {
        Template::Num(_) => {
            assert(h2.subrange(0, h.len() as int) =~= h);
            assert forall|i: int| 0 <= i < h2.len() implies #[trigger] app_children_ok(h2, i) by {
                if i < h.len() {
                    assert(app_children_ok(h, i));
                }
            }
            assert forall|i: int| 0 <= i < h2.len() implies #[trigger] sc_ok(h2, ng, i) by {
                if i < h.len() {
                    assert(sc_ok(h, ng, i));
                }
            }
        },
        Template::Op(_) => {
            assert(h2.subrange(0, h.len() as int) =~= h);
        },
        Template::Global(_) => {
            assert(h2.subrange(0, h.len() as int) =~= h);
        },
        Template::Param(_) => {
            assert(h2.subrange(0, h.len() as int) =~= h);
        },
        Template::App(a, b) => {
            let la = inst_spec(h, *a, args, g, prims);
            lemma_inst_props(h, *a, args, g, prims, ng);
            assert forall|i: int| 0 <= i < args.len() implies (#[trigger] args[i]).ix < la.0.len() by {}
            assert forall|j: int| 0 <= j < g.len() implies (#[trigger] g[j]).node.ix < la.0.len() by {}
            assert forall|p: int| 0 <= p < prims.len() implies (#[trigger] prims[p]).ix < la.0.len() by {}
            lemma_inst_props(la.0, *b, args, g, prims, ng);
            let lb = inst_spec(la.0, *b, args, g, prims);
            assert(h2.subrange(0, h.len() as int) =~= h) by {
                assert(la.0.subrange(0, h.len() as int) =~= h);
                assert(lb.0.subrange(0, la.0.len() as int) =~= la.0);
                assert forall|i: int| 0 <= i < h.len() implies h2[i] == h[i] by {
                    assert(lb.0[i] == la.0.subrange(0, la.0.len() as int)[i]);
                    assert(la.0[i] == la.0.subrange(0, h.len() as int)[i]);
                }
            }
            assert forall|i: int| 0 <= i < h2.len() implies #[trigger] app_children_ok(h2, i) by {
                if i < lb.0.len() {
                    assert(app_children_ok(lb.0, i));
                }
            }
            assert forall|i: int| 0 <= i < h2.len() implies #[trigger] sc_ok(h2, ng, i) by {
                if i < lb.0.len() {
                    assert(sc_ok(lb.0, ng, i));
                }
            }
        },
    }
}

/// Builds a fresh copy of a template's structural part in the heap while
/// sharing argument, global and primitive nodes, and returns the root of
/// the instance.
pub fn instantiate(
    heap: &mut Vec<HNode>,
    t: &Template,
    args: &Vec<NodeBox>,
    globals: &Vec<GlobalDef>,
    prims: &Vec<NodeBox>,
) -> (r: NodeBox)
    requires
        wf_template(*t, args@.len() as int, globals@.len() as int),
        prims@.len() == NUM_PRIMS,
    ensures
        final(heap)@ == inst_spec(old(heap)@, *t, args@, gview(globals@), prims@).0,
        r == inst_spec(old(heap)@, *t, args@, gview(globals@), prims@).1,
    decreases *t,
{
    match t {
        Template::Num(n) => NodeBox::new(heap, HNode::Number(*n)),
        Template::Op(p) => prims[prim_index(*p)],
        Template::Global(j) => {
            proof {
                assert(gview(globals@)[*j as int].node == globals@[*j as int].node);
            }
            globals[*j].node
        },
        Template::Param(i) => args[*i],
        Template::App(a, b) => {
            let l = instantiate(heap, a, args, globals, prims);
            let r = instantiate(heap, b, args, globals, prims);
            NodeBox::new(heap, HNode::Application(l, r))
        },
    }
}

/// Extending a walk by the application node it stands on keeps it a walk.
proof fn lemma_chain_push(h: Seq<HNode>, top: NodeBox, c: Seq<NodeBox>, cur: NodeBox, nxt: NodeBox)
    requires
        is_chain(h, top, c, cur),
        cur.ix < h.len(),
        is_app(h[cur.ix as int]),
        app_left(h[cur.ix as int]) == nxt,
    ensures
        is_chain(h, top, c.push(cur), nxt),
{
    let c2 = c.push(cur);
    assert forall|i: int| 0 <= i < c2.len() - 1 implies #[trigger] spine_link(h, c2, i) by {
        if i < c.len() - 1 {
            assert(spine_link(h, c, i));
        }
    }
}

/// A walk that reaches a non-application node has found the spine.
proof fn lemma_chain_head(h: Seq<HNode>, top: NodeBox, c: Seq<NodeBox>, cur: NodeBox)
    requires
        is_chain(h, top, c, cur),
        cur.ix < h.len(),
        !is_app(h[cur.ix as int]),
    ensures
        is_spine(h, top, c.push(cur)),
{
    let c2 = c.push(cur);
    assert forall|i: int| 0 <= i < c2.len() - 1 implies #[trigger] spine_link(h, c2, i) by {
        if i < c.len() - 1 {
            assert(spine_link(h, c, i));
        }
    }
}

/// Walks the spine of `top`: the chain of applications down the function
/// side, then the head. Returns `None` when the walk revisits a node and
/// so can never reach a head.
pub fn unwind(heap: &Vec<HNode>, top: NodeBox) -> (r: Option<Vec<NodeBox>>)
    requires
        top.ix < heap@.len(),
        apps_closed(heap@),
    ensures
        match r {
            Some(sp) => is_spine(heap@, top, sp@),
            None => !has_spine(heap@, top),
        },
{
    let n: usize = heap.len();
    let mut chain: Vec<NodeBox> = Vec::new();
    let mut cur = top;
    loop
        invariant
            n == heap@.len(),
            top.ix < n,
            apps_closed(heap@),
            cur.ix < n,
            chain@.len() <= n,
            is_chain(heap@, top, chain@, cur),
        decreases n - chain@.len(),
    {
        match heap[cur.ix] {
            HNode::Application(l, _) => {
                proof {
                    assert(app_children_ok(heap@, cur.ix as int));
                    lemma_chain_push(heap@, top, chain@, cur, l);
                }
                if chain.len() == n {
                    proof {
                        lemma_long_chain_no_spine(heap@, top, chain@.push(cur), l);
                    }
                    return None;
                }
                chain.push(cur);
                cur = l;
            },
            _ => {
                proof {
                    lemma_chain_head(heap@, top, chain@, cur);
                }
                chain.push(cur);
                return Some(chain);
            },
        }
    }
}

} // verus!
