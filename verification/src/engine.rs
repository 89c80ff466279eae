//! The computation graph and the reverse-mode differentiation engine.
//!
//! Nodes live in an arena, the `Graph`, and are addressed by index; a
//! `Value` is such an index. Every node's parents were created before it,
//! so parent indices are strictly smaller than the node's own and the
//! parent relation is acyclic by construction. Each non-leaf node records,
//! per parent, the local derivative of its operation with respect to that
//! parent, captured at construction time; the backward pass orders the
//! nodes reachable from the root by a depth-first search, parents first,
//! and then walks that order in reverse, adding `local × out_grad` into
//! each parent's gradient accumulator.

use crate::scalar::{
    add_bits, div_bits, exp_spec, fadd, fdiv, fmul, fsub, gt_zero, ln_spec, lt_zero, mul_bits,
    pow_bits, pow_spec, sub_bits, tanh_spec, exp_bits, ln_bits, tanh_bits, NEG_ONE_BITS, ONE_BITS,
    ZERO_BITS,
};
use vstd::pervasive::VecAdditionalExecFns;
use vstd::prelude::*;

verus! {

/// The closed set of operations a node can record.
#[derive(Clone, Copy, Debug, PartialEq, Eq, Structural)]
pub enum Ops {
    Add,
    Sub,
    Mul,
    Tanh,
    Exp,
    Log,
    /// The captured exponent, as a scalar bit pattern.
    Pow(u64),
    Relu,
}

/// A handle into the graph: the index of a node.
#[derive(Clone, Copy, Debug, PartialEq, Eq, Structural)]
pub struct Value(pub usize);

/// The arena that owns every node, column by column: `datas` holds each
/// node's value, `grads` its gradient accumulator, `parents` its operand
/// indices, `locals` the captured local derivative toward each parent, and
/// `ops` its operation tag (`None` for a leaf). All scalars are IEEE-754
/// double-precision bit patterns.
pub struct Graph {
    pub datas: Vec<u64>,
    pub grads: Vec<u64>,
    pub parents: Vec<Vec<usize>>,
    pub locals: Vec<Vec<u64>>,
    pub ops: Vec<Option<Ops>>,
}

/// A read-only snapshot of one node, for inspection by a visualizer or a
/// debugger; it carries no engine state.
#[derive(Clone, Debug)]
pub struct Data {
    pub data: u64,
    pub grad: u64,
    pub parents: Vec<Value>,
    pub op: Option<Ops>,
}

impl Graph {
    /// The number of nodes.
    pub open spec fn n(self) -> int {
        self.datas@.len() as int
    }

    /// The parent columns as sequences.
    pub open spec fn pview(self) -> Seq<Seq<usize>> {
        self.parents@.map_values(|p: Vec<usize>| p@)
    }

    /// The local-derivative columns as sequences.
    pub open spec fn lview(self) -> Seq<Seq<u64>> {
        self.locals@.map_values(|l: Vec<u64>| l@)
    }

    /// Well-formed: all columns have one entry per node, each node has one
    /// local derivative per parent, and every parent index is strictly
    /// below the node's own, so the graph is acyclic.
    pub open spec fn wf(self) -> bool {
        &&& self.grads@.len() == self.datas@.len()
        &&& self.parents@.len() == self.datas@.len()
        &&& self.locals@.len() == self.datas@.len()
        &&& self.ops@.len() == self.datas@.len()
        &&& forall|i: int|
            0 <= i < self.n() ==> (#[trigger] self.parents@[i])@.len() == self.locals@[i]@.len()
        &&& forall|i: int, j: int|
            0 <= i < self.n() && 0 <= j < self.parents@[i]@.len() ==> (#[trigger] self.parents@[i]@[j] as int)
                < i
    }

    /// An empty graph.
    pub fn new() -> (g: Graph)
        ensures
            g.wf(),
            g.n() == 0,
    {
        Graph {
            datas: Vec::new(),
            grads: Vec::new(),
            parents: Vec::new(),
            locals: Vec::new(),
            ops: Vec::new(),
        }
    }

    /// The number of nodes.
    pub fn len(&self) -> (n: usize)
        ensures
            n as int == self.n(),
    {
        self.datas.len()
    }
}

/// The second graph keeps every node of the first unchanged in every
/// column; it may have grown at the end.
pub open spec fn extends(pre: Graph, post: Graph) -> bool {
    &&& post.n() >= pre.n()
    &&& forall|i: int| 0 <= i < pre.n() ==> #[trigger] post.datas@[i] == pre.datas@[i]
    &&& forall|i: int| 0 <= i < pre.n() ==> #[trigger] post.grads@[i] == pre.grads@[i]
    &&& forall|i: int| 0 <= i < pre.n() ==> #[trigger] post.pview()[i] == pre.pview()[i]
    &&& forall|i: int| 0 <= i < pre.n() ==> #[trigger] post.lview()[i] == pre.lview()[i]
    &&& forall|i: int| 0 <= i < pre.n() ==> #[trigger] post.ops@[i] == pre.ops@[i]
}

/// Extension is transitive.
pub proof fn lemma_extends_trans(a: Graph, b: Graph, c: Graph)
    requires
        extends(a, b),
        extends(b, c),
    ensures
        extends(a, c),
{
}

/// Appends one node with the given columns; the local-derivative list must
/// pair off with the parent list, and every parent must already exist.
fn push_node(g: &mut Graph, data: u64, ps: Vec<usize>, ls: Vec<u64>, op: Option<Ops>) -> (r: Value)
    requires
        old(g).wf(),
        ps@.len() == ls@.len(),
        forall|j: int| 0 <= j < ps@.len() ==> (#[trigger] ps@[j] as int) < old(g).n(),
    ensures
        final(g).wf(),
        extends(*old(g), *final(g)),
        final(g).n() == old(g).n() + 1,
        r.0 as int == old(g).n(),
        final(g).datas@[r.0 as int] == data,
        final(g).grads@[r.0 as int] == ZERO_BITS,
        final(g).pview()[r.0 as int] == ps@,
        final(g).lview()[r.0 as int] == ls@,
        final(g).ops@[r.0 as int] == op,
{
    let idx = g.datas.len();
    let ghost psv = ps@;
    let ghost lsv = ls@;
    g.datas.push(data);
    g.grads.push(ZERO_BITS);
    g.parents.push(ps);
    g.locals.push(ls);
    g.ops.push(op);
    proof {
        assert(g.pview() =~= old(g).pview().push(psv));
        assert(g.lview() =~= old(g).lview().push(lsv));
    }
    Value(idx)
}

impl Value {
    /// Creates a leaf: the given value, gradient zero, no parents, no
    /// operation.
    pub fn new(g: &mut Graph, data: u64) -> (r: Value)
        requires
            old(g).wf(),
        ensures
            final(g).wf(),
            extends(*old(g), *final(g)),
            final(g).n() == old(g).n() + 1,
            r.0 as int == old(g).n(),
            final(g).datas@[r.0 as int] == data,
            final(g).grads@[r.0 as int] == ZERO_BITS,
            final(g).pview()[r.0 as int] == Seq::<usize>::empty(),
            final(g).ops@[r.0 as int] is None,
    {
        let ps: Vec<usize> = Vec::new();
        let ls: Vec<u64> = Vec::new();
        push_node(g, data, ps, ls, None)
    }

    /// The node's value.
    pub fn value(&self, g: &Graph) -> (r: u64)
        requires
            g.wf(),
            (self.0 as int) < g.n(),
        ensures
            r == g.datas@[self.0 as int],
    {
        g.datas[self.0]
    }

    /// The node's accumulated gradient.
    pub fn grad(&self, g: &Graph) -> (r: u64)
        requires
            g.wf(),
            (self.0 as int) < g.n(),
        ensures
            r == g.grads@[self.0 as int],
    {
        g.grads[self.0]
    }

    /// A read-only snapshot of the node: value, gradient, operation label
    /// and parent handles.
    pub fn inspect(&self, g: &Graph) -> (r: Data)
        requires
            g.wf(),
            (self.0 as int) < g.n(),
        ensures
            r.data == g.datas@[self.0 as int],
            r.grad == g.grads@[self.0 as int],
            r.parents@.len() == g.pview()[self.0 as int].len(),
            forall|j: int|
                0 <= j < r.parents@.len() ==> (#[trigger] r.parents@[j]).0 == g.pview()[self.0 as int][j],
            r.op == g.ops@[self.0 as int],
    {
        let mut ps: Vec<Value> = Vec::new();
        let m = g.parents[self.0].len();
        let mut j: usize = 0;
        while j < m
            invariant
                g.wf(),
                (self.0 as int) < g.n(),
                m == g.pview()[self.0 as int].len(),
                j <= m,
                ps@.len() == j as int,
                forall|t: int|
                    0 <= t < j as int ==> (#[trigger] ps@[t]).0 == g.pview()[self.0 as int][t],
            decreases m - j,
        {
            ps.push(Value(g.parents[self.0][j]));
            j = j + 1;
        }
        Data { data: g.datas[self.0], grad: g.grads[self.0], parents: ps, op: g.ops[self.0] }
    }

    /// Addition: a new node whose value is the IEEE sum of the operands and
    /// whose local derivative toward each operand is one.
    pub fn add(&self, g: &mut Graph, rhs: Value) -> (r: Value)
        requires
            old(g).wf(),
            (self.0 as int) < old(g).n(),
            (rhs.0 as int) < old(g).n(),
        ensures
            final(g).wf(),
            extends(*old(g), *final(g)),
            final(g).n() == old(g).n() + 1,
            r.0 as int == old(g).n(),
            final(g).datas@[r.0 as int] == add_bits(
                old(g).datas@[self.0 as int],
                old(g).datas@[rhs.0 as int],
            ),
            final(g).grads@[r.0 as int] == ZERO_BITS,
            final(g).pview()[r.0 as int] == seq![self.0, rhs.0],
            final(g).lview()[r.0 as int] == seq![ONE_BITS, ONE_BITS],
            final(g).ops@[r.0 as int] == Some(Ops::Add),
    {
        let d = fadd(g.datas[self.0], g.datas[rhs.0]);
        let mut ps: Vec<usize> = Vec::new();
        ps.push(self.0);
        ps.push(rhs.0);
        let mut ls: Vec<u64> = Vec::new();
        ls.push(ONE_BITS);
        ls.push(ONE_BITS);
        proof {
            assert(ps@ =~= seq![self.0, rhs.0]);
            assert(ls@ =~= seq![ONE_BITS, ONE_BITS]);
        }
        push_node(g, d, ps, ls, Some(Ops::Add))
    }

    /// Multiplication: a new node whose value is the IEEE product and whose
    /// local derivative toward each operand is the other operand's value,
    /// captured now.
    pub fn mul(&self, g: &mut Graph, rhs: Value) -> (r: Value)
        requires
            old(g).wf(),
            (self.0 as int) < old(g).n(),
            (rhs.0 as int) < old(g).n(),
        ensures
            final(g).wf(),
            extends(*old(g), *final(g)),
            final(g).n() == old(g).n() + 1,
            r.0 as int == old(g).n(),
            final(g).datas@[r.0 as int] == mul_bits(
                old(g).datas@[self.0 as int],
                old(g).datas@[rhs.0 as int],
            ),
            final(g).grads@[r.0 as int] == ZERO_BITS,
            final(g).pview()[r.0 as int] == seq![self.0, rhs.0],
            final(g).lview()[r.0 as int] == seq![
                old(g).datas@[rhs.0 as int],
                old(g).datas@[self.0 as int],
            ],
            final(g).ops@[r.0 as int] == Some(Ops::Mul),
    {
        let a = g.datas[self.0];
        let b = g.datas[rhs.0];
        let d = fmul(a, b);
        let mut ps: Vec<usize> = Vec::new();
        ps.push(self.0);
        ps.push(rhs.0);
        let mut ls: Vec<u64> = Vec::new();
        ls.push(b);
        ls.push(a);
        proof {
            assert(ps@ =~= seq![self.0, rhs.0]);
            assert(ls@ =~= seq![b, a]);
        }
        push_node(g, d, ps, ls, Some(Ops::Mul))
    }

    /// Negation, as multiplication by a fresh leaf holding minus one: two
    /// nodes are created, the leaf and the product.
    pub fn neg(&self, g: &mut Graph) -> (r: Value)
        requires
            old(g).wf(),
            (self.0 as int) < old(g).n(),
        ensures
            final(g).wf(),
            extends(*old(g), *final(g)),
            final(g).n() == old(g).n() + 2,
            r.0 as int == old(g).n() + 1,
            final(g).datas@[r.0 as int] == mul_bits(old(g).datas@[self.0 as int], NEG_ONE_BITS),
            final(g).grads@[r.0 as int] == ZERO_BITS,
            final(g).ops@[r.0 as int] == Some(Ops::Mul),
    {
        let m = Value::new(g, NEG_ONE_BITS);
        self.mul(g, m)
    }

    /// Subtraction, defined as the sum with the negated right operand:
    /// three nodes are created.
    pub fn sub(&self, g: &mut Graph, rhs: Value) -> (r: Value)
        requires
            old(g).wf(),
            (self.0 as int) < old(g).n(),
            (rhs.0 as int) < old(g).n(),
        ensures
            final(g).wf(),
            extends(*old(g), *final(g)),
            final(g).n() == old(g).n() + 3,
            r.0 as int == old(g).n() + 2,
            final(g).datas@[r.0 as int] == add_bits(
                old(g).datas@[self.0 as int],
                mul_bits(old(g).datas@[rhs.0 as int], NEG_ONE_BITS),
            ),
            final(g).grads@[r.0 as int] == ZERO_BITS,
            final(g).ops@[r.0 as int] == Some(Ops::Add),
    {
        let nr = rhs.neg(g);
        self.add(g, nr)
    }

    /// The power with a captured real exponent: the value and the local
    /// derivative `k·x^(k-1)` follow the real power function, so a negative
    /// base with a non-integer exponent yields not-a-number.
    pub fn pow(&self, g: &mut Graph, exponent: u64) -> (r: Value)
        requires
            old(g).wf(),
            (self.0 as int) < old(g).n(),
        ensures
            final(g).wf(),
            extends(*old(g), *final(g)),
            final(g).n() == old(g).n() + 1,
            r.0 as int == old(g).n(),
            final(g).datas@[r.0 as int] == pow_spec(old(g).datas@[self.0 as int], exponent),
            final(g).grads@[r.0 as int] == ZERO_BITS,
            final(g).pview()[r.0 as int] == seq![self.0],
            final(g).lview()[r.0 as int] == seq![
                mul_bits(
                    exponent,
                    pow_spec(old(g).datas@[self.0 as int], sub_bits(exponent, ONE_BITS)),
                ),
            ],
            final(g).ops@[r.0 as int] == Some(Ops::Pow(exponent)),
    {
        let x = g.datas[self.0];
        let d = pow_bits(x, exponent);
        let km1 = fsub(exponent, ONE_BITS);
        let ld = fmul(exponent, pow_bits(x, km1));
        let mut ps: Vec<usize> = Vec::new();
        ps.push(self.0);
        let mut ls: Vec<u64> = Vec::new();
        ls.push(ld);
        proof {
            assert(ps@ =~= seq![self.0]);
            assert(ls@ =~= seq![ld]);
        }
        push_node(g, d, ps, ls, Some(Ops::Pow(exponent)))
    }

    /// Division, defined as multiplication by the right operand raised to
    /// minus one: two nodes are created, the power and the product.
    pub fn div(&self, g: &mut Graph, rhs: Value) -> (r: Value)
        requires
            old(g).wf(),
            (self.0 as int) < old(g).n(),
            (rhs.0 as int) < old(g).n(),
        ensures
            final(g).wf(),
            extends(*old(g), *final(g)),
            final(g).n() == old(g).n() + 2,
            r.0 as int == old(g).n() + 1,
            final(g).datas@[r.0 as int] == mul_bits(
                old(g).datas@[self.0 as int],
                pow_spec(old(g).datas@[rhs.0 as int], NEG_ONE_BITS),
            ),
            final(g).grads@[r.0 as int] == ZERO_BITS,
            final(g).ops@[r.0 as int] == Some(Ops::Mul),
    {
        let p = rhs.pow(g, NEG_ONE_BITS);
        self.mul(g, p)
    }

    /// The hyperbolic tangent; the local derivative `1 - t²` is computed
    /// from the captured output `t`.
    pub fn tanh(&self, g: &mut Graph) -> (r: Value)
        requires
            old(g).wf(),
            (self.0 as int) < old(g).n(),
        ensures
            final(g).wf(),
            extends(*old(g), *final(g)),
            final(g).n() == old(g).n() + 1,
            r.0 as int == old(g).n(),
            final(g).datas@[r.0 as int] == tanh_spec(old(g).datas@[self.0 as int]),
            final(g).grads@[r.0 as int] == ZERO_BITS,
            final(g).pview()[r.0 as int] == seq![self.0],
            final(g).lview()[r.0 as int] == seq![
                sub_bits(
                    ONE_BITS,
                    mul_bits(
                        tanh_spec(old(g).datas@[self.0 as int]),
                        tanh_spec(old(g).datas@[self.0 as int]),
                    ),
                ),
            ],
            final(g).ops@[r.0 as int] == Some(Ops::Tanh),
    {
        let x = g.datas[self.0];
        let t = tanh_bits(x);
        let ld = fsub(ONE_BITS, fmul(t, t));
        let mut ps: Vec<usize> = Vec::new();
        ps.push(self.0);
        let mut ls: Vec<u64> = Vec::new();
        ls.push(ld);
        proof {
            assert(ps@ =~= seq![self.0]);
            assert(ls@ =~= seq![ld]);
        }
        push_node(g, t, ps, ls, Some(Ops::Tanh))
    }

    /// The rectifier: zero below zero, the identity elsewhere; the local
    /// derivative is one exactly where the input is positive.
    pub fn relu(&self, g: &mut Graph) -> (r: Value)
        requires
            old(g).wf(),
            (self.0 as int) < old(g).n(),
        ensures
            final(g).wf(),
            extends(*old(g), *final(g)),
            final(g).n() == old(g).n() + 1,
            r.0 as int == old(g).n(),
            final(g).datas@[r.0 as int] == (if lt_zero(old(g).datas@[self.0 as int]) {
                ZERO_BITS
            } else {
                old(g).datas@[self.0 as int]
            }),
            final(g).grads@[r.0 as int] == ZERO_BITS,
            final(g).pview()[r.0 as int] == seq![self.0],
            final(g).lview()[r.0 as int] == seq![
                (if gt_zero(old(g).datas@[self.0 as int]) {
                    ONE_BITS
                } else {
                    ZERO_BITS
                }),
            ],
            final(g).ops@[r.0 as int] == Some(Ops::Relu),
    {
        let x = g.datas[self.0];
        let nan = ((x & 0x7FF0_0000_0000_0000u64) >> 52u64) == 0x7FF && (x
            & 0x000F_FFFF_FFFF_FFFFu64) != 0;
        let zero = (x & 0x7FFF_FFFF_FFFF_FFFFu64) == 0;
        let neg = (x >> 63u64) == 1;
        let d = if neg && !zero && !nan {
            ZERO_BITS
        } else {
            x
        };
        let ld = if !neg && !zero && !nan {
            ONE_BITS
        } else {
            ZERO_BITS
        };
        let mut ps: Vec<usize> = Vec::new();
        ps.push(self.0);
        let mut ls: Vec<u64> = Vec::new();
        ls.push(ld);
        proof {
            assert(ps@ =~= seq![self.0]);
            assert(ls@ =~= seq![ld]);
        }
        push_node(g, d, ps, ls, Some(Ops::Relu))
    }

    /// The exponential; the local derivative reuses the output itself.
    pub fn exp(&self, g: &mut Graph) -> (r: Value)
        requires
            old(g).wf(),
            (self.0 as int) < old(g).n(),
        ensures
            final(g).wf(),
            extends(*old(g), *final(g)),
            final(g).n() == old(g).n() + 1,
            r.0 as int == old(g).n(),
            final(g).datas@[r.0 as int] == exp_spec(old(g).datas@[self.0 as int]),
            final(g).grads@[r.0 as int] == ZERO_BITS,
            final(g).pview()[r.0 as int] == seq![self.0],
            final(g).lview()[r.0 as int] == seq![exp_spec(old(g).datas@[self.0 as int])],
            final(g).ops@[r.0 as int] == Some(Ops::Exp),
    {
        let x = g.datas[self.0];
        let d = exp_bits(x);
        let mut ps: Vec<usize> = Vec::new();
        ps.push(self.0);
        let mut ls: Vec<u64> = Vec::new();
        ls.push(d);
        proof {
            assert(ps@ =~= seq![self.0]);
            assert(ls@ =~= seq![d]);
        }
        push_node(g, d, ps, ls, Some(Ops::Exp))
    }

    /// The natural logarithm; the local derivative is `1/x`, captured now.
    /// A non-positive input propagates not-a-number or negative infinity
    /// rather than failing.
    pub fn log(&self, g: &mut Graph) -> (r: Value)
        requires
            old(g).wf(),
            (self.0 as int) < old(g).n(),
        ensures
            final(g).wf(),
            extends(*old(g), *final(g)),
            final(g).n() == old(g).n() + 1,
            r.0 as int == old(g).n(),
            final(g).datas@[r.0 as int] == ln_spec(old(g).datas@[self.0 as int]),
            final(g).grads@[r.0 as int] == ZERO_BITS,
            final(g).pview()[r.0 as int] == seq![self.0],
            final(g).lview()[r.0 as int] == seq![
                div_bits(ONE_BITS, old(g).datas@[self.0 as int]),
            ],
            final(g).ops@[r.0 as int] == Some(Ops::Log),
    {
        let x = g.datas[self.0];
        let d = ln_bits(x);
        let ld = fdiv(ONE_BITS, x);
        let mut ps: Vec<usize> = Vec::new();
        ps.push(self.0);
        let mut ls: Vec<u64> = Vec::new();
        ls.push(ld);
        proof {
            assert(ps@ =~= seq![self.0]);
            assert(ls@ =~= seq![ld]);
        }
        push_node(g, d, ps, ls, Some(Ops::Log))
    }
}

} // verus!

verus! {

/// The set of indices marked true in a boolean sequence.
pub open spec fn bset(bs: Seq<bool>) -> Set<usize> {
    Set::new(|i: usize| 0 <= (i as int) < bs.len() && bs[i as int])
}

/// One step of the depth-first search that orders the nodes reachable from
/// `v`: an already-visited node changes nothing; otherwise `v` is marked,
/// its parents are visited first, and `v` is appended after them, so every
/// node stands after all of its ancestors.
pub open spec fn visit(ps: Seq<Seq<usize>>, v: usize, st: (Set<usize>, Seq<usize>)) -> (
    Set<usize>,
    Seq<usize>,
)
    decreases v as int + 1, 0int,
{
    if st.0.contains(v) {
        st
    } else {
        let st1 = visit_parents(ps, v, 0, (st.0.insert(v), st.1));
        (st1.0, st1.1.push(v))
    }
}

/// Visits the parents of `v` from position `j` on, left to right. The guard
/// that a parent index lies below `v` always holds in a well-formed graph;
/// it bounds the recursion.
pub open spec fn visit_parents(
    ps: Seq<Seq<usize>>,
    v: usize,
    j: int,
    st: (Set<usize>, Seq<usize>),
) -> (Set<usize>, Seq<usize>)
    decreases v as int, ps[v as int].len() - j,
{
    if 0 <= (v as int) < ps.len() && 0 <= j < ps[v as int].len() {
        let p = ps[v as int][j];
        if (p as int) < (v as int) {
            visit_parents(ps, v, j + 1, visit(ps, p, st))
        } else {
            visit_parents(ps, v, j + 1, st)
        }
    } else {
        st
    }
}

/// The depth-first post-order of the nodes reachable from `root`.
pub open spec fn topo_of(ps: Seq<Seq<usize>>, root: usize) -> Seq<usize> {
    visit(ps, root, (Set::<usize>::empty(), Seq::<usize>::empty())).1
}

/// The gradients after node `v` has propagated its first `j` contributions:
/// for each parent in turn, `local × out_grad` is added into that parent's
/// accumulator, where `out_grad` is `v`'s gradient as it stood when `v`'s
/// rule started (a node's parents lie strictly below it, so its own entry
/// does not move while it propagates).
pub open spec fn contribs(
    ps: Seq<Seq<usize>>,
    ls: Seq<Seq<u64>>,
    grads: Seq<u64>,
    v: int,
    j: int,
) -> Seq<u64>
    decreases j,
{
    if j <= 0 {
        grads
    } else {
        let prev = contribs(ps, ls, grads, v, j - 1);
        let p = ps[v][j - 1] as int;
        prev.update(p, add_bits(prev[p], mul_bits(ls[v][j - 1], grads[v])))
    }
}

/// The gradients after the traversal order has been walked in reverse from
/// its end down to position `i`, each node propagating to its parents.
pub open spec fn run_back(
    ps: Seq<Seq<usize>>,
    ls: Seq<Seq<u64>>,
    grads: Seq<u64>,
    order: Seq<usize>,
    i: int,
) -> Seq<u64>
    decreases order.len() - i,
{
    if i < 0 || i >= order.len() {
        grads
    } else {
        let v = order[i] as int;
        contribs(ps, ls, run_back(ps, ls, grads, order, i + 1), v, ps[v].len() as int)
    }
}

/// The depth-first search, executable form: `visited` marks the nodes seen,
/// `topo` accumulates the post-order.
fn build_topo(g: &Graph, v: usize, visited: &mut Vec<bool>, topo: &mut Vec<usize>)
    requires
        g.wf(),
        (v as int) < g.n(),
        old(visited)@.len() == g.n(),
        forall|t: int| 0 <= t < old(topo)@.len() ==> (#[trigger] old(topo)@[t] as int) < g.n(),
    ensures
        final(visited)@.len() == g.n(),
        forall|t: int|
            0 <= t < final(topo)@.len() ==> (#[trigger] final(topo)@[t] as int) < g.n(),
        (bset(final(visited)@), final(topo)@) == visit(
            g.pview(),
            v,
            (bset(old(visited)@), old(topo)@),
        ),
    decreases v as int + 1, 0int,
{
    if visited[v] {
        proof {
            assert(bset(visited@).contains(v));
        }
    } else {
        proof {
            assert(!bset(visited@).contains(v));
        }
        visited.set(v, true);
        proof {
            assert(bset(visited@) =~= bset(old(visited)@).insert(v));
        }
        build_topo_parents(g, v, 0, visited, topo);
        topo.push(v);
    }
}

/// Visits the parents of `v` from position `j` on, executable form.
fn build_topo_parents(g: &Graph, v: usize, j: usize, visited: &mut Vec<bool>, topo: &mut Vec<usize>)
    requires
        g.wf(),
        (v as int) < g.n(),
        j as int <= g.pview()[v as int].len(),
        old(visited)@.len() == g.n(),
        forall|t: int| 0 <= t < old(topo)@.len() ==> (#[trigger] old(topo)@[t] as int) < g.n(),
    ensures
        final(visited)@.len() == g.n(),
        forall|t: int|
            0 <= t < final(topo)@.len() ==> (#[trigger] final(topo)@[t] as int) < g.n(),
        (bset(final(visited)@), final(topo)@) == visit_parents(
            g.pview(),
            v,
            j as int,
            (bset(old(visited)@), old(topo)@),
        ),
    decreases v as int, g.pview()[v as int].len() - j,
{
    let m = g.parents[v].len();
    if j < m {
        let p = g.parents[v][j];
        build_topo(g, p, visited, topo);
        build_topo_parents(g, v, j + 1, visited, topo);
    }
}

impl Value {
    /// The backward pass. It seeds this node's gradient with one, orders
    /// the nodes reachable from it by the depth-first search, and walks
    /// that order in reverse, each node adding `local × out_grad` into each
    /// of its parents' accumulators. Contributions are always added, never
    /// assigned, so a node used by several consumers receives all of their
    /// contributions — and it has received all of them before its own rule
    /// runs, because its consumers stand after it in the order. Gradients
    /// already in the accumulators are built upon, not cleared: resetting
    /// them between passes is the caller's explicit step.
    pub fn backward(&self, g: &mut Graph)
        requires
            old(g).wf(),
            (self.0 as int) < old(g).n(),
        ensures
            final(g).wf(),
            final(g).n() == old(g).n(),
            final(g).datas@ == old(g).datas@,
            final(g).pview() == old(g).pview(),
            final(g).lview() == old(g).lview(),
            final(g).ops@ == old(g).ops@,
            final(g).grads@ == run_back(
                old(g).pview(),
                old(g).lview(),
                old(g).grads@.update(self.0 as int, ONE_BITS),
                topo_of(old(g).pview(), self.0),
                0,
            ),
    {
        let n = g.datas.len();
        let mut visited: Vec<bool> = Vec::new();
        while visited.len() < n
            invariant
                visited@.len() <= n as int,
                forall|t: int| 0 <= t < visited@.len() ==> !(#[trigger] visited@[t]),
            decreases n - visited.len(),
        {
            visited.push(false);
        }
        proof {
            assert(bset(visited@) =~= Set::<usize>::empty());
        }
        let mut topo: Vec<usize> = Vec::new();
        build_topo(g, self.0, &mut visited, &mut topo);
        proof {
            assert(topo@ == topo_of(g.pview(), self.0));
        }
        g.grads.set(self.0, ONE_BITS);
        let ghost ps = g.pview();
        let ghost ls = g.lview();
        let ghost seeded = g.grads@;
        let mut i: usize = topo.len();
        while i > 0
            invariant
                g.wf(),
                g.n() == old(g).n(),
                g.datas@ == old(g).datas@,
                g.pview() == old(g).pview(),
                g.lview() == old(g).lview(),
                g.ops@ == old(g).ops@,
                ps == g.pview(),
                ls == g.lview(),
                i as int <= topo@.len(),
                forall|t: int| 0 <= t < topo@.len() ==> (#[trigger] topo@[t] as int) < g.n(),
                g.grads@.len() == g.n(),
                g.grads@ == run_back(ps, ls, seeded, topo@, i as int),
            decreases i,
        {
            i = i - 1;
            let v = topo[i];
            let og = g.grads[v];
            let ghost base = run_back(ps, ls, seeded, topo@, i as int + 1);
            let m = g.parents[v].len();
            let mut j: usize = 0;
            while j < m
                invariant
                    g.wf(),
                    g.n() == old(g).n(),
                    g.datas@ == old(g).datas@,
                    g.pview() == old(g).pview(),
                    g.lview() == old(g).lview(),
                    g.ops@ == old(g).ops@,
                    ps == g.pview(),
                    ls == g.lview(),
                    (v as int) < g.n(),
                    m == ps[v as int].len(),
                    j <= m,
                    g.grads@.len() == g.n(),
                    base.len() == g.n(),
                    og == base[v as int],
                    g.grads@ == contribs(ps, ls, base, v as int, j as int),
                decreases m - j,
            {
                let p = g.parents[v][j];
                let l = g.locals[v][j];
                let c = fmul(l, og);
                let gp = g.grads[p];
                let s = fadd(gp, c);
                g.grads.set(p, s);
                j = j + 1;
            }
        }
    }
}

/// Gradient descent: a fixed list of parameter handles and a learning
/// rate, both set at construction.
pub struct SGD {
    pub params: Vec<Value>,
    pub lr: u64,
}

/// The parameter values after the first `k` update steps: each step moves
/// one parameter by `-lr × grad`, the gradients themselves untouched.
pub open spec fn stepped(
    datas: Seq<u64>,
    grads: Seq<u64>,
    lr: u64,
    ps: Seq<usize>,
    k: int,
) -> Seq<u64>
    decreases k,
{
    if k <= 0 {
        datas
    } else {
        let d = stepped(datas, grads, lr, ps, k - 1);
        let p = ps[k - 1] as int;
        d.update(p, sub_bits(d[p], mul_bits(lr, grads[p])))
    }
}

impl SGD {
    /// Wraps the parameter list and the learning rate (a scalar bit
    /// pattern).
    pub fn new(params: Vec<Value>, lr: u64) -> (r: SGD)
        ensures
            r.params == params,
            r.lr == lr,
    {
        SGD { params, lr }
    }

    /// One descent step: every parameter's value moves by `-lr × grad`, in
    /// place; gradients are not touched and no node is created. Resetting
    /// the gradients before the next pass is the caller's explicit step.
    pub fn step(&self, g: &mut Graph)
        requires
            old(g).wf(),
            forall|k: int|
                0 <= k < self.params@.len() ==> (#[trigger] self.params@[k].0 as int) < old(g).n(),
        ensures
            final(g).wf(),
            final(g).n() == old(g).n(),
            final(g).grads@ == old(g).grads@,
            final(g).pview() == old(g).pview(),
            final(g).lview() == old(g).lview(),
            final(g).ops@ == old(g).ops@,
            final(g).datas@ == stepped(
                old(g).datas@,
                old(g).grads@,
                self.lr,
                self.params@.map_values(|v: Value| v.0),
                self.params@.len() as int,
            ),
    {
        let ghost pseq = self.params@.map_values(|v: Value| v.0);
        let m = self.params.len();
        let mut k: usize = 0;
        while k < m
            invariant
                g.wf(),
                g.n() == old(g).n(),
                g.grads@ == old(g).grads@,
                g.pview() == old(g).pview(),
                g.lview() == old(g).lview(),
                g.ops@ == old(g).ops@,
                m == self.params@.len(),
                k <= m,
                pseq == self.params@.map_values(|v: Value| v.0),
                forall|t: int|
                    0 <= t < self.params@.len() ==> (#[trigger] self.params@[t].0 as int) < g.n(),
                g.datas@ == stepped(old(g).datas@, old(g).grads@, self.lr, pseq, k as int),
            decreases m - k,
        {
            let p = self.params[k].0;
            let dv = g.datas[p];
            let gv = g.grads[p];
            let nv = fsub(dv, fmul(self.lr, gv));
            g.datas.set(p, nv);
            k = k + 1;
        }
    }
}

/// After the accumulators have been reset, a backward pass is independent
/// of anything earlier passes left behind: on two graphs that agree on
/// values, parents and local derivatives and whose gradients are all zero,
/// the pass from the same root produces the same gradients.
pub proof fn lemma_backward_independent_of_past(
    ps: Seq<Seq<usize>>,
    ls: Seq<Seq<u64>>,
    g1: Seq<u64>,
    g2: Seq<u64>,
    root: usize,
)
    requires
        g1.len() == g2.len(),
        forall|i: int| 0 <= i < g1.len() ==> g1[i] == ZERO_BITS,
        forall|i: int| 0 <= i < g2.len() ==> g2[i] == ZERO_BITS,
    ensures
        run_back(ps, ls, g1.update(root as int, ONE_BITS), topo_of(ps, root), 0) == run_back(
            ps,
            ls,
            g2.update(root as int, ONE_BITS),
            topo_of(ps, root),
            0,
        ),
{
    assert(g1 =~= g2);
}

} // verus!


verus! {

/// Whether `x` occurs in the sequence.
pub open spec fn in_seq(s: Seq<usize>, x: usize) -> bool {
    exists|q: int| 0 <= q < s.len() && s[q] == x
}

/// Acyclicity stated over the parent columns alone: every parent index
/// lies strictly below its node.
pub open spec fn wf_parents(ps: Seq<Seq<usize>>) -> bool {
    forall|i: int, j: int|
        0 <= i < ps.len() && 0 <= j < ps[i].len() ==> (#[trigger] ps[i][j] as int) < i
}

/// A well-formed graph's parent columns satisfy `wf_parents`, so the
/// traversal-order laws apply to it.
pub proof fn lemma_graph_wf_parents(g: Graph)
    requires
        g.wf(),
    ensures
        wf_parents(g.pview()),
        g.pview().len() == g.n(),
{
}

/// The invariants of a traversal state: the order has no repeated node,
/// every ordered node is marked visited and lies inside the graph, and
/// each ordered node's parents all occur earlier in the order.
pub open spec fn ord_ok(ps: Seq<Seq<usize>>, st: (Set<usize>, Seq<usize>)) -> bool {
    &&& st.1.no_duplicates()
    &&& forall|k: int| 0 <= k < st.1.len() ==> st.0.contains(#[trigger] st.1[k])
    &&& forall|k: int| 0 <= k < st.1.len() ==> (#[trigger] st.1[k] as int) < ps.len()
    &&& forall|k: int, j: int|
        0 <= k < st.1.len() && 0 <= j < ps[st.1[k] as int].len() ==> in_seq(
            st.1.take(k),
            #[trigger] ps[st.1[k] as int][j],
        )
}

/// The depth-first step preserves the traversal invariants. Nodes that are
/// marked but not yet ordered are the ones whose visits are still underway;
/// they all lie strictly above `v`, and the step leaves that set unchanged.
proof fn lemma_visit_ok(ps: Seq<Seq<usize>>, v: usize, st: (Set<usize>, Seq<usize>))
    requires
        wf_parents(ps),
        (v as int) < ps.len(),
        ord_ok(ps, st),
        forall|x: usize| #[trigger] st.0.contains(x) && !in_seq(st.1, x) ==> (x as int) > v as int,
    ensures
        ord_ok(ps, visit(ps, v, st)),
        visit(ps, v, st).1.len() >= st.1.len(),
        forall|k: int| 0 <= k < st.1.len() ==> visit(ps, v, st).1[k] == st.1[k],
        forall|x: usize|
            #[trigger] visit(ps, v, st).0.contains(x) <==> st.0.contains(x) || in_seq(
                visit(ps, v, st).1,
                x,
            ),
        forall|x: usize|
            (#[trigger] visit(ps, v, st).0.contains(x) && !in_seq(visit(ps, v, st).1, x)) <==> (
            st.0.contains(x) && !in_seq(st.1, x)),
        st.0.contains(v) || in_seq(visit(ps, v, st).1, v),
    decreases v as int + 1, 0int,
{
    if st.0.contains(v) {
    } else {
        let st_ins = (st.0.insert(v), st.1);
        assert(!in_seq(st.1, v));
        assert(st_ins.1 == st.1);
        assert forall|k: int| 0 <= k < st_ins.1.len() implies st_ins.0.contains(
            #[trigger] st_ins.1[k],
        ) by {
            assert(st.0.contains(st.1[k]));
        }
        assert(ord_ok(ps, st_ins));
        lemma_visit_parents_ok(ps, v, 0, st_ins);
        let st1 = visit_parents(ps, v, 0, st_ins);
        assert(!in_seq(st1.1, v));
        let fin = (st1.0, st1.1.push(v));
        assert(visit(ps, v, st) == fin);
        assert(fin.1.no_duplicates()) by {
            assert forall|k: int, l: int|
                0 <= k < fin.1.len() && 0 <= l < fin.1.len() && k != l implies #[trigger] fin.1[k]
                != #[trigger] fin.1[l] by {
                if k < fin.1.len() - 1 && l < fin.1.len() - 1 {
                    assert(st1.1.no_duplicates());
                    assert(st1.1[k] != st1.1[l]);
                } else if k == fin.1.len() - 1 {
                    if fin.1[k] == fin.1[l] {
                        assert(st1.1[l] == v);
                        assert(in_seq(st1.1, v));
                    }
                } else {
                    if fin.1[k] == fin.1[l] {
                        assert(st1.1[k] == v);
                        assert(in_seq(st1.1, v));
                    }
                }
            }
        }
        assert forall|k: int, j: int|
            0 <= k < fin.1.len() && 0 <= j < ps[fin.1[k] as int].len() implies in_seq(
            fin.1.take(k),
            #[trigger] ps[fin.1[k] as int][j],
        ) by {
            if k < fin.1.len() - 1 {
                assert(fin.1[k] == st1.1[k]);
                assert(in_seq(st1.1.take(k), ps[st1.1[k] as int][j]));
                let q = choose|q: int|
                    0 <= q < st1.1.take(k).len() && st1.1.take(k)[q] == ps[st1.1[k] as int][j];
                assert(fin.1.take(k)[q] == ps[fin.1[k] as int][j]);
            } else {
                assert(fin.1[k] == v);
                let p = ps[v as int][j];
                assert(in_seq(st1.1, p));
                let q = choose|q: int| 0 <= q < st1.1.len() && st1.1[q] == p;
                assert(fin.1.take(k)[q] == p);
            }
        }
        assert forall|k: int| 0 <= k < fin.1.len() implies fin.0.contains(#[trigger] fin.1[k]) by {
            if k < fin.1.len() - 1 {
                assert(st1.0.contains(st1.1[k]));
            } else {
                assert(st_ins.0.contains(v));
            }
        }
        assert forall|k: int| 0 <= k < fin.1.len() implies (#[trigger] fin.1[k] as int)
            < ps.len() by {
            if k < fin.1.len() - 1 {
                assert(st1.1[k] == fin.1[k]);
            }
        }
        assert(ord_ok(ps, fin));
        assert forall|x: usize|
            #[trigger] fin.0.contains(x) implies st.0.contains(x) || in_seq(fin.1, x) by {
            if !st.0.contains(x) {
                if x == v {
                    assert(fin.1[fin.1.len() - 1] == v);
                } else {
                    if in_seq(st1.1, x) {
                        let q = choose|q: int| 0 <= q < st1.1.len() && st1.1[q] == x;
                        assert(fin.1[q] == x);
                    }
                }
            }
        }
        assert forall|x: usize|
            st.0.contains(x) || in_seq(fin.1, x) implies #[trigger] fin.0.contains(x) by {
            if in_seq(fin.1, x) {
                let q = choose|q: int| 0 <= q < fin.1.len() && fin.1[q] == x;
                if q < fin.1.len() - 1 {
                    assert(st1.0.contains(st1.1[q]));
                } else {
                    assert(st_ins.0.contains(v));
                }
            }
        }
        assert forall|x: usize|
            (#[trigger] fin.0.contains(x) && !in_seq(fin.1, x)) implies (st.0.contains(x)
            && !in_seq(st.1, x)) by {
            if fin.0.contains(x) && !in_seq(fin.1, x) {
                assert(!in_seq(st1.1, x)) by {
                    if in_seq(st1.1, x) {
                        let q = choose|q: int| 0 <= q < st1.1.len() && st1.1[q] == x;
                        assert(fin.1[q] == x);
                    }
                }
                assert(st_ins.0.contains(x) && !in_seq(st_ins.1, x));
                assert(x != v) by {
                    assert(fin.1[fin.1.len() - 1] == v);
                }
            }
        }
        assert forall|x: usize|
            (#[trigger] st.0.contains(x) && !in_seq(st.1, x)) implies (fin.0.contains(x)
            && !in_seq(fin.1, x)) by {
            if st.0.contains(x) && !in_seq(st.1, x) {
                assert((x as int) > v as int);
                assert(st_ins.0.contains(x) && !in_seq(st_ins.1, x));
                assert(fin.0.contains(x));
                assert(!in_seq(st1.1, x));
                if in_seq(fin.1, x) {
                    let q = choose|q: int| 0 <= q < fin.1.len() && fin.1[q] == x;
                    if q < fin.1.len() - 1 {
                        assert(st1.1[q] == x);
                    } else {
                        assert(x == v);
                    }
                }
            }
        }
        assert(fin.1[fin.1.len() - 1] == v);
        assert(in_seq(fin.1, v));
    }
}

/// Visiting the parents of `v` from position `j` preserves the traversal
/// invariants, leaves the set of underway nodes unchanged, and lands every
/// parent from position `j` on in the order.
proof fn lemma_visit_parents_ok(ps: Seq<Seq<usize>>, v: usize, j: int, st: (Set<usize>, Seq<usize>))
    requires
        wf_parents(ps),
        (v as int) < ps.len(),
        0 <= j <= ps[v as int].len(),
        ord_ok(ps, st),
        forall|x: usize| #[trigger] st.0.contains(x) && !in_seq(st.1, x) ==> (x as int) >= v as int,
    ensures
        ord_ok(ps, visit_parents(ps, v, j, st)),
        visit_parents(ps, v, j, st).1.len() >= st.1.len(),
        forall|k: int| 0 <= k < st.1.len() ==> visit_parents(ps, v, j, st).1[k] == st.1[k],
        forall|x: usize|
            #[trigger] visit_parents(ps, v, j, st).0.contains(x) <==> st.0.contains(x) || in_seq(
                visit_parents(ps, v, j, st).1,
                x,
            ),
        forall|x: usize|
            (#[trigger] visit_parents(ps, v, j, st).0.contains(x) && !in_seq(
                visit_parents(ps, v, j, st).1,
                x,
            )) <==> (st.0.contains(x) && !in_seq(st.1, x)),
        forall|jj: int|
            j <= jj < ps[v as int].len() ==> in_seq(
                visit_parents(ps, v, j, st).1,
                #[trigger] ps[v as int][jj],
            ),
    decreases v as int, ps[v as int].len() - j,
{
    if j < ps[v as int].len() {
        let p = ps[v as int][j];
        assert((p as int) < v as int);
        lemma_visit_ok(ps, p, st);
        let stp = visit(ps, p, st);
        assert(in_seq(stp.1, p)) by {
            if st.0.contains(p) {
                assert(in_seq(st.1, p)) by {
                    if !in_seq(st.1, p) {
                        assert((p as int) >= v as int);
                    }
                }
                let q = choose|q: int| 0 <= q < st.1.len() && st.1[q] == p;
                assert(stp.1[q] == p);
            }
        }
        lemma_visit_parents_ok(ps, v, j + 1, stp);
        let fin = visit_parents(ps, v, j + 1, stp);
        assert(in_seq(fin.1, p)) by {
            let q = choose|q: int| 0 <= q < stp.1.len() && stp.1[q] == p;
            assert(fin.1[q] == p);
        }
        assert forall|k: int| 0 <= k < st.1.len() implies visit_parents(ps, v, j, st).1[k]
            == st.1[k] by {
            assert(stp.1[k] == st.1[k]);
            assert(fin.1[k] == stp.1[k]);
        }
    }
}

/// The traversal order of a well-formed graph is a topological order of
/// the nodes reachable from the root: no node appears twice, every entry
/// is a real node, each node's parents occur before it, and the root
/// closes the order.
pub proof fn lemma_topo_props(ps: Seq<Seq<usize>>, root: usize)
    requires
        wf_parents(ps),
        (root as int) < ps.len(),
    ensures
        topo_of(ps, root).no_duplicates(),
        forall|k: int|
            0 <= k < topo_of(ps, root).len() ==> (#[trigger] topo_of(ps, root)[k] as int)
                < ps.len(),
        forall|k: int, j: int|
            0 <= k < topo_of(ps, root).len() && 0 <= j < ps[topo_of(ps, root)[k] as int].len()
                ==> in_seq(
                topo_of(ps, root).take(k),
                #[trigger] ps[topo_of(ps, root)[k] as int][j],
            ),
        topo_of(ps, root).len() >= 1,
        topo_of(ps, root).last() == root,
{
    let st0 = (Set::<usize>::empty(), Seq::<usize>::empty());
    lemma_visit_ok(ps, root, st0);
    assert(topo_of(ps, root) == visit(ps, root, st0).1);
    assert(in_seq(visit(ps, root, st0).1, root));
    let st1 = visit_parents(ps, root, 0, (st0.0.insert(root), st0.1));
    assert(visit(ps, root, st0).1 == st1.1.push(root));
}

} // verus!

verus! {

/// Propagation of `v`'s first `j` contributions keeps the number of
/// accumulators.
proof fn lemma_contribs_len(ps: Seq<Seq<usize>>, ls: Seq<Seq<u64>>, grads: Seq<u64>, v: int, j: int)
    requires
        forall|t: int| 0 <= t < j ==> 0 <= (#[trigger] ps[v][t] as int) < grads.len(),
    ensures
        contribs(ps, ls, grads, v, j).len() == grads.len(),
    decreases j,
{
    if j > 0 {
        lemma_contribs_len(ps, ls, grads, v, j - 1);
    }
}

/// Propagation of `v`'s contributions leaves any accumulator that is not a
/// parent of `v` unchanged.
proof fn lemma_contribs_other(
    ps: Seq<Seq<usize>>,
    ls: Seq<Seq<u64>>,
    grads: Seq<u64>,
    v: int,
    j: int,
    x: int,
)
    requires
        0 <= x < grads.len(),
        forall|t: int| 0 <= t < j ==> 0 <= (#[trigger] ps[v][t] as int) < grads.len(),
        forall|t: int| 0 <= t < j ==> (#[trigger] ps[v][t] as int) != x,
    ensures
        contribs(ps, ls, grads, v, j)[x] == grads[x],
    decreases j,
{
    if j > 0 {
        lemma_contribs_other(ps, ls, grads, v, j - 1, x);
        lemma_contribs_len(ps, ls, grads, v, j - 1);
    }
}

/// The reverse walk keeps the number of accumulators.
proof fn lemma_run_back_len(
    ps: Seq<Seq<usize>>,
    ls: Seq<Seq<u64>>,
    grads: Seq<u64>,
    order: Seq<usize>,
    i: int,
)
    requires
        wf_parents(ps),
        grads.len() == ps.len(),
        forall|k: int| 0 <= k < order.len() ==> (#[trigger] order[k] as int) < ps.len(),
    ensures
        run_back(ps, ls, grads, order, i).len() == grads.len(),
    decreases order.len() - i,
{
    if 0 <= i < order.len() {
        lemma_run_back_len(ps, ls, grads, order, i + 1);
        lemma_contribs_len(
            ps,
            ls,
            run_back(ps, ls, grads, order, i + 1),
            order[i] as int,
            ps[order[i] as int].len() as int,
        );
    }
}

/// Gradient accumulation is complete before propagation: when the reverse
/// walk reaches position `t`, the accumulator of the node ordered there
/// already holds the value it will have at the end of the pass — every
/// consumer of that node stands after it in the order, so every
/// contribution has been added before the node's own rule uses the
/// accumulator as its outgoing gradient. This is what makes a value shared
/// by several sub-expressions accumulate correctly instead of losing a
/// branch.
pub proof fn lemma_all_contributions_received(
    ps: Seq<Seq<usize>>,
    ls: Seq<Seq<u64>>,
    grads: Seq<u64>,
    root: usize,
    t: int,
    i: int,
)
    requires
        wf_parents(ps),
        (root as int) < ps.len(),
        grads.len() == ps.len(),
        0 <= t < topo_of(ps, root).len(),
        0 <= i <= t + 1,
    ensures
        run_back(ps, ls, grads, topo_of(ps, root), i)[topo_of(ps, root)[t] as int] == run_back(
            ps,
            ls,
            grads,
            topo_of(ps, root),
            t + 1,
        )[topo_of(ps, root)[t] as int],
    decreases t + 1 - i,
{
    let ord = topo_of(ps, root);
    lemma_topo_props(ps, root);
    if i <= t {
        lemma_all_contributions_received(ps, ls, grads, root, t, i + 1);
        let prev = run_back(ps, ls, grads, ord, i + 1);
        lemma_run_back_len(ps, ls, grads, ord, i + 1);
        let v = ord[i] as int;
        assert forall|tt: int| 0 <= tt < ps[v].len() implies (#[trigger] ps[v][tt] as int)
            != ord[t] as int by {
            assert(in_seq(ord.take(i), ps[ord[i] as int][tt]));
            let q = choose|q: int| 0 <= q < ord.take(i).len() && ord.take(i)[q] == ps[v][tt];
            if (ps[v][tt] as int) == ord[t] as int {
                assert(ord[q] == ord[t]);
                assert(q != t);
            }
        }
        assert forall|tt: int| 0 <= tt < ps[v].len() implies 0 <= (#[trigger] ps[v][tt] as int)
            < prev.len() by {
            assert((ps[v][tt] as int) < v);
            assert(v < ps.len());
        }
        lemma_contribs_other(ps, ls, prev, v, ps[v].len() as int, ord[t] as int);
    }
}

} // verus!
