//! The network layer: neuron, layer and multi-layer network, built from the
//! graph operations, plus the injected random source used to initialize
//! weights. All three share the `Module` capability: a flat parameter list
//! and a gradient reset.

use crate::engine::{extends, lemma_extends_trans, Graph, Value};
use crate::scalar::{
    add_bits, div_bits, mul_bits, sub_bits, tanh_spec, u53_bits, fdiv, from_u53, fsub, ONE_BITS,
    ZERO_BITS,
};
use vstd::pervasive::VecAdditionalExecFns;
use vstd::prelude::*;

verus! {

#[verifier::external_type_specification]
#[verifier::external_body]
pub struct ExStdRng(rand::rngs::StdRng);

/// The injected source of randomness for weight initialization: a seeded
/// deterministic generator, so that network construction is reproducible.
pub struct RandomSource {
    rng: rand::rngs::StdRng,
}

impl RandomSource {
    /// Relies on `rand::SeedableRng::seed_from_u64`: builds the standard
    /// generator from a seed.
    #[verifier::external_body]
    pub fn from_seed(seed: u64) -> (r: RandomSource) {
        RandomSource { rng: <rand::rngs::StdRng as rand::SeedableRng>::seed_from_u64(seed) }
    }

    /// Relies on `rand::RngCore::next_u64`: the generator's next output.
    /// Nothing is promised of a random value.
    #[verifier::external_body]
    fn next_raw(&mut self) -> (r: u64) {
        rand::RngCore::next_u64(&mut self.rng)
    }

    /// A draw from the uniform grid over [-1, 1): the top 53 random bits,
    /// scaled by 2^-52 and shifted down by one. Exactly which point comes
    /// out is random; the shape of every outcome is fixed.
    pub fn unit(&mut self) -> (r: u64)
        ensures
            exists|u: u64|
                u < 0x20_0000_0000_0000u64 && r == sub_bits(
                    div_bits(u53_bits(u), u53_bits(0x10_0000_0000_0000u64)),
                    ONE_BITS,
                ),
    {
        let raw = self.next_raw();
        let u = raw >> 11u64;
        assert((raw >> 11u64) < 0x20_0000_0000_0000u64) by (bit_vector);
        let uf = from_u53(u);
        let denom = from_u53(0x10_0000_0000_0000);
        let q = fdiv(uf, denom);
        let r = fsub(q, ONE_BITS);
        proof {
            assert(u < 0x20_0000_0000_0000u64 && r == sub_bits(
                div_bits(u53_bits(u), u53_bits(0x10_0000_0000_0000u64)),
                ONE_BITS,
            ));
        }
        r
    }
}

/// The affine fold `((b + w₀·x₀) + w₁·x₁) + …` over the first `k` pairs, in
/// the order the forward pass performs it.
pub open spec fn affine(ws: Seq<u64>, xs: Seq<u64>, b: u64, k: int) -> u64
    decreases k,
{
    if k <= 0 {
        b
    } else {
        add_bits(affine(ws, xs, b, k - 1), mul_bits(ws[k - 1], xs[k - 1]))
    }
}

/// A single neuron: one weight leaf per input, a bias leaf, and optionally
/// a hyperbolic-tangent nonlinearity on the output.
pub struct Neuron {
    pub w: Vec<Value>,
    pub b: Value,
    pub nonlin: bool,
}

/// The neuron's weight values under the given node values.
pub open spec fn wvals_of(n: Neuron, datas: Seq<u64>) -> Seq<u64> {
    Seq::new(n.w@.len(), |i: int| datas[n.w@[i].0 as int])
}

/// What the neuron's forward pass returns, as a value: the affine fold of
/// its weights against the inputs plus the bias, through the hyperbolic
/// tangent when the neuron is nonlinear.
pub open spec fn neuron_out_spec(n: Neuron, datas: Seq<u64>, xs: Seq<u64>) -> u64 {
    let a = affine(wvals_of(n, datas), xs, datas[n.b.0 as int], n.w@.len() as int);
    if n.nonlin {
        tanh_spec(a)
    } else {
        a
    }
}

/// All of the neuron's node handles lie inside a graph of `gn` nodes.
pub open spec fn neuron_wf(n: Neuron, gn: int) -> bool {
    &&& (n.b.0 as int) < gn
    &&& forall|k: int| 0 <= k < n.w@.len() ==> (#[trigger] n.w@[k].0 as int) < gn
}

/// The shared capability of neuron, layer and network: a flat list of the
/// owned parameter leaves, and a reset of their gradient accumulators.
pub trait Module {
    /// The indices of the owned parameter leaves, in a fixed order.
    spec fn params_spec(&self) -> Seq<usize>;

    /// The parameter handles, in the order of `params_spec`.
    fn parameters(&self) -> (r: Vec<Value>)
        ensures
            r@.map_values(|v: Value| v.0) == self.params_spec(),
    ;

    /// Sets every owned parameter's gradient accumulator to zero; no other
    /// node and no other column is touched.
    fn zero_grad(&self, g: &mut Graph)
        requires
            old(g).wf(),
            forall|k: int|
                0 <= k < self.params_spec().len() ==> (#[trigger] self.params_spec()[k] as int)
                    < old(g).n(),
        ensures
            final(g).wf(),
            final(g).n() == old(g).n(),
            final(g).datas@ == old(g).datas@,
            final(g).pview() == old(g).pview(),
            final(g).lview() == old(g).lview(),
            final(g).ops@ == old(g).ops@,
            forall|i: int|
                0 <= i < final(g).n() ==> final(g).grads@[i] == (if exists|t: int|
                    0 <= t < self.params_spec().len() && (#[trigger] self.params_spec()[t] as int)
                        == i {
                    ZERO_BITS
                } else {
                    old(g).grads@[i]
                }),
    {
        let ps = self.parameters();
        let m = ps.len();
        let mut k: usize = 0;
        while k < m
            invariant
                g.wf(),
                g.n() == old(g).n(),
                g.datas@ == old(g).datas@,
                g.pview() == old(g).pview(),
                g.lview() == old(g).lview(),
                g.ops@ == old(g).ops@,
                m == ps@.len(),
                ps@.map_values(|v: Value| v.0) == self.params_spec(),
                forall|t: int|
                    0 <= t < self.params_spec().len() ==> (#[trigger] self.params_spec()[t] as int)
                        < g.n(),
                k <= m,
                forall|i: int|
                    0 <= i < g.n() ==> g.grads@[i] == (if exists|t: int|
                        0 <= t < k && (#[trigger] self.params_spec()[t] as int) == i {
                        ZERO_BITS
                    } else {
                        old(g).grads@[i]
                    }),
            decreases m - k,
        {
            let p = ps[k].0;
            proof {
                assert(self.params_spec()[k as int] == ps@.map_values(|v: Value| v.0)[k as int]);
            }
            let ghost pre = g.grads@;
            g.grads.set(p, ZERO_BITS);
            proof {
                assert forall|i: int| 0 <= i < g.n() implies g.grads@[i] == (if exists|t: int|
                    0 <= t < k as int + 1 && (#[trigger] self.params_spec()[t] as int) == i {
                    ZERO_BITS
                } else {
                    old(g).grads@[i]
                }) by {
                    if i == p as int {
                        assert((self.params_spec()[k as int] as int) == i);
                    } else {
                        assert(g.grads@[i] == pre[i]);
                        if exists|t: int|
                            0 <= t < k as int + 1 && (#[trigger] self.params_spec()[t] as int)
                                == i {
                            let t = choose|t: int|
                                0 <= t < k as int + 1 && (#[trigger] self.params_spec()[t] as int)
                                    == i;
                            assert(t < k as int);
                        }
                    }
                }
            }
            k = k + 1;
        }
    }
}

impl Neuron {
    /// Builds a neuron for `nin` inputs: every weight is a fresh leaf drawn
    /// from the random source's uniform grid over [-1, 1), and the bias is
    /// a fresh leaf holding zero.
    pub fn new(g: &mut Graph, src: &mut RandomSource, nin: u64, nonlin: bool) -> (r: Neuron)
        requires
            old(g).wf(),
            nin as int <= usize::MAX as int,
        ensures
            final(g).wf(),
            extends(*old(g), *final(g)),
            final(g).n() == old(g).n() + nin as int + 1,
            r.w@.len() == nin as int,
            forall|k: int| 0 <= k < nin as int ==> (#[trigger] r.w@[k].0 as int) == old(g).n() + k,
            r.b.0 as int == old(g).n() + nin as int,
            final(g).datas@[r.b.0 as int] == ZERO_BITS,
            r.nonlin == nonlin,
            neuron_wf(r, final(g).n()),
            r.params_spec().len() == nin as int + 1,
            forall|t: int|
                0 <= t < r.params_spec().len() ==> old(g).n() <= (#[trigger] r.params_spec()[t] as int)
                    < final(g).n(),
    {
        let count = nin as usize;
        let mut w: Vec<Value> = Vec::new();
        let mut k: usize = 0;
        while k < count
            invariant
                g.wf(),
                extends(*old(g), *g),
                g.n() == old(g).n() + k as int,
                k <= count,
                w@.len() == k as int,
                forall|t: int| 0 <= t < k as int ==> (#[trigger] w@[t].0 as int) == old(g).n() + t,
            decreases count - k,
        {
            let ghost g0 = *g;
            let wb = src.unit();
            let leaf = Value::new(g, wb);
            proof {
                lemma_extends_trans(*old(g), g0, *g);
            }
            w.push(leaf);
            k = k + 1;
        }
        let ghost g1 = *g;
        let b = Value::new(g, ZERO_BITS);
        proof {
            lemma_extends_trans(*old(g), g1, *g);
        }
        let r = Neuron { w, b, nonlin };
        proof {
            assert(r.params_spec() =~= r.w@.map_values(|v: Value| v.0).push(r.b.0));
        }
        r
    }

    /// The forward pass: folds `weight × input` pairs into the bias, in
    /// order, and applies the hyperbolic tangent when the neuron is
    /// nonlinear. The input vector must pair off exactly with the weights;
    /// a mismatched length is a misuse this signature rejects outright
    /// rather than silently truncating.
    pub fn call(&self, g: &mut Graph, x: &Vec<Value>) -> (r: Value)
        requires
            old(g).wf(),
            neuron_wf(*self, old(g).n()),
            x@.len() == self.w@.len(),
            forall|k: int| 0 <= k < x@.len() ==> (#[trigger] x@[k].0 as int) < old(g).n(),
        ensures
            final(g).wf(),
            extends(*old(g), *final(g)),
            (r.0 as int) < final(g).n(),
            final(g).datas@[r.0 as int] == neuron_out_spec(
                *self,
                old(g).datas@,
                Seq::new(x@.len(), |i: int| old(g).datas@[x@[i].0 as int]),
            ),
    {
        let ghost xs = Seq::new(x@.len(), |i: int| old(g).datas@[x@[i].0 as int]);
        let ghost ws = wvals_of(*self, old(g).datas@);
        let ghost bval = old(g).datas@[self.b.0 as int];
        let mut acc = self.b;
        let m = self.w.len();
        let mut k: usize = 0;
        while k < m
            invariant
                g.wf(),
                extends(*old(g), *g),
                neuron_wf(*self, old(g).n()),
                x@.len() == self.w@.len(),
                forall|t: int| 0 <= t < x@.len() ==> (#[trigger] x@[t].0 as int) < old(g).n(),
                m == self.w@.len(),
                k <= m,
                ws == wvals_of(*self, old(g).datas@),
                xs == Seq::new(x@.len(), |i: int| old(g).datas@[x@[i].0 as int]),
                bval == old(g).datas@[self.b.0 as int],
                (acc.0 as int) < g.n(),
                g.datas@[acc.0 as int] == affine(ws, xs, bval, k as int),
            decreases m - k,
        {
            let ghost g0 = *g;
            let prod = self.w[k].mul(g, x[k]);
            let ghost g1 = *g;
            let next = acc.add(g, prod);
            proof {
                lemma_extends_trans(g0, g1, *g);
                lemma_extends_trans(*old(g), g0, *g);
                assert(g1.datas@[prod.0 as int] == mul_bits(ws[k as int], xs[k as int]));
            }
            acc = next;
            k = k + 1;
        }
        if self.nonlin {
            let ghost g2 = *g;
            let out = acc.tanh(g);
            proof {
                lemma_extends_trans(*old(g), g2, *g);
            }
            out
        } else {
            acc
        }
    }
}

impl Module for Neuron {
    open spec fn params_spec(&self) -> Seq<usize> {
        self.w@.map_values(|v: Value| v.0).push(self.b.0)
    }

    fn parameters(&self) -> (r: Vec<Value>) {
        let mut r: Vec<Value> = Vec::new();
        let m = self.w.len();
        let mut k: usize = 0;
        while k < m
            invariant
                m == self.w@.len(),
                k <= m,
                r@ == self.w@.take(k as int),
            decreases m - k,
        {
            r.push(self.w[k]);
            proof {
                assert(r@ =~= self.w@.take(k as int + 1));
            }
            k = k + 1;
        }
        r.push(self.b);
        proof {
            assert(self.w@.take(m as int) == self.w@);
            assert(r@.map_values(|v: Value| v.0) =~= self.params_spec());
        }
        r
    }
}

} // verus!

verus! {

/// The parameter indices of the first `k` neurons, concatenated in order.
pub open spec fn layer_params(ns: Seq<Neuron>, k: int) -> Seq<usize>
    decreases k,
{
    if k <= 0 {
        Seq::<usize>::empty()
    } else {
        layer_params(ns, k - 1) + ns[k - 1].params_spec()
    }
}

/// A prefix's parameter list does not move when a neuron is appended.
proof fn lemma_layer_params_push(ns: Seq<Neuron>, x: Neuron, k: int)
    requires
        0 <= k <= ns.len(),
    ensures
        layer_params(ns.push(x), k) == layer_params(ns, k),
    decreases k,
{
    if k > 0 {
        lemma_layer_params_push(ns, x, k - 1);
    }
}

/// Length and bounds of a layer's parameter list: with `plen` parameters
/// per neuron, `k` neurons own `k · plen`, all inside the given index range.
proof fn lemma_layer_params_props(ns: Seq<Neuron>, k: int, plen: int, lo: int, hi: int)
    requires
        0 <= k <= ns.len(),
        forall|i: int| 0 <= i < k ==> (#[trigger] ns[i].params_spec()).len() == plen,
        forall|i: int, t: int|
            0 <= i < k && 0 <= t < ns[i].params_spec().len() ==> lo <= (
            #[trigger] ns[i].params_spec()[t] as int) < hi,
    ensures
        layer_params(ns, k).len() == k * plen,
        forall|t: int|
            0 <= t < layer_params(ns, k).len() ==> lo <= (#[trigger] layer_params(ns, k)[t] as int)
                < hi,
    decreases k,
{
    if k > 0 {
        lemma_layer_params_props(ns, k - 1, plen, lo, hi);
        assert((k - 1) * plen + plen == k * plen) by (nonlinear_arith);
    }
}

/// An ordered list of neurons sharing one input width.
pub struct Layer {
    pub neurons: Vec<Neuron>,
}

/// Every neuron's handles lie inside a graph of `gn` nodes.
pub open spec fn layer_wf(l: Layer, gn: int) -> bool {
    forall|i: int| 0 <= i < l.neurons@.len() ==> neuron_wf(#[trigger] l.neurons@[i], gn)
}

/// Every neuron of the layer takes `win` inputs.
pub open spec fn layer_width_ok(l: Layer, win: int) -> bool {
    forall|i: int| 0 <= i < l.neurons@.len() ==> (#[trigger] l.neurons@[i].w@.len()) == win
}

/// What the layer's forward pass returns, as values: one neuron output per
/// neuron, all over the same inputs.
pub open spec fn layer_vals(l: Layer, datas: Seq<u64>, xs: Seq<u64>) -> Seq<u64> {
    Seq::new(l.neurons@.len(), |i: int| neuron_out_spec(l.neurons@[i], datas, xs))
}

/// A neuron's output is unchanged by graph growth: it reads only the
/// weight and bias values, which lie below the bound.
proof fn lemma_neuron_out_congr(n: Neuron, d1: Seq<u64>, d2: Seq<u64>, xs: Seq<u64>, bound: int)
    requires
        neuron_wf(n, bound),
        bound <= d1.len(),
        bound <= d2.len(),
        forall|i: int| 0 <= i < bound ==> d1[i] == d2[i],
    ensures
        neuron_out_spec(n, d1, xs) == neuron_out_spec(n, d2, xs),
{
    assert(wvals_of(n, d1) =~= wvals_of(n, d2));
}

impl Layer {
    /// Builds `nout` neurons of `nin` inputs each, drawing their weights
    /// from the random source in order.
    pub fn new(g: &mut Graph, src: &mut RandomSource, nin: u64, nout: u64, nonlin: bool) -> (r:
        Layer)
        requires
            old(g).wf(),
            nin as int <= usize::MAX as int,
            nout as int <= usize::MAX as int,
            (nin as int + 1) * (nout as int) <= usize::MAX as int,
        ensures
            final(g).wf(),
            extends(*old(g), *final(g)),
            r.neurons@.len() == nout as int,
            forall|i: int|
                0 <= i < nout as int ==> (#[trigger] r.neurons@[i].w@.len()) == nin as int,
            forall|i: int| 0 <= i < nout as int ==> (#[trigger] r.neurons@[i]).nonlin == nonlin,
            layer_wf(r, final(g).n()),
            layer_width_ok(r, nin as int),
            r.params_spec().len() == (nout as int) * (nin as int + 1),
            forall|t: int|
                0 <= t < r.params_spec().len() ==> old(g).n() <= (
                #[trigger] r.params_spec()[t] as int) < final(g).n(),
    {
        let count = nout as usize;
        let mut neurons: Vec<Neuron> = Vec::new();
        let mut k: usize = 0;
        while k < count
            invariant
                g.wf(),
                extends(*old(g), *g),
                k <= count,
                nin as int <= usize::MAX as int,
                neurons@.len() == k as int,
                forall|i: int|
                    0 <= i < k as int ==> (#[trigger] neurons@[i].w@.len()) == nin as int,
                forall|i: int| 0 <= i < k as int ==> (#[trigger] neurons@[i]).nonlin == nonlin,
                forall|i: int| 0 <= i < k as int ==> neuron_wf(#[trigger] neurons@[i], g.n()),
                forall|i: int|
                    0 <= i < k as int ==> (#[trigger] neurons@[i].params_spec()).len() == nin as int
                        + 1,
                forall|i: int, t: int|
                    0 <= i < k as int && 0 <= t < neurons@[i].params_spec().len() ==> old(g).n() <= (
                    #[trigger] neurons@[i].params_spec()[t] as int) < g.n(),
            decreases count - k,
        {
            let ghost g0 = *g;
            let n = Neuron::new(g, src, nin, nonlin);
            proof {
                lemma_extends_trans(*old(g), g0, *g);
            }
            neurons.push(n);
            k = k + 1;
        }
        let r = Layer { neurons };
        proof {
            lemma_layer_params_props(
                r.neurons@,
                nout as int,
                nin as int + 1,
                old(g).n(),
                g.n(),
            );
        }
        r
    }

    /// The forward pass: every neuron over the same input vector, one
    /// output per neuron. The input width must match the layer's.
    pub fn call(&self, g: &mut Graph, x: &Vec<Value>) -> (r: Vec<Value>)
        requires
            old(g).wf(),
            layer_wf(*self, old(g).n()),
            layer_width_ok(*self, x@.len() as int),
            forall|k: int| 0 <= k < x@.len() ==> (#[trigger] x@[k].0 as int) < old(g).n(),
        ensures
            final(g).wf(),
            extends(*old(g), *final(g)),
            r@.len() == self.neurons@.len(),
            forall|i: int| 0 <= i < r@.len() ==> (#[trigger] r@[i].0 as int) < final(g).n(),
            Seq::new(r@.len(), |i: int| final(g).datas@[r@[i].0 as int]) == layer_vals(
                *self,
                old(g).datas@,
                Seq::new(x@.len(), |i: int| old(g).datas@[x@[i].0 as int]),
            ),
    {
        let ghost xs = Seq::new(x@.len(), |i: int| old(g).datas@[x@[i].0 as int]);
        let mut outs: Vec<Value> = Vec::new();
        let m = self.neurons.len();
        let mut k: usize = 0;
        while k < m
            invariant
                g.wf(),
                extends(*old(g), *g),
                layer_wf(*self, old(g).n()),
                layer_width_ok(*self, x@.len() as int),
                forall|t: int| 0 <= t < x@.len() ==> (#[trigger] x@[t].0 as int) < old(g).n(),
                xs == Seq::new(x@.len(), |i: int| old(g).datas@[x@[i].0 as int]),
                m == self.neurons@.len(),
                k <= m,
                outs@.len() == k as int,
                forall|t: int| 0 <= t < k as int ==> (#[trigger] outs@[t].0 as int) < g.n(),
                forall|t: int|
                    0 <= t < k as int ==> g.datas@[#[trigger] outs@[t].0 as int] == neuron_out_spec(
                        self.neurons@[t],
                        old(g).datas@,
                        xs,
                    ),
            decreases m - k,
        {
            let ghost g0 = *g;
            let out = self.neurons[k].call(g, x);
            proof {
                lemma_extends_trans(*old(g), g0, *g);
                assert(Seq::new(x@.len(), |i: int| g0.datas@[x@[i].0 as int]) =~= xs);
                lemma_neuron_out_congr(
                    self.neurons@[k as int],
                    g0.datas@,
                    old(g).datas@,
                    xs,
                    old(g).n(),
                );
            }
            outs.push(out);
            k = k + 1;
        }
        proof {
            assert(Seq::new(outs@.len(), |i: int| g.datas@[outs@[i].0 as int]) =~= layer_vals(
                *self,
                old(g).datas@,
                xs,
            ));
        }
        outs
    }
}

impl Module for Layer {
    open spec fn params_spec(&self) -> Seq<usize> {
        layer_params(self.neurons@, self.neurons@.len() as int)
    }

    fn parameters(&self) -> (r: Vec<Value>) {
        let mut r: Vec<Value> = Vec::new();
        let m = self.neurons.len();
        let mut k: usize = 0;
        while k < m
            invariant
                m == self.neurons@.len(),
                k <= m,
                r@.map_values(|v: Value| v.0) == layer_params(self.neurons@, k as int),
            decreases m - k,
        {
            let mut ps = self.neurons[k].parameters();
            r.append(&mut ps);
            proof {
                assert(r@.map_values(|v: Value| v.0) =~= layer_params(
                    self.neurons@,
                    k as int + 1,
                ));
            }
            k = k + 1;
        }
        r
    }
}

} // verus!

verus! {

/// The parameter indices of the first `k` layers, concatenated in order.
pub open spec fn mlp_params(ls: Seq<Layer>, k: int) -> Seq<usize>
    decreases k,
{
    if k <= 0 {
        Seq::<usize>::empty()
    } else {
        mlp_params(ls, k - 1) + ls[k - 1].params_spec()
    }
}

/// A prefix's parameter list does not move when a layer is appended.
proof fn lemma_mlp_params_push(ls: Seq<Layer>, x: Layer, k: int)
    requires
        0 <= k <= ls.len(),
    ensures
        mlp_params(ls.push(x), k) == mlp_params(ls, k),
    decreases k,
{
    if k > 0 {
        lemma_mlp_params_push(ls, x, k - 1);
    }
}

/// The width feeding layer `i` of a network built over `[nin] + nouts`.
pub open spec fn prev_width(nin: int, nouts: Seq<u64>, i: int) -> int {
    if i <= 0 {
        nin
    } else {
        nouts[i - 1] as int
    }
}

/// How many parameters the first `k` layers of such a network own: each
/// layer contributes `nouts[i] · (width_in + 1)`, one weight per input plus
/// the bias, per neuron.
pub open spec fn mlp_param_count(nin: int, nouts: Seq<u64>, k: int) -> int
    decreases k,
{
    if k <= 0 {
        0
    } else {
        mlp_param_count(nin, nouts, k - 1) + (nouts[k - 1] as int) * (prev_width(nin, nouts, k - 1)
            + 1)
    }
}

/// A layer's outputs are unchanged by graph growth beyond its handles.
proof fn lemma_layer_vals_congr(l: Layer, d1: Seq<u64>, d2: Seq<u64>, xs: Seq<u64>, bound: int)
    requires
        layer_wf(l, bound),
        bound <= d1.len(),
        bound <= d2.len(),
        forall|i: int| 0 <= i < bound ==> d1[i] == d2[i],
    ensures
        layer_vals(l, d1, xs) == layer_vals(l, d2, xs),
{
    assert forall|i: int| 0 <= i < l.neurons@.len() implies neuron_out_spec(l.neurons@[i], d1, xs)
        == neuron_out_spec(l.neurons@[i], d2, xs) by {
        lemma_neuron_out_congr(l.neurons@[i], d1, d2, xs, bound);
    }
    assert(layer_vals(l, d1, xs) =~= layer_vals(l, d2, xs));
}

/// The values a network's forward pass produces after its first `k`
/// layers, starting from the input values.
pub open spec fn mlp_vals(ls: Seq<Layer>, datas: Seq<u64>, xs: Seq<u64>, k: int) -> Seq<u64>
    decreases k,
{
    if k <= 0 {
        xs
    } else {
        layer_vals(ls[k - 1], datas, mlp_vals(ls, datas, xs, k - 1))
    }
}

/// A multi-layer network: layers in order, every one nonlinear except the
/// last, which is linear, so the output range is unconstrained.
pub struct MLP {
    pub layers: Vec<Layer>,
}

/// Every layer's handles lie inside a graph of `gn` nodes.
pub open spec fn mlp_wf(m: MLP, gn: int) -> bool {
    forall|i: int| 0 <= i < m.layers@.len() ==> layer_wf(#[trigger] m.layers@[i], gn)
}

/// Each layer's input width matches what feeds it: the network input for
/// the first, the previous layer's output count after that.
pub open spec fn mlp_wired(m: MLP, in_width: int) -> bool {
    forall|i: int|
        0 <= i < m.layers@.len() ==> layer_width_ok(
            #[trigger] m.layers@[i],
            if i == 0 {
                in_width
            } else {
                m.layers@[i - 1].neurons@.len() as int
            },
        )
}

impl MLP {
    /// Builds the network over sizes `[nin] + nouts`: one layer per entry
    /// of `nouts`, every layer nonlinear but the last. The network owns
    /// exactly `Σ nouts[i] · (width_in + 1)` parameter leaves.
    pub fn new(g: &mut Graph, src: &mut RandomSource, nin: u64, nouts: &Vec<u64>) -> (r: MLP)
        requires
            old(g).wf(),
            nin as int <= usize::MAX as int,
            forall|i: int|
                0 <= i < nouts@.len() ==> (#[trigger] nouts@[i] as int) <= usize::MAX as int,
            forall|i: int|
                0 <= i < nouts@.len() ==> (prev_width(nin as int, nouts@, i) + 1) * (
                #[trigger] nouts@[i] as int) <= usize::MAX as int,
        ensures
            final(g).wf(),
            extends(*old(g), *final(g)),
            r.layers@.len() == nouts@.len(),
            forall|i: int|
                0 <= i < nouts@.len() ==> (#[trigger] r.layers@[i].neurons@.len()) == nouts@[i] as int,
            forall|i: int, j: int|
                0 <= i < nouts@.len() && 0 <= j < r.layers@[i].neurons@.len() ==> (
                #[trigger] r.layers@[i].neurons@[j]).nonlin == (i + 1 != nouts@.len()),
            mlp_wf(r, final(g).n()),
            mlp_wired(r, nin as int),
            r.params_spec().len() == mlp_param_count(nin as int, nouts@, nouts@.len() as int),
            forall|t: int|
                0 <= t < r.params_spec().len() ==> old(g).n() <= (
                #[trigger] r.params_spec()[t] as int) < final(g).n(),
    {
        let count = nouts.len();
        let mut layers: Vec<Layer> = Vec::new();
        let mut prev: u64 = nin;
        let mut i: usize = 0;
        while i < count
            invariant
                g.wf(),
                extends(*old(g), *g),
                count == nouts@.len(),
                i <= count,
                nin as int <= usize::MAX as int,
                forall|t: int|
                    0 <= t < nouts@.len() ==> (#[trigger] nouts@[t] as int) <= usize::MAX as int,
                forall|t: int|
                    0 <= t < nouts@.len() ==> (prev_width(nin as int, nouts@, t) + 1) * (
                    #[trigger] nouts@[t] as int) <= usize::MAX as int,
                prev as int == prev_width(nin as int, nouts@, i as int),
                layers@.len() == i as int,
                forall|t: int|
                    0 <= t < i as int ==> (#[trigger] layers@[t].neurons@.len()) == nouts@[t] as int,
                forall|t: int, j: int|
                    0 <= t < i as int && 0 <= j < layers@[t].neurons@.len() ==> (
                    #[trigger] layers@[t].neurons@[j]).nonlin == (t + 1 != nouts@.len()),
                forall|t: int| 0 <= t < i as int ==> layer_wf(#[trigger] layers@[t], g.n()),
                forall|t: int|
                    0 <= t < i as int ==> layer_width_ok(
                        #[trigger] layers@[t],
                        prev_width(nin as int, nouts@, t),
                    ),
                mlp_params(layers@, i as int).len() == mlp_param_count(
                    nin as int,
                    nouts@,
                    i as int,
                ),
                forall|t: int|
                    0 <= t < mlp_params(layers@, i as int).len() ==> old(g).n() <= (
                    #[trigger] mlp_params(layers@, i as int)[t] as int) < g.n(),
            decreases count - i,
        {
            let width = nouts[i];
            let nonlin = i + 1 != count;
            let ghost g0 = *g;
            let ghost layers0 = layers@;
            let l = Layer::new(g, src, prev, width, nonlin);
            proof {
                lemma_extends_trans(*old(g), g0, *g);
            }
            layers.push(l);
            proof {
                lemma_mlp_params_push(layers0, l, i as int);
                assert(mlp_params(layers@, i as int + 1) == mlp_params(layers0, i as int)
                    + l.params_spec());
            }
            prev = width;
            i = i + 1;
        }
        MLP { layers }
    }

    /// The forward pass: threads the input through every layer in order.
    pub fn call(&self, g: &mut Graph, x: Vec<Value>) -> (r: Vec<Value>)
        requires
            old(g).wf(),
            mlp_wf(*self, old(g).n()),
            mlp_wired(*self, x@.len() as int),
            forall|k: int| 0 <= k < x@.len() ==> (#[trigger] x@[k].0 as int) < old(g).n(),
        ensures
            final(g).wf(),
            extends(*old(g), *final(g)),
            r@.len() == (if self.layers@.len() == 0 {
                x@.len() as int
            } else {
                self.layers@[self.layers@.len() - 1].neurons@.len() as int
            }),
            forall|i: int| 0 <= i < r@.len() ==> (#[trigger] r@[i].0 as int) < final(g).n(),
            Seq::new(r@.len(), |i: int| final(g).datas@[r@[i].0 as int]) == mlp_vals(
                self.layers@,
                old(g).datas@,
                Seq::new(x@.len(), |i: int| old(g).datas@[x@[i].0 as int]),
                self.layers@.len() as int,
            ),
    {
        let ghost xs0 = Seq::new(x@.len(), |i: int| old(g).datas@[x@[i].0 as int]);
        let ghost xlen = x@.len() as int;
        let mut cur = x;
        let count = self.layers.len();
        let mut i: usize = 0;
        while i < count
            invariant
                g.wf(),
                extends(*old(g), *g),
                mlp_wf(*self, old(g).n()),
                mlp_wired(*self, xlen),
                count == self.layers@.len(),
                i <= count,
                cur@.len() == (if i == 0 {
                    xlen
                } else {
                    self.layers@[i as int - 1].neurons@.len() as int
                }),
                forall|t: int| 0 <= t < cur@.len() ==> (#[trigger] cur@[t].0 as int) < g.n(),
                Seq::new(cur@.len(), |t: int| g.datas@[cur@[t].0 as int]) == mlp_vals(
                    self.layers@,
                    old(g).datas@,
                    xs0,
                    i as int,
                ),
            decreases count - i,
        {
            let ghost g0 = *g;
            let ghost cur_xs = Seq::new(cur@.len(), |t: int| g0.datas@[cur@[t].0 as int]);
            let nxt = self.layers[i].call(g, &cur);
            proof {
                lemma_extends_trans(*old(g), g0, *g);
                lemma_layer_vals_congr(
                    self.layers@[i as int],
                    g0.datas@,
                    old(g).datas@,
                    cur_xs,
                    old(g).n(),
                );
                assert(Seq::new(nxt@.len(), |t: int| g.datas@[nxt@[t].0 as int]) == layer_vals(
                    self.layers@[i as int],
                    old(g).datas@,
                    mlp_vals(self.layers@, old(g).datas@, xs0, i as int),
                ));
            }
            cur = nxt;
            i = i + 1;
        }
        cur
    }
}

impl Module for MLP {
    open spec fn params_spec(&self) -> Seq<usize> {
        mlp_params(self.layers@, self.layers@.len() as int)
    }

    fn parameters(&self) -> (r: Vec<Value>) {
        let mut r: Vec<Value> = Vec::new();
        let m = self.layers.len();
        let mut k: usize = 0;
        while k < m
            invariant
                m == self.layers@.len(),
                k <= m,
                r@.map_values(|v: Value| v.0) == mlp_params(self.layers@, k as int),
            decreases m - k,
        {
            let mut ps = self.layers[k].parameters();
            r.append(&mut ps);
            proof {
                assert(r@.map_values(|v: Value| v.0) =~= mlp_params(self.layers@, k as int + 1));
            }
            k = k + 1;
        }
        r
    }
}

} // verus!
