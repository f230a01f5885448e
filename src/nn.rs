//! Neurons, layers and a multilayer network whose parameters are leaves of a
//! `Tape`, with the squared-error loss and one step of gradient descent.
use vstd::prelude::*;

use rand::Rng;

use crate::fixed::{fmul, fsub, fx_add, fx_mul, fx_sub, SCALE};
use crate::tape::{backward_spec, zero_spec, Node, Tape};
use crate::value::{add_node, leaf, mul_node, pow_node, sub_nodes, tanh_node, Value};

verus! {

/// Why a network call was refused.
#[derive(Clone, Copy, PartialEq, Eq, Debug)]
pub enum NnError {
    /// An input sequence does not have the length that the neurons expect.
    DimensionMismatch,
    /// A loss was asked of no examples.
    EmptyBatch,
    /// The tape cannot hold the nodes that the call would record.
    TapeFull,
}

/// A count given as `i32`, negative ones taken as zero.
pub open spec fn pos(x: i32) -> int {
    if x < 0 {
        0
    } else {
        x as int
    }
}

/// A parameter as it is made: a leaf with no gradient and data in `[-1, 1)`.
pub open spec fn fresh_param(n: Node) -> bool {
    n.op == crate::tape::Op::Leaf && n.grad == 0 && -SCALE <= n.data < SCALE
}

/// Nodes appended by building layers `0..k` of a network over `inputs`
/// inputs with the given widths.
pub open spec fn mlp_new_cost(inputs: i32, widths: Seq<i32>, k: nat) -> int
    decreases k,
{
    if k == 0 {
        0
    } else {
        let w = if k == 1 { pos(inputs) } else { pos(widths[k - 2]) };
        mlp_new_cost(inputs, widths, (k - 1) as nat) + pos(widths[k - 1]) * (w + 1)
    }
}

proof fn lemma_mlp_new_cost_grows(inputs: i32, widths: Seq<i32>, i: nat, n: nat)
    requires
        i <= n,
    ensures
        mlp_new_cost(inputs, widths, i) <= mlp_new_cost(inputs, widths, n),
    decreases n - i,
{
    if i < n {
        lemma_mlp_new_cost_grows(inputs, widths, i, (n - 1) as nat);
        let w = if n == 1 { pos(inputs) } else { pos(widths[n - 2]) };
        let c = pos(widths[n - 1]);
        assert(c * (w + 1) >= 0) by (nonlinear_arith)
            requires c >= 0, w >= 0;
    }
}

/// The ids of a sequence of values.
pub open spec fn ids(v: Seq<Value>) -> Seq<usize> {
    v.map_values(|x: Value| x.id)
}

/// Every value lies on the tape.
pub open spec fn all_on(v: Seq<Value>, t: &Tape) -> bool {
    forall|i: int| 0 <= i < v.len() ==> (#[trigger] v[i]).id < t@.len()
}

/// The id of the running sum after `k` terms: the bias, then each new sum
/// node, which is every second node appended.
pub open spec fn acc_id(base: int, bias: int, k: nat) -> int {
    if k == 0 {
        bias
    } else {
        base + 2 * k - 1
    }
}

/// The tape after the first `k` terms of `bias + Σ w[i] * x[i]`: for each
/// term a product node, then a sum node.
pub open spec fn sum_chain(s: Seq<Node>, ws: Seq<usize>, bias: int, xs: Seq<usize>, k: nat) -> Seq<
    Node,
>
    decreases k,
{
    if k == 0 {
        s
    } else {
        let t = sum_chain(s, ws, bias, xs, (k - 1) as nat);
        let m = t.push(mul_node(t, ws[k - 1] as int, xs[k - 1] as int));
        m.push(add_node(m, acc_id(s.len() as int, bias, (k - 1) as nat), t.len() as int))
    }
}

/// The tape after a neuron's forward pass.
pub open spec fn neuron_tape(s: Seq<Node>, ws: Seq<usize>, bias: int, act: bool, xs: Seq<usize>) -> Seq<
    Node,
> {
    let t = sum_chain(s, ws, bias, xs, ws.len());
    if act {
        t.push(tanh_node(t, acc_id(s.len() as int, bias, ws.len())))
    } else {
        t
    }
}

/// The node that a neuron's forward pass returns.
pub open spec fn neuron_out(s: Seq<Node>, ws: Seq<usize>, bias: int, act: bool) -> int {
    if act {
        (s.len() + 2 * ws.len()) as int
    } else {
        acc_id(s.len() as int, bias, ws.len())
    }
}

/// How many nodes a neuron's forward pass appends.
pub open spec fn neuron_len(w: nat, act: bool) -> nat {
    2 * w + if act {
        1nat
    } else {
        0nat
    }
}

/// The tape after the first `k` neurons of a layer ran on `xs`.
pub open spec fn layer_tape(s: Seq<Node>, ns: Seq<Neuron>, xs: Seq<usize>, k: nat) -> Seq<Node>
    decreases k,
{
    if k == 0 {
        s
    } else {
        let n = ns[k - 1];
        neuron_tape(layer_tape(s, ns, xs, (k - 1) as nat), n.weight_ids(), n.bias_id(), n.activation(), xs)
    }
}

/// The outputs of the first `k` neurons of a layer run on `xs`.
pub open spec fn layer_outs(s: Seq<Node>, ns: Seq<Neuron>, xs: Seq<usize>, k: nat) -> Seq<usize> {
    Seq::new(
        k,
        |j: int|
            neuron_out(layer_tape(s, ns, xs, j as nat), ns[j].weight_ids(), ns[j].bias_id(), ns[j].activation())
                as usize,
    )
}

/// The parameters of the first `k` neurons, each neuron's bias then weights.
pub open spec fn layer_params(ns: Seq<Neuron>, k: nat) -> Seq<usize>
    decreases k,
{
    if k == 0 {
        seq![]
    } else {
        layer_params(ns, (k - 1) as nat) + seq![ns[k - 1].bias_id() as usize] + ns[k - 1].weight_ids()
    }
}

proof fn lemma_neuron_tape(s: Seq<Node>, ws: Seq<usize>, bias: int, act: bool, xs: Seq<usize>)
    ensures
        neuron_tape(s, ws, bias, act, xs).len() == s.len() + neuron_len(ws.len(), act),
{
    lemma_sum_chain(s, ws, bias, xs, ws.len());
}

proof fn lemma_sum_chain(s: Seq<Node>, ws: Seq<usize>, bias: int, xs: Seq<usize>, k: nat)
    ensures
        sum_chain(s, ws, bias, xs, k).len() == s.len() + 2 * k,
        forall|j: int| 0 <= j < s.len() ==> #[trigger] sum_chain(s, ws, bias, xs, k)[j] == s[j],
    decreases k,
{
    if k > 0 {
        lemma_sum_chain(s, ws, bias, xs, (k - 1) as nat);
    }
}

/// Relies on rand's `Rng::gen_range` with the thread-local generator: a
/// draw from the half-open range `lo..hi`, which must not be empty.
#[verifier::external_body]
fn random_in(lo: i64, hi: i64) -> (r: i64)
    requires
        lo < hi,
    ensures
        lo <= r < hi,
{
    rand::thread_rng().gen_range(lo..hi)
}

/// Relies on std's `format!`: a debug label made of a prefix and a number.
#[verifier::external_body]
fn numbered_label(prefix: &str, i: usize) -> (r: String) {
    format!("{}{}", prefix, i)
}

/// A weighted sum of its inputs plus a bias, optionally through tanh.
#[derive(Debug)]
pub struct Neuron {
    weights: Vec<Value>,
    bias: Value,
    with_activation: bool,
}

impl Neuron {
    pub closed spec fn weight_ids(&self) -> Seq<usize> {
        ids(self.weights@)
    }

    pub closed spec fn bias_id(&self) -> int {
        self.bias.id as int
    }

    pub closed spec fn activation(&self) -> bool {
        self.with_activation
    }

    /// All parameters lie on the tape.
    pub open spec fn on(&self, t: &Tape) -> bool {
        &&& t.wf()
        &&& self.bias_id() < t@.len()
        &&& forall|i: int| 0 <= i < self.weight_ids().len() ==> #[trigger] self.weight_ids()[i] < t@.len()
    }

    /// A neuron over `inputs` inputs (none if negative), each weight and the
    /// bias drawn at random from `[-1, 1)`.
    pub fn new(tape: &mut Tape, inputs: i32, with_activation: bool) -> (r: Result<Neuron, NnError>)
        requires
            old(tape).wf(),
        ensures
            final(tape).wf(),
            final(tape)@.len() >= old(tape)@.len(),
            forall|j: int| 0 <= j < old(tape)@.len() ==> #[trigger] final(tape)@[j] == old(tape)@[j],
            r is Ok <==> old(tape)@.len() + pos(inputs) + 1 <= usize::MAX,
            r matches Ok(n) ==> n.on(final(tape)) && n.activation() == with_activation
                && n.weight_ids().len() == pos(inputs)
                && final(tape)@.len() == old(tape)@.len() + pos(inputs) + 1
                && n.bias_id() == old(tape)@.len()
                && fresh_param(final(tape)@[n.bias_id()])
                && forall|i: int| 0 <= i < n.weight_ids().len() ==> #[trigger] n.weight_ids()[i] == old(tape)@.len() + 1 + i
                    && fresh_param(final(tape)@[n.weight_ids()[i] as int]),
            r is Err ==> final(tape)@ == old(tape)@ && r == Err::<Neuron, NnError>(NnError::TapeFull),
    {
        let count: usize = if inputs < 0 { 0 } else { inputs as usize };
        if tape.len() > usize::MAX - 1 - count {
            return Err(NnError::TapeFull);
        }
        let ghost s0 = tape@;
        let b = Value::from(tape, random_in(-SCALE, SCALE));
        let bias = b.set_label(tape, "b");
        let mut weights: Vec<Value> = Vec::new();
        let mut i: usize = 0;
        while i < count
            invariant
                tape.wf(),
                i <= count,
                tape@.len() == s0.len() + 1 + i,
                s0.len() + 1 + count <= usize::MAX,
                bias.id == s0.len(),
                weights@.len() == i,
                forall|j: int| 0 <= j < s0.len() ==> #[trigger] tape@[j] == s0[j],
                fresh_param(tape@[bias.id as int]),
                forall|k: int| 0 <= k < i ==> (#[trigger] weights@[k]).id == s0.len() + 1 + k
                    && fresh_param(tape@[weights@[k].id as int]),
            decreases count - i,
        {
            let w = Value::from(tape, random_in(-SCALE, SCALE));
            let w = w.set_label(tape, &numbered_label("w", i));
            weights.push(w);
            i = i + 1;
        }
        let n = Neuron { weights, bias, with_activation };
        assert forall|k: int| 0 <= k < n.weight_ids().len() implies #[trigger] n.weight_ids()[k] < tape@.len()
            && n.weight_ids()[k] == s0.len() + 1 + k by {
            assert(n.weight_ids()[k] == weights@[k].id);
        }
        Ok(n)
    }

    /// A neuron with the given weights and bias, each recorded as a new leaf.
    pub fn with_parameters(tape: &mut Tape, weights: &Vec<i64>, bias: i64, with_activation: bool) -> (r: Neuron)
        requires
            old(tape).wf(),
            old(tape)@.len() + weights@.len() + 1 <= usize::MAX,
        ensures
            final(tape).wf(),
            r.on(final(tape)),
            r.activation() == with_activation,
            r.weight_ids().len() == weights@.len(),
            r.bias_id() == old(tape)@.len(),
            final(tape)@ == old(tape)@.push(leaf(bias as int)) + Seq::new(weights@.len(), |i: int| leaf(weights@[i] as int)),
            forall|i: int| 0 <= i < weights@.len() ==> #[trigger] r.weight_ids()[i] == old(tape)@.len() + 1 + i,
    {
        let ghost s0 = tape@;
        let b = Value::from(tape, bias);
        let mut ws: Vec<Value> = Vec::new();
        let mut i: usize = 0;
        while i < weights.len()
            invariant
                tape.wf(),
                i <= weights@.len(),
                s0.len() + weights@.len() + 1 <= usize::MAX,
                b.id == s0.len(),
                ws@.len() == i,
                tape@ == s0.push(leaf(bias as int)) + Seq::new(i as nat, |k: int| leaf(weights@[k] as int)),
                forall|k: int| 0 <= k < i ==> (#[trigger] ws@[k]).id == s0.len() + 1 + k,
            decreases weights@.len() - i,
        {
            let w = Value::from(tape, weights[i]);
            ws.push(w);
            i = i + 1;
            assert(tape@ =~= s0.push(leaf(bias as int)) + Seq::new(i as nat, |k: int| leaf(weights@[k] as int)));
        }
        let n = Neuron { weights: ws, bias: b, with_activation };
        assert forall|k: int| 0 <= k < n.weight_ids().len() implies #[trigger] n.weight_ids()[k] < tape@.len() && n.weight_ids()[k] == s0.len() + 1 + k by {
            assert(n.weight_ids()[k] == ws@[k].id);
        }
        n
    }

    /// `tanh(bias + Σ weights[i] * inputs[i])`, or the sum alone without
    /// activation, recorded on the tape node by node.
    pub fn forward(&self, tape: &mut Tape, inputs: &Vec<Value>) -> (r: Result<Value, NnError>)
        requires
            self.on(old(tape)),
            all_on(inputs@, old(tape)),
        ensures
            final(tape).wf(),
            r is Err ==> final(tape)@ == old(tape)@,
            r == Err::<Value, NnError>(NnError::DimensionMismatch) <==> inputs@.len() != self.weight_ids().len(),
            r == Err::<Value, NnError>(NnError::TapeFull) <==> inputs@.len() == self.weight_ids().len()
                && old(tape)@.len() + neuron_len(inputs@.len(), self.activation()) > usize::MAX,
            r is Err ==> r == Err::<Value, NnError>(NnError::DimensionMismatch) || r == Err::<Value, NnError>(
                NnError::TapeFull,
            ),
            r matches Ok(v) ==> final(tape)@ == neuron_tape(old(tape)@, self.weight_ids(), self.bias_id(), self.activation(), ids(inputs@))
                && v.id == neuron_out(old(tape)@, self.weight_ids(), self.bias_id(), self.activation())
                && v.id < final(tape)@.len(),
    {
        let n = self.weights.len();
        if inputs.len() != n {
            return Err(NnError::DimensionMismatch);
        }
        let extra: usize = if self.with_activation { 1 } else { 0 };
        if tape.len() > usize::MAX - extra || n > (usize::MAX - extra - tape.len()) / 2 {
            return Err(NnError::TapeFull);
        }
        let ghost s0 = tape@;
        let ghost ws = self.weight_ids();
        let ghost xs = ids(inputs@);
        let mut sum = self.bias;
        let mut i: usize = 0;
        while i < n
            invariant
                tape.wf(),
                n == ws.len(),
                n == inputs@.len(),
                i <= n,
                s0.len() + 2 * n + extra <= usize::MAX,
                extra == (if self.activation() { 1int } else { 0int }),
                ws == self.weight_ids(),
                xs == ids(inputs@),
                self.bias_id() < s0.len(),
                forall|k: int| 0 <= k < n ==> #[trigger] ws[k] < s0.len(),
                forall|k: int| 0 <= k < n ==> (#[trigger] inputs@[k]).id < s0.len(),
                tape@ == sum_chain(s0, ws, self.bias_id(), xs, i as nat),
                sum.id == acc_id(s0.len() as int, self.bias_id(), i as nat),
            decreases n - i,
        {
            proof {
                lemma_sum_chain(s0, ws, self.bias_id(), xs, i as nat);
                assert(self.weights@[i as int].id == ws[i as int]);
            }
            let p = self.weights[i].mul(tape, &inputs[i]);
            sum = sum.add(tape, &p);
            i = i + 1;
        }
        proof {
            lemma_sum_chain(s0, ws, self.bias_id(), xs, n as nat);
        }
        if self.with_activation {
            Ok(sum.tanh(tape))
        } else {
            Ok(sum)
        }
    }

    /// The bias, then the weights in order.
    pub fn parameters(&self) -> (r: Vec<Value>)
        ensures
            ids(r@) == seq![self.bias_id() as usize] + self.weight_ids(),
    {
        let mut params: Vec<Value> = Vec::new();
        params.push(self.bias);
        let mut i: usize = 0;
        while i < self.weights.len()
            invariant
                i <= self.weights@.len(),
                params@.len() == i + 1,
                params@[0].id == self.bias_id(),
                forall|k: int| 0 <= k < i ==> (#[trigger] params@[k + 1]).id == self.weights@[k].id,
            decreases self.weights@.len() - i,
        {
            params.push(self.weights[i]);
            i = i + 1;
        }
        assert(ids(params@) =~= seq![self.bias_id() as usize] + ids(self.weights@)) by {
            assert forall|k: int| 0 <= k < params@.len() implies ids(params@)[k] == (seq![self.bias_id() as usize] + ids(self.weights@))[k] by {
                if k > 0 {
                    assert(params@[(k - 1) + 1].id == self.weights@[k - 1].id);
                }
            }
        }
        params
    }
}

/// Neurons that all read the same inputs.
#[derive(Debug)]
pub struct Layer {
    neurons: Vec<Neuron>,
    label: String,
    inputs: i32,
    outputs: i32,
}

impl Layer {
    pub closed spec fn neurons(&self) -> Seq<Neuron> {
        self.neurons@
    }

    /// How many inputs each neuron reads.
    pub closed spec fn width(&self) -> nat {
        if self.inputs < 0 {
            0
        } else {
            self.inputs as nat
        }
    }

    pub closed spec fn activation(&self) -> bool {
        self.neurons@.len() > 0 && self.neurons@[0].activation()
    }

    /// Nodes appended by one forward pass.
    pub open spec fn cost(&self) -> nat {
        self.neurons().len() * neuron_len(self.width(), self.activation())
    }

    pub open spec fn on(&self, t: &Tape) -> bool {
        &&& t.wf()
        &&& forall|k: int|
            0 <= k < self.neurons().len() ==> (#[trigger] self.neurons()[k]).on(t)
                && self.neurons()[k].weight_ids().len() == self.width()
                && self.neurons()[k].activation() == self.activation()
    }

    /// `outputs` neurons (none if negative) of `inputs` random weights each,
    /// neuron `k`'s bias and weights being the `k`-th run of new leaves.
    pub fn new(tape: &mut Tape, inputs: i32, outputs: i32, label: String, with_activation: bool) -> (r: Result<Layer, NnError>)
        requires
            old(tape).wf(),
        ensures
            final(tape).wf(),
            final(tape)@.len() >= old(tape)@.len(),
            forall|j: int| 0 <= j < old(tape)@.len() ==> #[trigger] final(tape)@[j] == old(tape)@[j],
            r is Ok <==> old(tape)@.len() + pos(outputs) * (pos(inputs) + 1) <= usize::MAX,
            r is Err ==> r == Err::<Layer, NnError>(NnError::TapeFull),
            r matches Ok(l) ==> l.on(final(tape)) && l.neurons().len() == pos(outputs)
                && l.width() == pos(inputs)
                && l.declared_inputs() == inputs && l.declared_outputs() == outputs
                && final(tape)@.len() == old(tape)@.len() + pos(outputs) * (pos(inputs) + 1)
                && (l.neurons().len() > 0 ==> l.activation() == with_activation)
                && forall|k: int| 0 <= k < l.neurons().len() ==> (#[trigger] l.neurons()[k]).bias_id()
                    == old(tape)@.len() + k * (pos(inputs) + 1)
                    && fresh_param(final(tape)@[l.neurons()[k].bias_id()])
                    && forall|m: int| 0 <= m < l.neurons()[k].weight_ids().len() ==> #[trigger] l.neurons()[k].weight_ids()[m]
                        == l.neurons()[k].bias_id() + 1 + m
                        && fresh_param(final(tape)@[l.neurons()[k].weight_ids()[m] as int]),
    {
        let count: usize = if outputs < 0 { 0 } else { outputs as usize };
        let ghost w = pos(inputs);
        let mut neurons: Vec<Neuron> = Vec::new();
        let ghost s0 = tape@;
        let start = tape.len();
        assert(start == old(tape)@.len());
        let mut i: usize = 0;
        while i < count
            invariant
                tape.wf(),
                i <= count,
                count == pos(outputs),
                s0.len() + i * (w + 1) <= usize::MAX,
                w == pos(inputs),
                s0 == old(tape)@,
                tape@.len() == s0.len() + i * (w + 1),
                forall|j: int| 0 <= j < s0.len() ==> #[trigger] tape@[j] == s0[j],
                neurons@.len() == i,
                forall|k: int| 0 <= k < i ==> (#[trigger] neurons@[k]).on(&tape)
                    && neurons@[k].weight_ids().len() == w
                    && neurons@[k].activation() == with_activation
                    && neurons@[k].bias_id() == s0.len() + k * (w + 1)
                    && fresh_param(tape@[neurons@[k].bias_id()])
                    && forall|m: int| 0 <= m < neurons@[k].weight_ids().len() ==> #[trigger] neurons@[k].weight_ids()[m]
                        == neurons@[k].bias_id() + 1 + m
                        && fresh_param(tape@[neurons@[k].weight_ids()[m] as int]),
            decreases count - i,
        {
            let ghost before = tape@;
            let n = Neuron::new(tape, inputs, with_activation);
            proof {
                assert(i * (w + 1) + (w + 1) == (i + 1) * (w + 1)) by (nonlinear_arith);
                assert((i + 1) * (w + 1) <= count * (w + 1)) by (nonlinear_arith)
                    requires i + 1 <= count, w >= 0;
            }
            match n {
                Ok(n) => {
                    proof {
                        assert forall|k: int| 0 <= k < i implies (#[trigger] neurons@[k]).on(&tape) && fresh_param(tape@[neurons@[k].bias_id()])
                            && forall|m: int| 0 <= m < neurons@[k].weight_ids().len() ==> fresh_param(tape@[#[trigger] neurons@[k].weight_ids()[m] as int]) by {
                            assert(before[neurons@[k].bias_id()] == tape@[neurons@[k].bias_id()]);
                            assert forall|m: int| 0 <= m < neurons@[k].weight_ids().len() implies fresh_param(tape@[#[trigger] neurons@[k].weight_ids()[m] as int]) by {
                                assert(before[neurons@[k].weight_ids()[m] as int] == tape@[neurons@[k].weight_ids()[m] as int]);
                            }
                        }
                    }
                    neurons.push(n);
                },
                Err(e) => {
                    return Err(e);
                },
            }
            i = i + 1;
        }
        Ok(Layer { neurons, label, inputs, outputs })
    }

    pub closed spec fn declared_inputs(&self) -> i32 {
        self.inputs
    }

    pub closed spec fn declared_outputs(&self) -> i32 {
        self.outputs
    }

    /// The debug label given at construction.
    pub fn label(&self) -> (r: &String) {
        &self.label
    }

    /// How many inputs the layer was built for.
    pub fn inputs(&self) -> (r: i32)
        ensures
            r == self.declared_inputs(),
    {
        self.inputs
    }

    /// How many neurons the layer was built with.
    pub fn outputs(&self) -> (r: i32)
        ensures
            r == self.declared_outputs(),
    {
        self.outputs
    }

    /// A layer of the given neurons, each of which must read `inputs`
    /// values and use the same activation as the first.
    pub fn from_neurons(tape: &Tape, neurons: Vec<Neuron>, label: String, inputs: i32) -> (r: Result<Layer, NnError>)
        requires
            tape.wf(),
            neurons@.len() <= i32::MAX,
            forall|k: int| 0 <= k < neurons@.len() ==> (#[trigger] neurons@[k]).on(tape),
        ensures
            r is Ok <==> forall|k: int| 0 <= k < neurons@.len() ==> (#[trigger] neurons@[k]).weight_ids().len() == pos(inputs)
                && neurons@[k].activation() == neurons@[0].activation(),
            r is Err ==> r == Err::<Layer, NnError>(NnError::DimensionMismatch),
            r matches Ok(l) ==> l.on(tape) && l.neurons() == neurons@ && l.width() == pos(inputs)
                && l.declared_inputs() == inputs && l.declared_outputs() == neurons@.len(),
    {
        let w: usize = if inputs < 0 { 0 } else { inputs as usize };
        let mut i: usize = 0;
        while i < neurons.len()
            invariant
                i <= neurons@.len(),
                w == pos(inputs),
                forall|k: int| 0 <= k < i ==> (#[trigger] neurons@[k]).weight_ids().len() == pos(inputs)
                    && neurons@[k].activation() == neurons@[0].activation(),
            decreases neurons@.len() - i,
        {
            if neurons[i].weights.len() != w || neurons[i].with_activation != neurons[0].with_activation {
                return Err(NnError::DimensionMismatch);
            }
            i = i + 1;
        }
        let outputs = neurons.len() as i32;
        Ok(Layer { neurons, label, inputs, outputs })
    }

    /// The nodes one forward pass appends, if that number fits in `usize`.
    pub fn cost_checked(&self) -> (r: Option<usize>)
        ensures
            r matches Some(c) ==> c == self.cost(),
            r is None ==> self.cost() > usize::MAX,
    {
        let w: usize = if self.inputs < 0 { 0 } else { self.inputs as usize };
        let per: usize = if self.neurons.len() > 0 && self.neurons[0].with_activation { 1 } else { 0 };
        proof {
            let c = 2 * w + per;
            assert(self.cost() == self.neurons@.len() * c) by {
                assert(neuron_len(self.width(), self.activation()) == c);
            }
            assert(c * self.neurons@.len() == self.neurons@.len() * c) by (nonlinear_arith);
        }
        match w.checked_mul(2) {
            Some(d) => match d.checked_add(per) {
                Some(c) => c.checked_mul(self.neurons.len()),
                None => {
                    proof {
                        assert((2 * w + per) * self.neurons@.len() >= 2 * w + per) by (nonlinear_arith)
                            requires self.neurons@.len() >= 1;
                    }
                    None
                },
            },
            None => {
                proof {
                    assert((2 * w + per) * self.neurons@.len() >= 2 * w + per) by (nonlinear_arith)
                        requires self.neurons@.len() >= 1;
                }
                None
            },
        }
    }

    /// Each neuron's bias and weights, neuron by neuron.
    pub fn parameters(&self) -> (r: Vec<Value>)
        ensures
            ids(r@) == layer_params(self.neurons(), self.neurons().len()),
    {
        let mut params: Vec<Value> = Vec::new();
        let mut i: usize = 0;
        while i < self.neurons.len()
            invariant
                i <= self.neurons@.len(),
                ids(params@) == layer_params(self.neurons@, i as nat),
            decreases self.neurons@.len() - i,
        {
            let mut p = self.neurons[i].parameters();
            let ghost before = params@;
            let ghost added = p@;
            params.append(&mut p);
            i = i + 1;
            assert(ids(params@) =~= ids(before) + ids(added));
        }
        params
    }

    /// Every neuron run on the same inputs; one output per neuron, in order.
    pub fn forward(&self, tape: &mut Tape, inputs: &Vec<Value>) -> (r: Result<Vec<Value>, NnError>)
        requires
            self.on(old(tape)),
            all_on(inputs@, old(tape)),
        ensures
            final(tape).wf(),
            r is Err ==> final(tape)@ == old(tape)@,
            r == Err::<Vec<Value>, NnError>(NnError::DimensionMismatch) <==> self.neurons().len() > 0
                && inputs@.len() != self.width(),
            r == Err::<Vec<Value>, NnError>(NnError::TapeFull) <==> !(self.neurons().len() > 0
                && inputs@.len() != self.width()) && old(tape)@.len() + self.cost() > usize::MAX,
            r is Err ==> r == Err::<Vec<Value>, NnError>(NnError::DimensionMismatch) || r == Err::<
                Vec<Value>,
                NnError,
            >(NnError::TapeFull),
            r matches Ok(v) ==> v@.len() == self.neurons().len()
                && all_on(v@, final(tape))
                && final(tape)@.len() == old(tape)@.len() + self.cost()
                && final(tape)@ == layer_tape(old(tape)@, self.neurons(), ids(inputs@), self.neurons().len())
                && ids(v@) == layer_outs(old(tape)@, self.neurons(), ids(inputs@), self.neurons().len()),
    {
        let w: usize = if self.inputs < 0 { 0 } else { self.inputs as usize };
        if self.neurons.len() > 0 && inputs.len() != w {
            return Err(NnError::DimensionMismatch);
        }
        let per: usize = if self.neurons.len() > 0 && self.neurons[0].with_activation { 1 } else { 0 };
        let room: usize = usize::MAX - tape.len();
        let fits = match w.checked_mul(2) {
            Some(d) => match d.checked_add(per) {
                Some(c) => match c.checked_mul(self.neurons.len()) {
                    Some(total) => total <= room,
                    None => false,
                },
                None => false,
            },
            None => false,
        };
        proof {
            let c = 2 * w + per;
            assert(self.cost() == self.neurons@.len() * c) by {
                assert(neuron_len(self.width(), self.activation()) == c);
            }
            assert(c * self.neurons@.len() == self.neurons@.len() * c) by (nonlinear_arith);
        }
        if !fits {
            return Err(NnError::TapeFull);
        }
        let ghost s0 = tape@;
        let ghost xs = ids(inputs@);
        let ghost ns = self.neurons@;
        let ghost c = neuron_len(self.width(), self.activation());
        let mut outputs: Vec<Value> = Vec::new();
        let mut i: usize = 0;
        while i < self.neurons.len()
            invariant
                ns == self.neurons@,
                xs == ids(inputs@),
                tape.wf(),
                i <= ns.len(),
                s0.len() + ns.len() * c <= usize::MAX,
                c == neuron_len(self.width(), self.activation()),
                ns.len() > 0 ==> inputs@.len() == self.width(),
                forall|k: int| 0 <= k < ns.len() ==> (#[trigger] ns[k]).weight_ids().len() == self.width()
                    && ns[k].activation() == self.activation()
                    && ns[k].bias_id() < s0.len()
                    && forall|m: int| 0 <= m < ns[k].weight_ids().len() ==> #[trigger] ns[k].weight_ids()[m] < s0.len(),
                all_on(inputs@, old(tape)),
                tape@.len() == s0.len() + i * c,
                s0 == old(tape)@,
                tape@ == layer_tape(s0, ns, xs, i as nat),
                ids(outputs@) == layer_outs(s0, ns, xs, i as nat),
                all_on(outputs@, &tape),
                outputs@.len() == i,
            decreases ns.len() - i,
        {
            proof {
                assert(i * c + c == (i + 1) * c) by (nonlinear_arith);
                assert((i + 1) * c <= ns.len() * c) by (nonlinear_arith)
                    requires i + 1 <= ns.len();
            }
            let ghost before = tape@;
            let ghost prev = outputs@;
            let o = self.neurons[i].forward(tape, inputs);
            proof {
                lemma_neuron_tape(before, ns[i as int].weight_ids(), ns[i as int].bias_id(), ns[i as int].activation(), xs);
            }
            match o {
                Ok(v) => {
                    outputs.push(v);
                },
                Err(e) => {
                    return Err(e);
                },
            }
            assert(ids(outputs@) =~= ids(prev).push(outputs@[i as int].id));
            assert(forall|k: int| 0 <= k < i ==> outputs@[k] == prev[k]);
            assert(before == layer_tape(s0, ns, xs, i as nat));
            i = i + 1;
            assert(ids(outputs@) =~= layer_outs(s0, ns, xs, i as nat));
        }
        proof {
            assert(ns.len() * c == self.cost());
        }
        Ok(outputs)
    }
}

proof fn lemma_layer_on_grow(l: &Layer, t1: &Tape, t2: &Tape)
    requires
        l.on(t1),
        t2.wf(),
        t2@.len() >= t1@.len(),
    ensures
        l.on(t2),
{
    assert forall|k: int| 0 <= k < l.neurons().len() implies (#[trigger] l.neurons()[k]).on(t2) by {
        assert(l.neurons()[k].on(t1));
    }
}

/// The tape and the outputs after the first `k` layers ran in turn.
pub open spec fn mlp_run(s: Seq<Node>, ls: Seq<Layer>, xs: Seq<usize>, k: nat) -> (Seq<Node>, Seq<usize>)
    decreases k,
{
    if k == 0 {
        (s, xs)
    } else {
        let (t, ys) = mlp_run(s, ls, xs, (k - 1) as nat);
        let ns = ls[k - 1].neurons();
        (layer_tape(t, ns, ys, ns.len()), layer_outs(t, ns, ys, ns.len()))
    }
}

/// Nodes appended by the first `k` layers.
pub open spec fn mlp_cost(ls: Seq<Layer>, k: nat) -> nat
    decreases k,
{
    if k == 0 {
        0
    } else {
        mlp_cost(ls, (k - 1) as nat) + ls[k - 1].cost()
    }
}

/// The parameters of the first `k` layers, layer by layer.
pub open spec fn mlp_params(ls: Seq<Layer>, k: nat) -> Seq<usize>
    decreases k,
{
    if k == 0 {
        seq![]
    } else {
        mlp_params(ls, (k - 1) as nat) + layer_params(ls[k - 1].neurons(), ls[k - 1].neurons().len())
    }
}

/// The tape after the squared errors of the first `k` outputs were summed
/// onto a zero leaf; the running sum is always the newest node.
pub open spec fn loss_chain(s: Seq<Node>, ys: Seq<usize>, ps: Seq<usize>, k: nat) -> Seq<Node>
    decreases k,
{
    if k == 0 {
        s.push(leaf(0))
    } else {
        let t = loss_chain(s, ys, ps, (k - 1) as nat);
        let t1 = sub_nodes(t, ys[k - 1] as int, ps[k - 1] as int);
        let t2 = t1.push(leaf(2 * SCALE)).push(pow_node(t1, t1.len() - 1, 2, t1.len() as int));
        t2.push(add_node(t2, t.len() - 1, t2.len() - 1))
    }
}

/// The ids of each example of a batch.
pub open spec fn batch_ids(b: Seq<Vec<Value>>) -> Seq<Seq<usize>> {
    b.map_values(|v: Vec<Value>| ids(v@))
}

/// The tape and the node of the running sum after the first `k` examples
/// of a batch were run through the layers and their squared errors summed.
pub open spec fn batch_run(s: Seq<Node>, ls: Seq<Layer>, xs: Seq<Seq<usize>>, ys: Seq<Seq<usize>>, k: nat) -> (Seq<Node>, int)
    decreases k,
{
    if k == 0 {
        (s, 0)
    } else {
        let (t, total) = batch_run(s, ls, xs, ys, (k - 1) as nat);
        let (t1, outs) = mlp_run(t, ls, xs[k - 1], ls.len());
        let t2 = loss_chain(t1, ys[k - 1], outs, ys[k - 1].len());
        let l = t2.len() - 1;
        if k == 1 {
            (t2, l)
        } else {
            (t2.push(add_node(t2, total, l)), t2.len() as int)
        }
    }
}

/// An example that the network accepts: the input fits the first layer
/// (when it has neurons), and the target is as long as the output.
pub open spec fn example_ok(ls: Seq<Layer>, x_len: nat, y_len: nat) -> bool {
    if ls.len() == 0 {
        y_len == x_len
    } else {
        (ls[0].neurons().len() > 0 ==> x_len == ls[0].width()) && y_len == ls[ls.len() - 1].neurons().len()
    }
}

/// Inputs and targets pair up, and every example is accepted.
pub open spec fn batch_shaped(ls: Seq<Layer>, xs: Seq<Vec<Value>>, ys: Seq<Vec<Value>>) -> bool {
    &&& xs.len() == ys.len()
    &&& forall|k: int| 0 <= k < xs.len() ==> example_ok(ls, (#[trigger] xs[k])@.len(), ys[k]@.len())
}

/// Nodes appended for the first `k` examples of a batch, `mc` being what one
/// forward pass appends: the pass, the loss, and the running sum.
pub open spec fn batch_cost(mc: nat, ys: Seq<Vec<Value>>, k: nat) -> nat
    decreases k,
{
    if k == 0 {
        0
    } else {
        batch_cost(mc, ys, (k - 1) as nat) + mc + 1 + 6 * ys[k - 1]@.len() + if k > 1 {
            1nat
        } else {
            0nat
        }
    }
}

proof fn lemma_batch_cost_grows(mc: nat, ys: Seq<Vec<Value>>, i: nat, n: nat)
    requires
        i <= n,
    ensures
        batch_cost(mc, ys, i) <= batch_cost(mc, ys, n),
    decreases n - i,
{
    if i < n {
        lemma_batch_cost_grows(mc, ys, i, (n - 1) as nat);
    }
}

proof fn lemma_mlp_run_len(s: Seq<Node>, ls: Seq<Layer>, xs: Seq<usize>)
    ensures
        mlp_run(s, ls, xs, ls.len()).1.len() == if ls.len() == 0 {
            xs.len()
        } else {
            ls[ls.len() - 1].neurons().len()
        },
{
}

proof fn lemma_layer_params_below(ns: Seq<Neuron>, k: nat, n: nat)
    requires
        k <= ns.len(),
        forall|j: int| 0 <= j < k ==> (#[trigger] ns[j]).bias_id() < n && forall|m: int|
            0 <= m < ns[j].weight_ids().len() ==> #[trigger] ns[j].weight_ids()[m] < n,
    ensures
        forall|i: int| 0 <= i < layer_params(ns, k).len() ==> #[trigger] layer_params(ns, k)[i] < n,
    decreases k,
{
    if k > 0 {
        lemma_layer_params_below(ns, (k - 1) as nat, n);
        let a = layer_params(ns, (k - 1) as nat);
        let b = seq![ns[k - 1].bias_id() as usize];
        let c = ns[k - 1].weight_ids();
        assert forall|i: int| 0 <= i < layer_params(ns, k).len() implies #[trigger] layer_params(ns, k)[i] < n by {
            if i < a.len() {
                assert(layer_params(ns, k)[i] == a[i]);
            } else if i == a.len() {
                assert(layer_params(ns, k)[i] == b[0]);
            } else {
                assert(layer_params(ns, k)[i] == c[i - a.len() - 1]);
            }
        }
    }
}

proof fn lemma_mlp_params_below(ls: Seq<Layer>, k: nat, t: &Tape)
    requires
        k <= ls.len(),
        forall|j: int| 0 <= j < k ==> (#[trigger] ls[j]).on(t),
    ensures
        forall|i: int| 0 <= i < mlp_params(ls, k).len() ==> #[trigger] mlp_params(ls, k)[i] < t@.len(),
    decreases k,
{
    if k > 0 {
        lemma_mlp_params_below(ls, (k - 1) as nat, t);
        let l = ls[k - 1];
        assert(l.on(t));
        assert forall|j: int| 0 <= j < l.neurons().len() implies (#[trigger] l.neurons()[j]).bias_id() < t@.len() && forall|m: int|
            0 <= m < l.neurons()[j].weight_ids().len() ==> #[trigger] l.neurons()[j].weight_ids()[m] < t@.len() by {
            assert(l.neurons()[j].on(t));
        }
        lemma_layer_params_below(l.neurons(), l.neurons().len(), t@.len());
        let a = mlp_params(ls, (k - 1) as nat);
        let b = layer_params(l.neurons(), l.neurons().len());
        assert forall|i: int| 0 <= i < mlp_params(ls, k).len() implies #[trigger] mlp_params(ls, k)[i] < t@.len() by {
            if i < a.len() {
                assert(mlp_params(ls, k)[i] == a[i]);
            } else {
                assert(mlp_params(ls, k)[i] == b[i - a.len()]);
            }
        }
    }
}

proof fn lemma_mlp_cost_grows(ls: Seq<Layer>, i: nat, n: nat)
    requires
        i <= n,
    ensures
        mlp_cost(ls, i) <= mlp_cost(ls, n),
    decreases n - i,
{
    if i < n {
        lemma_mlp_cost_grows(ls, i, (n - 1) as nat);
    }
}

/// One gradient-descent move: `d - step * g`.
pub open spec fn descend(d: int, g: int, step: int) -> int {
    fx_add(d, fx_sub(0, fx_mul(step, g)))
}

/// The tape after the first `k` parameters of `ps` moved against their
/// gradients.
pub open spec fn update_spec(s: Seq<Node>, ps: Seq<usize>, step: int, k: nat) -> Seq<Node>
    decreases k,
{
    if k == 0 {
        s
    } else {
        let t = update_spec(s, ps, step, (k - 1) as nat);
        let j = ps[k - 1] as int;
        t.update(j, Node { data: descend(t[j].data as int, t[j].grad as int, step) as i64, ..t[j] })
    }
}

proof fn lemma_update_shape(s: Seq<Node>, ps: Seq<usize>, step: int, k: nat)
    requires
        forall|i: int| 0 <= i < k ==> #[trigger] ps[i] < s.len(),
        k <= ps.len(),
    ensures
        update_spec(s, ps, step, k).len() == s.len(),
        forall|j: int| 0 <= j < s.len() ==> (#[trigger] update_spec(s, ps, step, k)[j]).op == s[j].op
            && update_spec(s, ps, step, k)[j].lhs == s[j].lhs && update_spec(s, ps, step, k)[j].rhs == s[j].rhs,
    decreases k,
{
    if k > 0 {
        lemma_update_shape(s, ps, step, (k - 1) as nat);
    }
}

/// The learning rate of a training step: one hundredth.
pub const STEP_SIZE: i64 = 655;

/// Layers applied in turn; the last one without activation.
#[derive(Debug)]
pub struct MLP {
    layers: Vec<Layer>,
}

impl MLP {
    pub closed spec fn layers(&self) -> Seq<Layer> {
        self.layers@
    }

    /// Every layer is on the tape, and reads as many inputs as the one
    /// before it has neurons.
    pub open spec fn on(&self, t: &Tape) -> bool {
        &&& t.wf()
        &&& forall|k: int| 0 <= k < self.layers().len() ==> (#[trigger] self.layers()[k]).on(t)
        &&& forall|k: int| 0 < k < self.layers().len() ==> (#[trigger] self.layers()[k]).width() == self.layers()[k - 1].neurons().len()
    }

    /// A network reading `inputs` values, with one layer of each given
    /// width; hidden layers use tanh, the output layer does not.
    pub fn new(tape: &mut Tape, inputs: i32, layers: Vec<i32>) -> (r: Result<MLP, NnError>)
        requires
            old(tape).wf(),
        ensures
            final(tape).wf(),
            final(tape)@.len() >= old(tape)@.len(),
            forall|j: int| 0 <= j < old(tape)@.len() ==> #[trigger] final(tape)@[j] == old(tape)@[j],
            r is Ok <==> old(tape)@.len() + mlp_new_cost(inputs, layers@, layers@.len()) <= usize::MAX,
            r is Err ==> r == Err::<MLP, NnError>(NnError::TapeFull),
            r matches Ok(m) ==> m.on(final(tape)) && m.layers().len() == layers@.len()
                && final(tape)@.len() == old(tape)@.len() + mlp_new_cost(inputs, layers@, layers@.len())
                && (layers@.len() > 0 ==> m.layers()[0].width() == pos(inputs))
                && forall|k: int| 0 <= k < layers@.len() ==> (#[trigger] m.layers()[k]).neurons().len() == pos(layers@[k])
                    && (m.layers()[k].neurons().len() > 0 ==> m.layers()[k].activation() == (k + 1 != layers@.len())),
    {
        let mut built: Vec<Layer> = Vec::new();
        let count = layers.len();
        let ghost s0 = tape@;
        let start = tape.len();
        assert(start == old(tape)@.len());
        let mut i: usize = 0;
        while i < count
            invariant
                tape.wf(),
                count == layers@.len(),
                i <= count,
                s0 == old(tape)@,
                tape@.len() == s0.len() + mlp_new_cost(inputs, layers@, i as nat),
                s0.len() + mlp_new_cost(inputs, layers@, i as nat) <= usize::MAX,
                forall|j: int| 0 <= j < s0.len() ==> #[trigger] tape@[j] == s0[j],
                built@.len() == i,
                forall|k: int| 0 <= k < i ==> (#[trigger] built@[k]).on(&tape),
                i > 0 ==> built@[0].width() == pos(inputs),
                forall|k: int| 0 <= k < i ==> (#[trigger] built@[k]).neurons().len() == pos(layers@[k])
                    && (built@[k].neurons().len() > 0 ==> built@[k].activation() == (k + 1 != layers@.len())),
                forall|k: int| 0 < k < i ==> (#[trigger] built@[k]).width() == pos(layers@[k - 1]),
            decreases count - i,
        {
            let layer_inputs = if i == 0 { inputs } else { layers[i - 1] };
            let with_activation = i != count - 1;
            let ghost before = *tape;
            proof {
                lemma_mlp_new_cost_grows(inputs, layers@, 0, i as nat);
            }
            let l = Layer::new(tape, layer_inputs, layers[i], numbered_label("Layer", i), with_activation);
            proof {
                lemma_mlp_new_cost_grows(inputs, layers@, (i + 1) as nat, count as nat);
                assert forall|j: int| 0 <= j < s0.len() implies #[trigger] tape@[j] == s0[j] by {
                    assert(before@[j] == s0[j]);
                }
            }
            match l {
                Ok(l) => {
                    proof {
                        assert forall|k: int| 0 <= k < i implies (#[trigger] built@[k]).on(&tape) by {
                            lemma_layer_on_grow(&built@[k], &before, &tape);
                        }
                    }
                    built.push(l);
                },
                Err(e) => {
                    return Err(e);
                },
            }
            i = i + 1;
        }
        proof {
            lemma_mlp_new_cost_grows(inputs, layers@, 0, i as nat);
        }
        Ok(MLP { layers: built })
    }

    /// A network of the given layers, each reading as many values as the
    /// one before it has neurons.
    pub fn from_layers(tape: &Tape, layers: Vec<Layer>) -> (r: Result<MLP, NnError>)
        requires
            tape.wf(),
            forall|k: int| 0 <= k < layers@.len() ==> (#[trigger] layers@[k]).on(tape),
        ensures
            r is Ok <==> forall|k: int| 0 < k < layers@.len() ==> (#[trigger] layers@[k]).width() == layers@[k - 1].neurons().len(),
            r is Err ==> r == Err::<MLP, NnError>(NnError::DimensionMismatch),
            r matches Ok(m) ==> m.on(tape) && m.layers() == layers@,
    {
        let mut i: usize = 1;
        while i < layers.len()
            invariant
                1 <= i,
                forall|k: int| 0 < k < i && k < layers@.len() ==> (#[trigger] layers@[k]).width() == layers@[k - 1].neurons().len(),
            decreases layers@.len() - i,
        {
            let w: usize = if layers[i].inputs < 0 { 0 } else { layers[i].inputs as usize };
            if w != layers[i - 1].neurons.len() {
                return Err(NnError::DimensionMismatch);
            }
            i = i + 1;
        }
        Ok(MLP { layers })
    }

    pub fn layer_count(&self) -> (r: usize)
        ensures
            r == self.layers().len(),
    {
        self.layers.len()
    }

    pub fn layer(&self, i: usize) -> (r: &Layer)
        requires
            i < self.layers().len(),
        ensures
            r == &self.layers()[i as int],
    {
        &self.layers[i]
    }

    /// Every parameter, layer by layer.
    pub fn parameters(&self) -> (r: Vec<Value>)
        ensures
            ids(r@) == mlp_params(self.layers(), self.layers().len()),
    {
        let mut params: Vec<Value> = Vec::new();
        let mut i: usize = 0;
        while i < self.layers.len()
            invariant
                i <= self.layers@.len(),
                ids(params@) == mlp_params(self.layers@, i as nat),
            decreases self.layers@.len() - i,
        {
            let mut p = self.layers[i].parameters();
            let ghost before = params@;
            let ghost added = p@;
            params.append(&mut p);
            i = i + 1;
            assert(ids(params@) =~= ids(before) + ids(added));
        }
        params
    }

    /// The inputs run through every layer in turn.
    pub fn forward(&self, tape: &mut Tape, inputs: &Vec<Value>) -> (r: Result<Vec<Value>, NnError>)
        requires
            self.on(old(tape)),
            all_on(inputs@, old(tape)),
        ensures
            final(tape).wf(),
            final(tape)@.len() >= old(tape)@.len(),
            r == Err::<Vec<Value>, NnError>(NnError::DimensionMismatch) <==> self.layers().len() > 0
                && self.layers()[0].neurons().len() > 0 && inputs@.len() != self.layers()[0].width(),
            r == Err::<Vec<Value>, NnError>(NnError::DimensionMismatch) ==> final(tape)@ == old(tape)@,
            r == Err::<Vec<Value>, NnError>(NnError::TapeFull) <==> !(self.layers().len() > 0
                && self.layers()[0].neurons().len() > 0 && inputs@.len() != self.layers()[0].width())
                && old(tape)@.len() + mlp_cost(
                self.layers(),
                self.layers().len(),
            ) > usize::MAX,
            r is Err ==> r == Err::<Vec<Value>, NnError>(NnError::DimensionMismatch) || r == Err::<
                Vec<Value>,
                NnError,
            >(NnError::TapeFull),
            r is Ok ==> final(tape)@.len() == old(tape)@.len() + mlp_cost(self.layers(), self.layers().len()),
            r matches Ok(v) ==> all_on(v@, final(tape)) && (final(tape)@, ids(v@)) == mlp_run(
                old(tape)@,
                self.layers(),
                ids(inputs@),
                self.layers().len(),
            ),
    {
        let ghost s0 = tape@;
        let ghost ls = self.layers@;
        let mut outputs: Vec<Value> = Vec::new();
        let mut j: usize = 0;
        while j < inputs.len()
            invariant
                j <= inputs@.len(),
                outputs@ == inputs@.take(j as int),
            decreases inputs@.len() - j,
        {
            outputs.push(inputs[j]);
            j = j + 1;
            assert(outputs@ =~= inputs@.take(j as int));
        }
        assert(outputs@ =~= inputs@);
        let start = tape.len();
        assert(start == old(tape)@.len());
        let mut i: usize = 0;
        while i < self.layers.len()
            invariant
                ls == self.layers@,
                i <= ls.len(),
                self.on(&tape),
                all_on(outputs@, &tape),
                tape@.len() == s0.len() + mlp_cost(ls, i as nat),
                s0 == old(tape)@,
                (tape@, ids(outputs@)) == mlp_run(s0, ls, ids(inputs@), i as nat),
                i > 0 ==> outputs@.len() == ls[i - 1].neurons().len(),
                i > 0 ==> (ls[0].neurons().len() > 0 ==> inputs@.len() == ls[0].width()),
                i == 0 ==> outputs@ == inputs@,
                s0.len() + mlp_cost(ls, i as nat) <= usize::MAX,
            decreases ls.len() - i,
        {
            let ghost before = *tape;
            assert(self.layers()[i as int].on(&tape));
            assert(i > 0 ==> self.layers()[i as int].width() == self.layers()[i - 1].neurons().len());
            let o = self.layers[i].forward(tape, &outputs);
            match o {
                Ok(v) => {
                    proof {
                        assert forall|k: int| 0 <= k < ls.len() implies (#[trigger] self.layers()[k]).on(&tape) by {
                            assert(self.layers()[k].on(&before));
                            lemma_layer_on_grow(&self.layers()[k], &before, &tape);
                        }
                    }
                    outputs = v;
                },
                Err(e) => {
                    proof {
                        if e == NnError::TapeFull {
                            lemma_mlp_cost_grows(ls, (i + 1) as nat, ls.len());
                        }
                    }
                    return Err(e);
                },
            }
            i = i + 1;
        }
        Ok(outputs)
    }

    /// The squared error of one example: `Σ (truth[i] - pred[i])²`, summed
    /// onto a zero leaf.
    pub fn loss(tape: &mut Tape, ytruth: &Vec<Value>, ypreds: &Vec<Value>) -> (r: Result<Value, NnError>)
        requires
            old(tape).wf(),
            all_on(ytruth@, old(tape)),
            all_on(ypreds@, old(tape)),
        ensures
            final(tape).wf(),
            r is Err ==> final(tape)@ == old(tape)@,
            r == Err::<Value, NnError>(NnError::DimensionMismatch) <==> ytruth@.len() != ypreds@.len(),
            r == Err::<Value, NnError>(NnError::TapeFull) <==> ytruth@.len() == ypreds@.len()
                && old(tape)@.len() + 1 + 6 * ytruth@.len() > usize::MAX,
            r is Err ==> r == Err::<Value, NnError>(NnError::DimensionMismatch) || r == Err::<Value, NnError>(
                NnError::TapeFull,
            ),
            r matches Ok(v) ==> final(tape)@ == loss_chain(old(tape)@, ids(ytruth@), ids(ypreds@), ytruth@.len())
                && v.id == final(tape)@.len() - 1,
            final(tape)@.len() >= old(tape)@.len(),
            r is Ok ==> final(tape)@.len() == old(tape)@.len() + 1 + 6 * ytruth@.len(),
    {
        let n = ytruth.len();
        if ypreds.len() != n {
            return Err(NnError::DimensionMismatch);
        }
        if tape.len() == usize::MAX || n > (usize::MAX - 1 - tape.len()) / 6 {
            return Err(NnError::TapeFull);
        }
        let ghost s0 = tape@;
        let ghost ys = ids(ytruth@);
        let ghost ps = ids(ypreds@);
        let zero = Value::from(tape, 0);
        let mut loss = zero.set_label(tape, "loss");
        let mut i: usize = 0;
        while i < n
            invariant
                tape.wf(),
                i <= n,
                n == ytruth@.len(),
                n == ypreds@.len(),
                ys == ids(ytruth@),
                ps == ids(ypreds@),
                s0.len() + 1 + 6 * n <= usize::MAX,
                forall|k: int| 0 <= k < n ==> (#[trigger] ytruth@[k]).id < s0.len(),
                forall|k: int| 0 <= k < n ==> (#[trigger] ypreds@[k]).id < s0.len(),
                tape@.len() == s0.len() + 1 + 6 * i,
                tape@ == loss_chain(s0, ys, ps, i as nat),
                loss.id == tape@.len() - 1,
            decreases n - i,
        {
            let d = ytruth[i].sub(tape, &ypreds[i]);
            let q = d.pow(tape, 2);
            loss = loss.add(tape, &q);
            i = i + 1;
        }
        Ok(loss)
    }

    /// The nodes one forward pass appends, if that number fits in `usize`.
    pub fn cost_checked(&self) -> (r: Option<usize>)
        ensures
            r matches Some(c) ==> c == mlp_cost(self.layers(), self.layers().len()),
            r is None ==> mlp_cost(self.layers(), self.layers().len()) > usize::MAX,
    {
        let ghost ls = self.layers@;
        let mut total: usize = 0;
        let mut i: usize = 0;
        while i < self.layers.len()
            invariant
                ls == self.layers@,
                i <= ls.len(),
                total == mlp_cost(ls, i as nat),
            decreases ls.len() - i,
        {
            proof {
                lemma_mlp_cost_grows(ls, (i + 1) as nat, ls.len());
            }
            match self.layers[i].cost_checked() {
                Some(c) => {
                    match total.checked_add(c) {
                        Some(t) => {
                            total = t;
                        },
                        None => {
                            return None;
                        },
                    }
                },
                None => {
                    return None;
                },
            }
            i = i + 1;
        }
        Some(total)
    }

    /// Whether an example with inputs and targets of these lengths is accepted.
    pub fn example_fits(&self, x_len: usize, y_len: usize) -> (b: bool)
        ensures
            b == example_ok(self.layers(), x_len as nat, y_len as nat),
    {
        let n = self.layers.len();
        if n == 0 {
            y_len == x_len
        } else {
            let first = &self.layers[0];
            let w: usize = if first.inputs < 0 { 0 } else { first.inputs as usize };
            (first.neurons.len() == 0 || x_len == w) && y_len == self.layers[n - 1].neurons.len()
        }
    }

    /// The mean over a batch of the examples' squared errors.
    pub fn total_loss(&self, tape: &mut Tape, xs: &Vec<Vec<Value>>, ys: &Vec<Vec<Value>>) -> (r: Result<Value, NnError>)
        requires
            self.on(old(tape)),
            forall|k: int| 0 <= k < xs@.len() ==> all_on(#[trigger] xs@[k]@, old(tape)),
            forall|k: int| 0 <= k < ys@.len() ==> all_on(#[trigger] ys@[k]@, old(tape)),
        ensures
            final(tape).wf(),
            final(tape)@.len() >= old(tape)@.len(),
            r == Err::<Value, NnError>(NnError::EmptyBatch) <==> xs@.len() == 0,
            r == Err::<Value, NnError>(NnError::DimensionMismatch) <==> xs@.len() > 0 && !batch_shaped(
                self.layers(),
                xs@,
                ys@,
            ),
            r == Err::<Value, NnError>(NnError::TapeFull) <==> xs@.len() > 0 && batch_shaped(self.layers(), xs@, ys@)
                && old(tape)@.len() + batch_cost(mlp_cost(self.layers(), self.layers().len()), ys@, xs@.len()) + 2 > usize::MAX,
            r is Err ==> final(tape)@ == old(tape)@,
            r matches Ok(v) ==> ({
                let (t, total) = batch_run(old(tape)@, self.layers(), batch_ids(xs@), batch_ids(ys@), xs@.len());
                let t1 = t.push(leaf(SCALE as int / xs@.len() as int));
                &&& final(tape)@ == t1.push(mul_node(t1, total, t.len() as int))
                &&& v.id == t.len() + 1
            }),
    {
        let n = xs.len();
        if n == 0 {
            return Err(NnError::EmptyBatch);
        }
        if ys.len() != n {
            return Err(NnError::DimensionMismatch);
        }
        let mut k: usize = 0;
        while k < n
            invariant
                n == xs@.len(),
                n == ys@.len(),
                k <= n,
                forall|j: int| 0 <= j < k ==> example_ok(self.layers(), (#[trigger] xs@[j])@.len(), ys@[j]@.len()),
                tape.wf(),
                tape@ == old(tape)@,
            decreases n - k,
        {
            if !self.example_fits(xs[k].len(), ys[k].len()) {
                return Err(NnError::DimensionMismatch);
            }
            k = k + 1;
        }
        let ghost mc = mlp_cost(self.layers(), self.layers().len());
        let c = match self.cost_checked() {
            Some(c) => c,
            None => {
                proof {
                    assert(batch_cost(mc, ys@, 1) >= mc);
                    lemma_batch_cost_grows(mc, ys@, 1, n as nat);
                }
                return Err(NnError::TapeFull);
            },
        };
        let room: u128 = (usize::MAX - tape.len()) as u128;
        let mut need: u128 = 0;
        let mut k: usize = 0;
        while k < n
            invariant
                n == ys@.len(),
                k <= n,
                c == mc,
                need == batch_cost(mc, ys@, k as nat),
                need <= room,
                room <= usize::MAX,
                room == usize::MAX - old(tape)@.len(),
                tape.wf(),
                tape@ == old(tape)@,
                batch_shaped(self.layers(), xs@, ys@),
                n == xs@.len(),
                n > 0,
                mc == mlp_cost(self.layers(), self.layers().len()),
            decreases n - k,
        {
            let step: u128 = c as u128 + 1 + 6 * (ys[k].len() as u128) + if k > 0 { 1 } else { 0 };
            need = need + step;
            assert(need == batch_cost(mc, ys@, (k + 1) as nat));
            if need > room {
                proof {
                    lemma_batch_cost_grows(mc, ys@, (k + 1) as nat, n as nat);
                    assert(batch_cost(mc, ys@, n as nat) >= need);
                    assert(old(tape)@.len() + batch_cost(mc, ys@, n as nat) + 2 > usize::MAX);
                    assert(xs@.len() == n);
                }
                return Err(NnError::TapeFull);
            }
            k = k + 1;
        }
        if need + 2 > room {
            return Err(NnError::TapeFull);
        }
        let ghost s0 = tape@;
        let mut total = Value { id: 0 };
        let mut k: usize = 0;
        while k < n
            invariant
                self.on(&tape),
                n == xs@.len(),
                n == ys@.len(),
                n > 0,
                k <= n,
                tape@.len() >= s0.len(),
                forall|j: int| 0 <= j < n ==> all_on(#[trigger] xs@[j]@, &tape),
                forall|j: int| 0 <= j < n ==> all_on(#[trigger] ys@[j]@, &tape),
                k > 0 ==> total.id < tape@.len(),
                s0 == old(tape)@,
                k == 0 ==> tape@ == s0,
                batch_shaped(self.layers(), xs@, ys@),
                mc == mlp_cost(self.layers(), self.layers().len()),
                tape@.len() == s0.len() + batch_cost(mc, ys@, k as nat),
                s0.len() + batch_cost(mc, ys@, n as nat) + 2 <= usize::MAX,
                k > 0 ==> (tape@, total.id as int) == batch_run(s0, self.layers(), batch_ids(xs@), batch_ids(ys@), k as nat),
            decreases n - k,
        {
            let ghost before = *tape;
            assert(batch_ids(xs@)[k as int] == ids(xs@[k as int]@));
            assert(batch_ids(ys@)[k as int] == ids(ys@[k as int]@));
            let ghost prev = batch_run(s0, self.layers(), batch_ids(xs@), batch_ids(ys@), k as nat);
            assert(k == 0 ==> prev.0 == s0);
            assert(before@ == prev.0);
            let ghost run = mlp_run(before@, self.layers(), ids(xs@[k as int]@), self.layers().len());
            proof {
                lemma_batch_cost_grows(mc, ys@, (k + 1) as nat, n as nat);
                lemma_mlp_run_len(before@, self.layers(), ids(xs@[k as int]@));
                assert(example_ok(self.layers(), xs@[k as int]@.len(), ys@[k as int]@.len()));
            }
            let pred = match self.forward(tape, &xs[k]) {
                Ok(p) => p,
                Err(e) => {
                    return Err(e);
                },
            };
            proof {
                assert forall|j: int| 0 <= j < n implies all_on(#[trigger] xs@[j]@, &tape) by {
                    assert(all_on(xs@[j]@, &before));
                }
                assert forall|j: int| 0 <= j < n implies all_on(#[trigger] ys@[j]@, &tape) by {
                    assert(all_on(ys@[j]@, &before));
                }
                assert forall|j: int| 0 <= j < self.layers().len() implies (#[trigger] self.layers()[j]).on(&tape) by {
                    assert(self.layers()[j].on(&before));
                    lemma_layer_on_grow(&self.layers()[j], &before, &tape);
                }
            }
            let ghost mid = *tape;
            assert(mid@ == run.0 && ids(pred@) == run.1);
            let l = match MLP::loss(tape, &ys[k], &pred) {
                Ok(l) => l,
                Err(e) => {
                    return Err(e);
                },
            };
            proof {
                assert forall|j: int| 0 <= j < n implies all_on(#[trigger] xs@[j]@, &tape) by {
                    assert(all_on(xs@[j]@, &mid));
                }
                assert forall|j: int| 0 <= j < n implies all_on(#[trigger] ys@[j]@, &tape) by {
                    assert(all_on(ys@[j]@, &mid));
                }
                assert forall|j: int| 0 <= j < self.layers().len() implies (#[trigger] self.layers()[j]).on(&tape) by {
                    assert(self.layers()[j].on(&mid));
                    lemma_layer_on_grow(&self.layers()[j], &mid, &tape);
                }
            }
            let ghost t2 = loss_chain(run.0, ids(ys@[k as int]@), run.1, ys@[k as int]@.len());
            assert(tape@ == t2 && l.id == t2.len() - 1);
            if k == 0 {
                total = l;
            } else {
                assert(total.id == prev.1);
                if tape.len() == usize::MAX {
                    return Err(NnError::TapeFull);
                }
                let ghost pre = *tape;
                total = total.add(tape, &l);
                proof {
                    assert forall|j: int| 0 <= j < n implies all_on(#[trigger] xs@[j]@, &tape) by {
                        assert(all_on(xs@[j]@, &pre));
                    }
                    assert forall|j: int| 0 <= j < n implies all_on(#[trigger] ys@[j]@, &tape) by {
                        assert(all_on(ys@[j]@, &pre));
                    }
                    assert forall|j: int| 0 <= j < self.layers().len() implies (#[trigger] self.layers()[j]).on(&tape) by {
                        assert(self.layers()[j].on(&pre));
                        lemma_layer_on_grow(&self.layers()[j], &pre, &tape);
                    }
                }
            }
            k = k + 1;
        }
        if tape.len() > usize::MAX - 2 {
            return Err(NnError::TapeFull);
        }
        let inv: i64 = (65536u64 / (n as u64)) as i64;
        let total = total.set_label(tape, "total_loss");
        let scale = Value::from(tape, inv);
        let scale = scale.set_label(tape, "1/n");
        let r = total.mul(tape, &scale);
        Ok(r)
    }

    /// Moves every parameter against its gradient: `data -= step_size * gradient`.
    #[allow(non_snake_case)]
    pub fn updateWeights(&self, tape: &mut Tape, step_size: i64)
        requires
            self.on(old(tape)),
        ensures
            final(tape).wf(),
            final(tape)@ == update_spec(old(tape)@, mlp_params(self.layers(), self.layers().len()), step_size as int, mlp_params(self.layers(), self.layers().len()).len()),
    {
        let params = self.parameters();
        proof {
            lemma_mlp_params_below(self.layers(), self.layers().len(), &*old(tape));
        }
        let ghost s0 = tape@;
        let ghost ps = ids(params@);
        let mut i: usize = 0;
        while i < params.len()
            invariant
                tape.wf(),
                i <= params@.len(),
                ps == ids(params@),
                forall|k: int| 0 <= k < ps.len() ==> #[trigger] ps[k] < s0.len(),
                tape@ == update_spec(s0, ps, step_size as int, i as nat),
            decreases params@.len() - i,
        {
            proof {
                lemma_update_shape(s0, ps, step_size as int, i as nat);
                assert(ps[i as int] == params@[i as int].id);
            }
            let p = params[i];
            let g = p.gradient(tape);
            let d = fmul(step_size, g);
            p.adjust(tape, fsub(0, d));
            i = i + 1;
        }
    }

    /// One training step on a loss node: reset the gradients it depends on,
    /// seed it with one, run the backward pass, then move every parameter.
    pub fn traning_loop(&self, tape: &mut Tape, total_loss: &Value)
        requires
            self.on(old(tape)),
            total_loss.id < old(tape)@.len(),
        ensures
            final(tape).wf(),
            final(tape)@ == update_spec(
                backward_spec(
                    zero_spec(old(tape)@, total_loss.id as int).update(
                        total_loss.id as int,
                        Node { grad: SCALE, ..zero_spec(old(tape)@, total_loss.id as int)[total_loss.id as int] },
                    ),
                    total_loss.id as int,
                ),
                mlp_params(self.layers(), self.layers().len()),
                STEP_SIZE as int,
                mlp_params(self.layers(), self.layers().len()).len(),
            ),
    {
        let ghost before = *tape;
        total_loss.zero_grad(tape);
        total_loss.set_gradient(tape, SCALE);
        total_loss.backward(tape);
        proof {
            assert forall|j: int| 0 <= j < self.layers().len() implies (#[trigger] self.layers()[j]).on(&tape) by {
                assert(self.layers()[j].on(&before));
                lemma_layer_on_grow(&self.layers()[j], &before, &tape);
            }
        }
        self.updateWeights(tape, STEP_SIZE);
    }
}

} // verus!
