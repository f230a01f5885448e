//! `Value`: a handle on one node of a `Tape`, with the operations that
//! record new nodes and the traversals rooted at a node.
use vstd::prelude::*;

use crate::fixed::{fadd, fmul, fpow, ftanh, fx_add, fx_mul, fx_pow, fx_tanh, SCALE};
use crate::tape::{backward_spec, is_topological_order, zero_spec, Node, Op, Tape};

verus! {

/// A tracked scalar: the index of its node on the tape.
#[derive(Clone, Copy, Debug)]
pub struct Value {
    pub id: usize,
}

pub open spec fn leaf(d: int) -> Node {
    Node { data: d as i64, grad: 0, op: Op::Leaf, lhs: 0, rhs: 0 }
}

pub open spec fn add_node(s: Seq<Node>, a: int, b: int) -> Node {
    Node {
        data: fx_add(s[a].data as int, s[b].data as int) as i64,
        grad: 0,
        op: Op::Add,
        lhs: a as usize,
        rhs: b as usize,
    }
}

pub open spec fn mul_node(s: Seq<Node>, a: int, b: int) -> Node {
    Node {
        data: fx_mul(s[a].data as int, s[b].data as int) as i64,
        grad: 0,
        op: Op::Mul,
        lhs: a as usize,
        rhs: b as usize,
    }
}

/// `a` raised to `e`; node `x` holds the exponent as a constant.
pub open spec fn pow_node(s: Seq<Node>, a: int, e: u32, x: int) -> Node {
    Node {
        data: fx_pow(s[a].data as int, e as nat) as i64,
        grad: 0,
        op: Op::Pow(e),
        lhs: a as usize,
        rhs: x as usize,
    }
}

pub open spec fn tanh_node(s: Seq<Node>, a: int) -> Node {
    Node { data: fx_tanh(s[a].data as int) as i64, grad: 0, op: Op::Tanh, lhs: a as usize, rhs: a as usize }
}

/// The nodes that `a.neg()` appends: the constant minus one, then the product.
pub open spec fn neg_nodes(s: Seq<Node>, a: int) -> Seq<Node> {
    let s1 = s.push(leaf(-SCALE));
    s1.push(mul_node(s1, a, s.len() as int))
}

/// The nodes that `a.sub(b)` appends: `b` negated, then added to `a`.
pub open spec fn sub_nodes(s: Seq<Node>, a: int, b: int) -> Seq<Node> {
    let s2 = neg_nodes(s, b);
    s2.push(add_node(s2, a, s2.len() - 1))
}

impl Value {
    pub open spec fn on(self, t: &Tape) -> bool {
        t.wf() && self.id < t@.len()
    }

    /// A new leaf holding `data`, with gradient zero.
    pub fn from(tape: &mut Tape, data: i64) -> (v: Value)
        requires
            old(tape).wf(),
            old(tape)@.len() < usize::MAX,
        ensures
            final(tape).wf(),
            final(tape)@ == old(tape)@.push(leaf(data as int)),
            v.id == old(tape)@.len(),
    {
        let id = tape.push_node(Node { data, grad: 0, op: Op::Leaf, lhs: 0, rhs: 0 });
        Value { id }
    }

    pub fn data(&self, tape: &Tape) -> (r: i64)
        requires
            self.on(tape),
        ensures
            r == tape@[self.id as int].data,
    {
        tape.node(self.id).data
    }

    pub fn gradient(&self, tape: &Tape) -> (r: i64)
        requires
            self.on(tape),
        ensures
            r == tape@[self.id as int].grad,
    {
        tape.node(self.id).grad
    }

    pub fn set_gradient(&self, tape: &mut Tape, gradient: i64)
        requires
            self.on(old(tape)),
        ensures
            final(tape).wf(),
            final(tape)@ == old(tape)@.update(
                self.id as int,
                Node { grad: gradient, ..old(tape)@[self.id as int] },
            ),
    {
        tape.set_grad(self.id, gradient);
    }

    /// Adds `delta` to the data of this node (saturating).
    pub fn adjust(&self, tape: &mut Tape, delta: i64)
        requires
            self.on(old(tape)),
        ensures
            final(tape).wf(),
            final(tape)@ == old(tape)@.update(
                self.id as int,
                Node {
                    data: fx_add(old(tape)@[self.id as int].data as int, delta as int) as i64,
                    ..old(tape)@[self.id as int]
                },
            ),
    {
        let d = fadd(tape.node(self.id).data, delta);
        tape.set_data(self.id, d);
    }

    /// Attaches a debug label; the graph itself is unchanged.
    pub fn set_label(self, tape: &mut Tape, label: &str) -> (r: Value)
        requires
            self.on(old(tape)),
        ensures
            final(tape).wf(),
            final(tape)@ == old(tape)@,
            r == self,
    {
        tape.set_label(self.id, label.to_string());
        self
    }

    pub fn label(&self, tape: &Tape) -> (r: String)
        requires
            self.on(tape),
    {
        tape.label(self.id).clone()
    }

    pub fn add(&self, tape: &mut Tape, other: &Value) -> (r: Value)
        requires
            self.on(old(tape)),
            other.on(old(tape)),
            old(tape)@.len() < usize::MAX,
        ensures
            final(tape).wf(),
            final(tape)@ == old(tape)@.push(add_node(old(tape)@, self.id as int, other.id as int)),
            r.id == old(tape)@.len(),
    {
        let data = fadd(tape.node(self.id).data, tape.node(other.id).data);
        let id = tape.push_node(Node { data, grad: 0, op: Op::Add, lhs: self.id, rhs: other.id });
        Value { id }
    }

    pub fn mul(&self, tape: &mut Tape, other: &Value) -> (r: Value)
        requires
            self.on(old(tape)),
            other.on(old(tape)),
            old(tape)@.len() < usize::MAX,
        ensures
            final(tape).wf(),
            final(tape)@ == old(tape)@.push(mul_node(old(tape)@, self.id as int, other.id as int)),
            r.id == old(tape)@.len(),
    {
        let data = fmul(tape.node(self.id).data, tape.node(other.id).data);
        let id = tape.push_node(Node { data, grad: 0, op: Op::Mul, lhs: self.id, rhs: other.id });
        Value { id }
    }

    /// The product with the constant minus one.
    pub fn neg(&self, tape: &mut Tape) -> (r: Value)
        requires
            self.on(old(tape)),
            old(tape)@.len() + 2 <= usize::MAX,
        ensures
            final(tape).wf(),
            final(tape)@ == neg_nodes(old(tape)@, self.id as int),
            r.id == old(tape)@.len() + 1,
    {
        let m = Value::from(tape, -SCALE);
        self.mul(tape, &m)
    }

    /// `self + (-other)`.
    pub fn sub(&self, tape: &mut Tape, other: &Value) -> (r: Value)
        requires
            self.on(old(tape)),
            other.on(old(tape)),
            old(tape)@.len() + 3 <= usize::MAX,
        ensures
            final(tape).wf(),
            final(tape)@ == sub_nodes(old(tape)@, self.id as int, other.id as int),
            r.id == old(tape)@.len() + 2,
    {
        let n = other.neg(tape);
        self.add(tape, &n)
    }

    /// `self` raised to the constant `exponent`, which is recorded as a leaf
    /// operand and not differentiated.
    pub fn pow(&self, tape: &mut Tape, exponent: u32) -> (r: Value)
        requires
            self.on(old(tape)),
            old(tape)@.len() + 2 <= usize::MAX,
        ensures
            final(tape).wf(),
            final(tape)@ == old(tape)@.push(leaf(exponent * SCALE)).push(
                pow_node(old(tape)@, self.id as int, exponent, old(tape)@.len() as int),
            ),
            r.id == old(tape)@.len() + 1,
    {
        let x = Value::from(tape, exponent as i64 * SCALE);
        let data = fpow(tape.node(self.id).data, exponent);
        let id = tape.push_node(
            Node { data, grad: 0, op: Op::Pow(exponent), lhs: self.id, rhs: x.id },
        );
        Value { id }
    }

    /// `self` raised to the data of the node `exponent`, taken as a constant
    /// and not differentiated. Only whole exponents from zero up are
    /// computed; for any other the tape is left unchanged and `None` returned.
    pub fn pow_value(&self, tape: &mut Tape, exponent: &Value) -> (r: Option<Value>)
        requires
            self.on(old(tape)),
            exponent.on(old(tape)),
            old(tape)@.len() < usize::MAX,
        ensures
            final(tape).wf(),
            ({
                let d = old(tape)@[exponent.id as int].data as int;
                r is Some <==> d >= 0 && d % SCALE as int == 0 && d / SCALE as int <= u32::MAX
            }),
            r is None ==> final(tape)@ == old(tape)@,
            r matches Some(v) ==> v.id == old(tape)@.len() && final(tape)@ == old(tape)@.push(
                pow_node(
                    old(tape)@,
                    self.id as int,
                    (old(tape)@[exponent.id as int].data as int / SCALE as int) as u32,
                    exponent.id as int,
                ),
            ),
    {
        let d = tape.node(exponent.id).data;
        if d < 0 {
            return None;
        }
        let u = d as u64;
        if u % 65536 != 0 || u / 65536 > u32::MAX as u64 {
            return None;
        }
        let e = (u / 65536) as u32;
        let data = fpow(tape.node(self.id).data, e);
        let id = tape.push_node(Node { data, grad: 0, op: Op::Pow(e), lhs: self.id, rhs: exponent.id });
        Some(Value { id })
    }

    pub fn tanh(&self, tape: &mut Tape) -> (r: Value)
        requires
            self.on(old(tape)),
            old(tape)@.len() < usize::MAX,
        ensures
            final(tape).wf(),
            final(tape)@ == old(tape)@.push(tanh_node(old(tape)@, self.id as int)),
            r.id == old(tape)@.len(),
    {
        let data = ftanh(tape.node(self.id).data);
        let id = tape.push_node(Node { data, grad: 0, op: Op::Tanh, lhs: self.id, rhs: self.id });
        Value { id }
    }

    /// Seeds this node's gradient with one and propagates it to every node
    /// it depends on.
    pub fn backward(&self, tape: &mut Tape)
        requires
            self.on(old(tape)),
        ensures
            final(tape).wf(),
            final(tape)@ == backward_spec(old(tape)@, self.id as int),
            final(tape)@.len() == old(tape)@.len(),
    {
        tape.backward(self.id);
    }

    /// Resets the gradient of every node this one depends on, itself included.
    pub fn zero_grad(&self, tape: &mut Tape)
        requires
            self.on(old(tape)),
        ensures
            final(tape).wf(),
            final(tape)@ == zero_spec(old(tape)@, self.id as int),
    {
        tape.zero_grad(self.id);
    }

    /// Indices of the nodes this one depends on, operands first.
    pub fn topological_order(&self, tape: &Tape) -> (order: Vec<usize>)
        requires
            self.on(tape),
        ensures
            is_topological_order(tape@, self.id as int, order@),
    {
        tape.topological_order(self.id)
    }
}

} // verus!
