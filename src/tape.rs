//! The computation graph: an append-only arena of nodes whose operands are
//! always older nodes, the reachability traversal over it, and the backward
//! pass that accumulates gradients into every ancestor of a root.
use vstd::prelude::*;

use crate::fixed::{fadd, fmul, fpow, fsub, fx_add, fx_mul, fx_pow, fx_sub, SCALE};

verus! {

/// The operation that produced a node, and so the rule that hands its
/// gradient on to its operands.
#[derive(Clone, Copy, PartialEq, Eq, Debug)]
pub enum Op {
    Leaf,
    Add,
    Mul,
    /// Raised to a constant natural exponent.
    Pow(u32),
    Tanh,
}

/// One node of the graph. `lhs` and `rhs` index the operands; how many of
/// them count is given by `arity(op)`.
#[derive(Clone, Copy, Debug)]
pub struct Node {
    pub data: i64,
    pub grad: i64,
    pub op: Op,
    pub lhs: usize,
    pub rhs: usize,
}

/// The arena that owns every node. A node is identified by its index.
pub struct Tape {
    nodes: Vec<Node>,
    labels: Vec<String>,
}

pub open spec fn arity(op: Op) -> nat {
    match op {
        Op::Leaf => 0,
        Op::Tanh => 1,
        _ => 2,
    }
}

/// Node `j` is an operand of node `k`.
pub open spec fn is_operand(s: Seq<Node>, k: int, j: int) -> bool {
    (arity(s[k].op) >= 1 && s[k].lhs == j) || (arity(s[k].op) == 2 && s[k].rhs == j)
}

/// Every operand is strictly older than the node that uses it, so the graph
/// is acyclic and index order is a topological order.
pub open spec fn nodes_wf(s: Seq<Node>) -> bool {
    forall|k: int|
        0 <= k < s.len() ==> (arity((#[trigger] s[k]).op) >= 1 ==> s[k].lhs < k) && (arity(
            s[k].op,
        ) == 2 ==> s[k].rhs < k)
}

/// Node `j` can be reached from `root` by following operand edges.
pub open spec fn reachable(s: Seq<Node>, root: int, j: int) -> bool
    decreases root - j,
{
    if j < 0 || j > root {
        false
    } else if j == root {
        true
    } else {
        exists|k: int| j < k <= root && #[trigger] is_operand(s, k, j) && reachable(s, root, k)
    }
}

pub open spec fn reach_seq(s: Seq<Node>, root: int) -> Seq<bool> {
    Seq::new(s.len(), |j: int| reachable(s, root, j))
}

/// Data, operation and operands agree; only gradients may differ.
pub open spec fn same_shape(a: Seq<Node>, b: Seq<Node>) -> bool {
    &&& a.len() == b.len()
    &&& forall|j: int|
        0 <= j < a.len() ==> (#[trigger] a[j]).data == b[j].data && a[j].op == b[j].op && a[j].lhs
            == b[j].lhs && a[j].rhs == b[j].rhs
}

pub open spec fn with_grad(n: Node, g: int) -> Node {
    Node { grad: g as i64, ..n }
}

/// Adds `g` into the gradient of node `j`.
pub open spec fn add_grad(s: Seq<Node>, j: int, g: int) -> Seq<Node> {
    s.update(j, with_grad(s[j], fx_add(s[j].grad as int, g)))
}

/// Slope of `x^e`: `e * x^(e-1)`.
pub open spec fn pow_slope(x: int, e: nat) -> int {
    if e == 0 {
        0
    } else {
        fx_mul(e * SCALE, fx_pow(x, (e - 1) as nat))
    }
}

/// Slope of tanh, read from its output `y`: `1 - y²`.
pub open spec fn tanh_slope(y: int) -> int {
    fx_sub(SCALE as int, fx_mul(y, y))
}

/// The gradient rule of node `i`: its gradient, times the local slope, is
/// added into each operand.
pub open spec fn apply_rule(s: Seq<Node>, i: int) -> Seq<Node> {
    let n = s[i];
    let g = n.grad as int;
    let a = n.lhs as int;
    let b = n.rhs as int;
    match n.op {
        Op::Leaf => s,
        Op::Add => add_grad(add_grad(s, a, g), b, g),
        Op::Mul => add_grad(
            add_grad(s, a, fx_mul(s[b].data as int, g)),
            b,
            fx_mul(s[a].data as int, g),
        ),
        Op::Pow(e) => add_grad(s, a, fx_mul(pow_slope(s[a].data as int, e as nat), g)),
        Op::Tanh => add_grad(s, a, fx_mul(tanh_slope(n.data as int), g)),
    }
}

/// Runs the rules of the marked nodes among the first `i`, from the newest
/// down to node 0.
pub open spec fn propagate(s: Seq<Node>, mask: Seq<bool>, i: nat) -> Seq<Node>
    decreases i,
{
    if i == 0 {
        s
    } else {
        let k = i - 1;
        let s1 = if mask[k] {
            apply_rule(s, k)
        } else {
            s
        };
        propagate(s1, mask, k as nat)
    }
}

/// The root's gradient set to one.
pub open spec fn seed(s: Seq<Node>, root: int) -> Seq<Node> {
    s.update(root, with_grad(s[root], SCALE as int))
}

/// The backward pass from `root`: seed it, then run the rule of every node
/// reachable from it, consumers before operands.
pub open spec fn backward_spec(s: Seq<Node>, root: int) -> Seq<Node> {
    propagate(seed(s, root), reach_seq(s, root), (root + 1) as nat)
}

/// Gradients of the nodes reachable from `root` set to zero, the rest kept.
pub open spec fn zero_spec(s: Seq<Node>, root: int) -> Seq<Node> {
    Seq::new(
        s.len(),
        |j: int|
            if reachable(s, root, j) {
                with_grad(s[j], 0)
            } else {
                s[j]
            },
    )
}

/// `order` lists each node reachable from `root` exactly once, and every
/// node after all of its operands.
pub open spec fn is_topological_order(s: Seq<Node>, root: int, order: Seq<usize>) -> bool {
    &&& forall|p: int| 0 <= p < order.len() ==> reachable(s, root, #[trigger] order[p] as int)
    &&& forall|j: int| reachable(s, root, j) ==> exists|p: int| 0 <= p < order.len() && #[trigger] order[p] == j
    &&& forall|p: int, q: int| 0 <= p < order.len() && 0 <= q < order.len() && p != q ==> #[trigger] order[p] != #[trigger] order[q]
    &&& forall|p: int, q: int|
        0 <= p < order.len() && 0 <= q < order.len() && #[trigger] is_operand(s, order[p] as int, order[q] as int) ==> q < p
}

pub proof fn lemma_add_grad_shape(s: Seq<Node>, j: int, g: int)
    requires
        0 <= j < s.len(),
    ensures
        same_shape(s, add_grad(s, j, g)),
{
}

pub proof fn lemma_apply_rule_shape(s: Seq<Node>, i: int)
    requires
        nodes_wf(s),
        0 <= i < s.len(),
    ensures
        same_shape(s, apply_rule(s, i)),
{
    let n = s[i];
    match n.op {
        Op::Leaf => {},
        Op::Add => {
            lemma_add_grad_shape(s, n.lhs as int, n.grad as int);
            let s1 = add_grad(s, n.lhs as int, n.grad as int);
            lemma_add_grad_shape(s1, n.rhs as int, n.grad as int);
        },
        Op::Mul => {
            let s1 = add_grad(s, n.lhs as int, fx_mul(s[n.rhs as int].data as int, n.grad as int));
            lemma_add_grad_shape(s, n.lhs as int, fx_mul(s[n.rhs as int].data as int, n.grad as int));
            lemma_add_grad_shape(s1, n.rhs as int, fx_mul(s[n.lhs as int].data as int, n.grad as int));
        },
        Op::Pow(e) => {
            lemma_add_grad_shape(
                s,
                n.lhs as int,
                fx_mul(pow_slope(s[n.lhs as int].data as int, e as nat), n.grad as int),
            );
        },
        Op::Tanh => {
            lemma_add_grad_shape(s, n.lhs as int, fx_mul(tanh_slope(n.data as int), n.grad as int));
        },
    }
}

impl Tape {
    pub closed spec fn view(&self) -> Seq<Node> {
        self.nodes@
    }

    pub closed spec fn label_count(&self) -> nat {
        self.labels@.len()
    }

    pub open spec fn wf(&self) -> bool {
        nodes_wf(self@) && self.label_count() == self@.len()
    }

    pub fn new() -> (t: Tape)
        ensures
            t.wf(),
            t@.len() == 0,
    {
        Tape { nodes: Vec::new(), labels: Vec::new() }
    }

    pub fn len(&self) -> (r: usize)
        ensures
            r == self@.len(),
    {
        self.nodes.len()
    }

    /// Appends a node whose operands are older, and returns its index.
    pub fn push_node(&mut self, n: Node) -> (id: usize)
        requires
            old(self).wf(),
            old(self)@.len() < usize::MAX,
            arity(n.op) >= 1 ==> n.lhs < old(self)@.len(),
            arity(n.op) == 2 ==> n.rhs < old(self)@.len(),
        ensures
            final(self).wf(),
            final(self)@ == old(self)@.push(n),
            id == old(self)@.len(),
    {
        let id = self.nodes.len();
        self.nodes.push(n);
        self.labels.push(String::new());
        proof {
            assert forall|k: int| 0 <= k < self@.len() implies (arity((#[trigger] self@[k]).op) >= 1
                ==> self@[k].lhs < k) && (arity(self@[k].op) == 2 ==> self@[k].rhs < k) by {
                if k < id {
                    assert(self@[k] == old(self)@[k]);
                }
            }
        }
        id
    }

    pub fn node(&self, i: usize) -> (n: Node)
        requires
            i < self@.len(),
        ensures
            n == self@[i as int],
    {
        self.nodes[i]
    }

    /// Replaces the gradient of node `i`.
    pub fn set_grad(&mut self, i: usize, g: i64)
        requires
            old(self).wf(),
            i < old(self)@.len(),
        ensures
            final(self).wf(),
            final(self)@ == old(self)@.update(i as int, with_grad(old(self)@[i as int], g as int)),
    {
        let mut n = self.nodes[i];
        n.grad = g;
        self.nodes.set(i, n);
        proof {
            assert(same_shape(old(self)@, self@));
        }
    }

    /// Replaces the data of node `i`.
    pub fn set_data(&mut self, i: usize, d: i64)
        requires
            old(self).wf(),
            i < old(self)@.len(),
        ensures
            final(self).wf(),
            final(self)@ == old(self)@.update(i as int, Node { data: d, ..old(self)@[i as int] }),
    {
        let mut n = self.nodes[i];
        n.data = d;
        self.nodes.set(i, n);
        proof {
            assert forall|k: int| 0 <= k < self@.len() implies (arity((#[trigger] self@[k]).op) >= 1
                ==> self@[k].lhs < k) && (arity(self@[k].op) == 2 ==> self@[k].rhs < k) by {
                assert(self@[k].op == old(self)@[k].op);
            }
        }
    }

    pub fn set_label(&mut self, i: usize, label: String)
        requires
            old(self).wf(),
            i < old(self)@.len(),
        ensures
            final(self).wf(),
            final(self)@ == old(self)@,
    {
        self.labels.set(i, label);
    }

    pub fn label(&self, i: usize) -> (r: &String)
        requires
            self.wf(),
            i < self@.len(),
    {
        &self.labels[i]
    }

    fn bump(&mut self, j: usize, g: i64)
        requires
            old(self).wf(),
            j < old(self)@.len(),
        ensures
            final(self).wf(),
            final(self)@ == add_grad(old(self)@, j as int, g as int),
    {
        let n = self.nodes[j];
        let v = fadd(n.grad, g);
        self.set_grad(j, v);
    }

    fn apply_rule(&mut self, i: usize)
        requires
            old(self).wf(),
            i < old(self)@.len(),
        ensures
            final(self).wf(),
            final(self)@ == apply_rule(old(self)@, i as int),
    {
        let n = self.nodes[i];
        let g = n.grad;
        match n.op {
            Op::Leaf => {},
            Op::Add => {
                self.bump(n.lhs, g);
                self.bump(n.rhs, g);
            },
            Op::Mul => {
                let da = self.nodes[n.lhs].data;
                let db = self.nodes[n.rhs].data;
                self.bump(n.lhs, fmul(db, g));
                self.bump(n.rhs, fmul(da, g));
            },
            Op::Pow(e) => {
                let x = self.nodes[n.lhs].data;
                let slope = if e == 0 {
                    0
                } else {
                    fmul(e as i64 * SCALE, fpow(x, e - 1))
                };
                self.bump(n.lhs, fmul(slope, g));
            },
            Op::Tanh => {
                let slope = fsub(SCALE, fmul(n.data, n.data));
                self.bump(n.lhs, fmul(slope, g));
            },
        }
    }

    /// Marks the nodes reachable from `root`.
    pub fn reach_mask(&self, root: usize) -> (mask: Vec<bool>)
        requires
            self.wf(),
            root < self@.len(),
        ensures
            mask@ == reach_seq(self@, root as int),
    {
        let n = self.nodes.len();
        let ghost s = self@;
        let mut mask: Vec<bool> = Vec::new();
        let mut i: usize = 0;
        while i < n
            invariant
                n == s.len(),
                i <= n,
                mask@.len() == i,
                forall|j: int| 0 <= j < i ==> mask@[j] == (j == root),
            decreases n - i,
        {
            mask.push(i == root);
            i = i + 1;
        }
        let mut i: usize = root + 1;
        while i > 0
            invariant
                s == self@,
                nodes_wf(s),
                n == s.len(),
                root < n,
                i <= root + 1,
                mask@.len() == n,
                forall|j: int|
                    0 <= j < n ==> #[trigger] mask@[j] == (j == root || exists|k: int|
                        i <= k <= root && j < k && is_operand(s, k, j) && reachable(
                            s,
                            root as int,
                            k,
                        )),
            decreases i,
        {
            i = i - 1;
            let node = self.nodes[i];
            assert(mask@[i as int] == reachable(s, root as int, i as int));
            if mask[i] {
                if arity_of(node.op) >= 1 {
                    mask.set(node.lhs, true);
                }
                if arity_of(node.op) == 2 {
                    mask.set(node.rhs, true);
                }
            }
            assert forall|j: int| 0 <= j < n implies #[trigger] mask@[j] == (j == root
                || exists|k: int|
                i <= k <= root && j < k && is_operand(s, k, j) && reachable(s, root as int, k)) by {
                if is_operand(s, i as int, j) && reachable(s, root as int, i as int) {
                    assert(s[i as int] == node);
                } else {
                    if exists|k: int|
                        i <= k <= root && j < k && is_operand(s, k, j) && reachable(
                            s,
                            root as int,
                            k,
                        ) {
                        let k = choose|k: int|
                            i <= k <= root && j < k && is_operand(s, k, j) && reachable(
                                s,
                                root as int,
                                k,
                            );
                        assert(k != i);
                    }
                }
            }
        }
        proof {
            assert forall|j: int| 0 <= j < n implies mask@[j] == reach_seq(s, root as int)[j] by {
                if j <= root {
                    assert(reachable(s, root as int, j) == (j == root || exists|k: int|
                        j < k <= root && #[trigger] is_operand(s, k, j) && reachable(
                            s,
                            root as int,
                            k,
                        )));
                }
            }
            assert(mask@ =~= reach_seq(s, root as int));
        }
        mask
    }
    /// Seeds the gradient of `root` with one and runs the gradient rule of
    /// every node reachable from it, each exactly once, consumers first.
    pub fn backward(&mut self, root: usize)
        requires
            old(self).wf(),
            root < old(self)@.len(),
        ensures
            final(self).wf(),
            final(self)@ == backward_spec(old(self)@, root as int),
            same_shape(old(self)@, final(self)@),
    {
        let mask = self.reach_mask(root);
        let ghost s0 = self@;
        let n = self.nodes.len();
        assert(root < n);
        self.set_grad(root, SCALE);
        assert(self@ == seed(s0, root as int));
        let mut i: usize = root + 1;
        while i > 0
            invariant
                self.wf(),
                i <= root + 1,
                root < self@.len(),
                same_shape(s0, self@),
                mask@ == reach_seq(s0, root as int),
                propagate(self@, mask@, i as nat) == backward_spec(s0, root as int),
            decreases i,
        {
            i = i - 1;
            if mask[i] {
                proof {
                    lemma_apply_rule_shape(self@, i as int);
                }
                self.apply_rule(i);
            }
        }
    }

    /// Sets to zero the gradient of every node reachable from `root`, and of
    /// no other node.
    pub fn zero_grad(&mut self, root: usize)
        requires
            old(self).wf(),
            root < old(self)@.len(),
        ensures
            final(self).wf(),
            final(self)@ == zero_spec(old(self)@, root as int),
    {
        let mask = self.reach_mask(root);
        let ghost s0 = self@;
        let n = self.nodes.len();
        let mut j: usize = 0;
        while j < n
            invariant
                self.wf(),
                n == s0.len(),
                j <= n,
                self@.len() == n,
                mask@ == reach_seq(s0, root as int),
                forall|k: int| 0 <= k < j ==> self@[k] == zero_spec(s0, root as int)[k],
                forall|k: int| j <= k < n ==> self@[k] == s0[k],
            decreases n - j,
        {
            if mask[j] {
                self.set_grad(j, 0);
            }
            j = j + 1;
        }
        assert(self@ =~= zero_spec(s0, root as int));
    }

    /// The nodes reachable from `root`, in an order where each comes after
    /// its operands.
    pub fn topological_order(&self, root: usize) -> (order: Vec<usize>)
        requires
            self.wf(),
            root < self@.len(),
        ensures
            is_topological_order(self@, root as int, order@),
    {
        let mask = self.reach_mask(root);
        let ghost s = self@;
        let n = self.nodes.len();
        let mut order: Vec<usize> = Vec::new();
        let mut j: usize = 0;
        while j <= root
            invariant
                s == self@,
                n == s.len(),
                nodes_wf(s),
                root < s.len(),
                j <= root + 1,
                mask@ == reach_seq(s, root as int),
                forall|p: int| 0 <= p < order@.len() ==> #[trigger] order@[p] < j && reachable(s, root as int, order@[p] as int),
                forall|p: int, q: int| 0 <= p < q < order@.len() ==> #[trigger] order@[p] < #[trigger] order@[q],
                forall|k: int| 0 <= k < j && reachable(s, root as int, k) ==> exists|p: int| 0 <= p < order@.len() && #[trigger] order@[p] == k,
            decreases root + 1 - j,
        {
            if mask[j] {
                let ghost prev = order@;
                order.push(j);
                proof {
                    assert forall|k: int| 0 <= k < j + 1 && reachable(s, root as int, k) implies exists|p: int| 0 <= p < order@.len() && #[trigger] order@[p] == k by {
                        if k == j {
                            assert(order@[prev.len() as int] == k);
                        } else {
                            let p = choose|p: int| 0 <= p < prev.len() && #[trigger] prev[p] == k;
                            assert(order@[p] == k);
                        }
                    }
                }
            }
            j = j + 1;
        }
        proof {
            assert forall|p: int, q: int|
                0 <= p < order@.len() && 0 <= q < order@.len() && #[trigger] is_operand(s, order@[p] as int, order@[q] as int) implies q < p by {
                let k = order@[p] as int;
                assert(s[k] == s[k]);
                if q >= p && q != p {
                    assert(order@[p] < order@[q]);
                }
            }
            assert forall|p: int, q: int| 0 <= p < order@.len() && 0 <= q < order@.len() && p != q implies #[trigger] order@[p] != #[trigger] order@[q] by {
                if p < q {
                    assert(order@[p] < order@[q]);
                } else {
                    assert(order@[q] < order@[p]);
                }
            }
            assert forall|j: int| reachable(s, root as int, j) implies exists|p: int| 0 <= p < order@.len() && #[trigger] order@[p] == j by {
                assert(0 <= j <= root);
            }
        }
        order
    }
}

pub fn arity_of(op: Op) -> (r: u8)
    ensures
        r == arity(op),
{
    match op {
        Op::Leaf => 0,
        Op::Tanh => 1,
        _ => 2,
    }
}

} // verus!
