//! Properties of the backward pass, stated over the operations' own
//! contracts and proved from the definitions in `tape`.
use vstd::prelude::*;

use crate::fixed::{fx_add, fx_mul, SCALE};
use crate::tape::{
    apply_rule, arity, backward_spec, is_operand, lemma_apply_rule_shape, nodes_wf, propagate,
    reach_seq, reachable, same_shape, seed, pow_slope, tanh_slope, zero_spec, Node, Op,
};
use crate::value::{add_node, leaf, mul_node, pow_node, tanh_node};

verus! {

/// A rule writes only into the operands of its node.
proof fn lemma_apply_rule_other(s: Seq<Node>, k: int, j: int)
    requires
        nodes_wf(s),
        0 <= k < s.len(),
        0 <= j < s.len(),
        !is_operand(s, k, j),
    ensures
        apply_rule(s, k)[j] == s[j],
{
    assert(s[k] == s[k]);
}

proof fn lemma_shape_wf(a: Seq<Node>, b: Seq<Node>)
    requires
        nodes_wf(a),
        same_shape(a, b),
    ensures
        nodes_wf(b),
{
    assert forall|k: int| 0 <= k < b.len() implies (arity((#[trigger] b[k]).op) >= 1 ==> b[k].lhs < k)
        && (arity(b[k].op) == 2 ==> b[k].rhs < k) by {
        assert(a[k] == a[k]);
        assert(a[k].op == b[k].op && a[k].lhs == b[k].lhs && a[k].rhs == b[k].rhs);
    }
}

/// A node that no marked node among the first `i` uses is left alone.
proof fn lemma_propagate_untouched(s: Seq<Node>, mask: Seq<bool>, i: nat, j: int)
    requires
        nodes_wf(s),
        i <= s.len(),
        mask.len() == s.len(),
        0 <= j < s.len(),
        forall|k: int| 0 <= k < i && #[trigger] mask[k] ==> !is_operand(s, k, j),
    ensures
        propagate(s, mask, i)[j] == s[j],
        propagate(s, mask, i).len() == s.len(),
    decreases i,
{
    if i > 0 {
        let k = i - 1;
        let s1 = if mask[k] {
            apply_rule(s, k)
        } else {
            s
        };
        if mask[k] {
            lemma_apply_rule_other(s, k, j);
            lemma_apply_rule_shape(s, k);
            lemma_shape_wf(s, s1);
        }
        assert forall|m: int| 0 <= m < k && #[trigger] mask[m] implies !is_operand(s1, m, j) by {
            assert(s1[m] == s1[m] && s[m] == s[m]);
        }
        lemma_propagate_untouched(s1, mask, k as nat, j);
    }
}

/// Reachability goes one edge further.
proof fn lemma_reach_step(s: Seq<Node>, r: int, k: int, j: int)
    requires
        nodes_wf(s),
        0 <= k < s.len(),
        reachable(s, r, k),
        is_operand(s, k, j),
    ensures
        reachable(s, r, j),
{
    assert(s[k] == s[k]);
}

/// Whatever a node reaches, besides itself, one of its operands reaches.
proof fn lemma_reach_from_operand(s: Seq<Node>, c: int, k: int)
    requires
        nodes_wf(s),
        0 <= c < s.len(),
        reachable(s, c, k),
        k < c,
    ensures
        exists|o: int| #[trigger] is_operand(s, c, o) && reachable(s, o, k),
    decreases c - k,
{
    let m = choose|m: int| k < m <= c && #[trigger] is_operand(s, m, k) && reachable(s, c, m);
    if m == c {
        assert(reachable(s, k, k));
    } else {
        lemma_reach_from_operand(s, c, m);
        let o = choose|o: int| #[trigger] is_operand(s, c, o) && reachable(s, o, m);
        assert(s[c] == s[c]);
        lemma_reach_step(s, o, m, k);
    }
}

/// A leaf reaches only itself.
proof fn lemma_reach_leaf(s: Seq<Node>, l: int, k: int)
    requires
        nodes_wf(s),
        0 <= l < s.len(),
        s[l].op == Op::Leaf,
        reachable(s, l, k),
    ensures
        k == l,
    decreases l - k,
{
    if k < l {
        let m = choose|m: int| k < m <= l && #[trigger] is_operand(s, m, k) && reachable(s, l, m);
        if m < l {
            lemma_reach_leaf(s, l, m);
        }
    }
}

/// Appending a node does not change what older nodes reach.
proof fn lemma_reach_push(s: Seq<Node>, n: Node, r: int, j: int)
    requires
        0 <= r < s.len(),
    ensures
        reachable(s.push(n), r, j) == reachable(s, r, j),
    decreases r - j,
{
    let s1 = s.push(n);
    if 0 <= j < r {
        assert forall|k: int| j < k <= r implies (is_operand(s1, k, j) && reachable(s1, r, k)) == (
        is_operand(s, k, j) && reachable(s, r, k)) by {
            assert(s1[k] == s[k]);
            lemma_reach_push(s, n, r, k);
        }
        if reachable(s1, r, j) {
            let k = choose|k: int| j < k <= r && #[trigger] is_operand(s1, k, j) && reachable(s1, r, k);
            assert(is_operand(s, k, j) && reachable(s, r, k));
        }
        if reachable(s, r, j) {
            let k = choose|k: int| j < k <= r && #[trigger] is_operand(s, k, j) && reachable(s, r, k);
            assert(is_operand(s1, k, j) && reachable(s1, r, k));
        }
    }
}

/// When no node that `c` reaches, but `c`, uses node `j`, the backward pass
/// from `c` leaves `j` as the rule of `c` alone left it; the same holds of `c`.
proof fn lemma_backward_first_rule(s: Seq<Node>, c: int, j: int)
    requires
        nodes_wf(s),
        0 <= j < c < s.len(),
        forall|k: int| j < k < c && reachable(s, c, k) ==> !#[trigger] is_operand(s, k, j),
    ensures
        backward_spec(s, c)[j] == apply_rule(seed(s, c), c)[j],
        backward_spec(s, c)[c] == apply_rule(seed(s, c), c)[c],
{
    let mask = reach_seq(s, c);
    let s0 = seed(s, c);
    assert(reachable(s, c, c));
    assert(same_shape(s, s0));
    lemma_shape_wf(s, s0);
    let u = apply_rule(s0, c);
    lemma_apply_rule_shape(s0, c);
    lemma_shape_wf(s0, u);
    assert(backward_spec(s, c) == propagate(u, mask, c as nat));
    assert forall|k: int| 0 <= k < c && #[trigger] mask[k] implies !is_operand(u, k, j) by {
        assert(s0[k] == s0[k] && s[k] == s[k]);
        assert(u[k].op == s[k].op && u[k].lhs == s[k].lhs && u[k].rhs == s[k].rhs);
        assert(mask[k] == reachable(s, c, k));
        if j < k {
            assert(!is_operand(s, k, j));
        }
    }
    assert forall|k: int| 0 <= k < c && #[trigger] mask[k] implies !is_operand(u, k, c) by {
        assert(u[k] == u[k]);
    }
    lemma_propagate_untouched(u, mask, c as nat, j);
    lemma_propagate_untouched(u, mask, c as nat, c);
}

/// Gradient of a sum: after the backward pass from a new node `c = a + b`,
/// where `a` and `b` are distinct, neither reaches the other, and neither
/// has gradient yet, each holds the gradient of `c`.
pub proof fn law_add_gradient(s: Seq<Node>, a: int, b: int)
    requires
        nodes_wf(s),
        s.len() < usize::MAX,
        0 <= a < s.len(),
        0 <= b < s.len(),
        a != b,
        !reachable(s, a, b),
        !reachable(s, b, a),
        s[a].grad == 0,
        s[b].grad == 0,
    ensures
        ({
            let c = s.len() as int;
            let t = backward_spec(s.push(add_node(s, a, b)), c);
            t[a].grad == t[c].grad && t[b].grad == t[c].grad
        }),
{
    let c = s.len() as int;
    let n = add_node(s, a, b);
    let s1 = s.push(n);
    lemma_push_wf(s, n);
    lemma_two_operands(s, n, a, b);
    lemma_backward_first_rule(s1, c, a);
    lemma_backward_first_rule(s1, c, b);
}

/// Gradient of a product: after the backward pass from a new node
/// `c = a * b`, where `a` and `b` are distinct, neither reaches the other,
/// and neither has gradient yet, `a` holds `b`'s data times the gradient of
/// `c`, and `b` holds `a`'s data times it.
pub proof fn law_mul_gradient(s: Seq<Node>, a: int, b: int)
    requires
        nodes_wf(s),
        s.len() < usize::MAX,
        0 <= a < s.len(),
        0 <= b < s.len(),
        a != b,
        !reachable(s, a, b),
        !reachable(s, b, a),
        s[a].grad == 0,
        s[b].grad == 0,
    ensures
        ({
            let c = s.len() as int;
            let t = backward_spec(s.push(mul_node(s, a, b)), c);
            &&& t[a].grad == fx_mul(t[b].data as int, t[c].grad as int)
            &&& t[b].grad == fx_mul(t[a].data as int, t[c].grad as int)
        }),
{
    let c = s.len() as int;
    let n = mul_node(s, a, b);
    let s1 = s.push(n);
    lemma_push_wf(s, n);
    lemma_two_operands(s, n, a, b);
    lemma_backward_first_rule(s1, c, a);
    lemma_backward_first_rule(s1, c, b);
    let t = backward_spec(s1, c);
    let s0 = seed(s1, c);
    assert(s0[a] == s[a] && s0[b] == s[b]);
    lemma_backward_shape(s1, c);
    assert(t[a].data == s[a].data && t[b].data == s[b].data);
    lemma_fx_add_zero(fx_mul(s[b].data as int, SCALE as int));
    lemma_fx_add_zero(fx_mul(s[a].data as int, SCALE as int));
}

/// The backward pass changes gradients only.
proof fn lemma_backward_shape(s: Seq<Node>, c: int)
    requires
        nodes_wf(s),
        0 <= c < s.len(),
    ensures
        same_shape(s, backward_spec(s, c)),
{
    let s0 = seed(s, c);
    assert(same_shape(s, s0));
    lemma_shape_wf(s, s0);
    lemma_propagate_shape(s0, reach_seq(s, c), (c + 1) as nat);
}

proof fn lemma_propagate_shape(s: Seq<Node>, mask: Seq<bool>, i: nat)
    requires
        nodes_wf(s),
        i <= s.len(),
        mask.len() == s.len(),
    ensures
        same_shape(s, propagate(s, mask, i)),
    decreases i,
{
    if i > 0 {
        let k = i - 1;
        let s1 = if mask[k] {
            apply_rule(s, k)
        } else {
            s
        };
        if mask[k] {
            lemma_apply_rule_shape(s, k);
            lemma_shape_wf(s, s1);
        }
        lemma_propagate_shape(s1, mask, k as nat);
    }
}

/// For a new node over two distinct operands that do not reach each other,
/// no older node that the new one reaches uses either operand.
proof fn lemma_two_operands(s: Seq<Node>, n: Node, a: int, b: int)
    requires
        nodes_wf(s),
        nodes_wf(s.push(n)),
        0 <= a < s.len(),
        0 <= b < s.len(),
        arity(n.op) == 2,
        n.lhs == a,
        n.rhs == b,
        !reachable(s, a, b),
        !reachable(s, b, a),
    ensures
        forall|k: int|
            a < k < s.len() && reachable(s.push(n), s.len() as int, k) ==> !#[trigger] is_operand(s.push(n), k, a),
        forall|k: int|
            b < k < s.len() && reachable(s.push(n), s.len() as int, k) ==> !#[trigger] is_operand(s.push(n), k, b),
{
    let s1 = s.push(n);
    let c = s.len() as int;
    assert(s1[c] == n);
    assert forall|k: int| a < k < c && reachable(s1, c, k) implies !#[trigger] is_operand(s1, k, a) by {
        lemma_only_through(s, n, k, a, b);
    }
    assert forall|k: int| b < k < c && reachable(s1, c, k) implies !#[trigger] is_operand(s1, k, b) by {
        lemma_only_through(s, n, k, b, a);
    }
}

/// A node below the new one that uses `x` would make `x` reachable from
/// the other operand `y`.
proof fn lemma_only_through(s: Seq<Node>, n: Node, k: int, x: int, y: int)
    requires
        nodes_wf(s),
        nodes_wf(s.push(n)),
        0 <= x < k < s.len(),
        0 <= y < s.len(),
        arity(n.op) == 2,
        (n.lhs == x && n.rhs == y) || (n.lhs == y && n.rhs == x),
        !reachable(s, y, x),
        reachable(s.push(n), s.len() as int, k),
    ensures
        !is_operand(s.push(n), k, x),
{
    let s1 = s.push(n);
    let c = s.len() as int;
    assert(s1[c] == n);
    if is_operand(s1, k, x) {
        lemma_reach_from_operand(s1, c, k);
        let o = choose|o: int| #[trigger] is_operand(s1, c, o) && reachable(s1, o, k);
        lemma_reach_push(s, n, o, k);
        assert(s1[k] == s[k]);
        if o == x {
            assert(k <= x);
        } else {
            lemma_reach_step(s, y, k, x);
        }
    }
}

/// Gradient of tanh: after the backward pass from a new node `y = tanh(x)`,
/// where `x` has no gradient yet, `x` holds `1 - y²`.
pub proof fn law_tanh_gradient(s: Seq<Node>, x: int)
    requires
        nodes_wf(s),
        s.len() < usize::MAX,
        0 <= x < s.len(),
        s[x].grad == 0,
    ensures
        ({
            let c = s.len() as int;
            let t = backward_spec(s.push(tanh_node(s, x)), c);
            t[x].grad == tanh_slope(t[c].data as int)
        }),
{
    let c = s.len() as int;
    let n = tanh_node(s, x);
    let s1 = s.push(n);
    lemma_push_wf(s, n);
    assert(s1[c] == n);
    assert forall|k: int| x < k < c && reachable(s1, c, k) implies !#[trigger] is_operand(s1, k, x) by {
        lemma_reach_from_operand(s1, c, k);
        let o = choose|o: int| #[trigger] is_operand(s1, c, o) && reachable(s1, o, k);
        assert(o == x);
    }
    lemma_backward_first_rule(s1, c, x);
    lemma_backward_shape(s1, c);
    let t = backward_spec(s1, c);
    assert(t[c].data == n.data);
    let s0 = seed(s1, c);
    assert(s0[x] == s[x]);
    lemma_fx_mul_one(tanh_slope(n.data as int));
}

/// Gradient of a power: after the backward pass from a new node `y = x^n`,
/// where `x` has no gradient yet, `x` holds `n * x^(n-1)`.
pub proof fn law_pow_gradient(s: Seq<Node>, x: int, n: u32)
    requires
        nodes_wf(s),
        s.len() + 1 < usize::MAX,
        0 <= x < s.len(),
        s[x].grad == 0,
    ensures
        ({
            let e = s.len() as int;
            let s1 = s.push(leaf(n * SCALE));
            let c = e + 1;
            let t = backward_spec(s1.push(pow_node(s, x, n, e)), c);
            t[x].grad == pow_slope(t[x].data as int, n as nat)
        }),
{
    let e = s.len() as int;
    let s0 = s.push(leaf(n * SCALE));
    lemma_push_wf(s, leaf(n * SCALE));
    let c = e + 1;
    let pn = pow_node(s, x, n, e);
    let s1 = s0.push(pn);
    assert(s0[x] == s[x]);
    lemma_push_wf(s0, pn);
    assert(s1[c] == pn);
    assert(s1[e] == leaf(n * SCALE));
    assert forall|k: int| x < k < c && reachable(s1, c, k) implies !#[trigger] is_operand(s1, k, x) by {
        lemma_reach_from_operand(s1, c, k);
        let o = choose|o: int| #[trigger] is_operand(s1, c, o) && reachable(s1, o, k);
        if o == e {
            lemma_reach_leaf(s1, e, k);
        }
    }
    lemma_backward_first_rule(s1, c, x);
    lemma_backward_shape(s1, c);
    let t = backward_spec(s1, c);
    assert(t[x].data == s[x].data);
    let s2 = seed(s1, c);
    assert(s2[x] == s[x]);
    let p = pow_slope(s[x].data as int, n as nat);
    lemma_fx_mul_one(p);
}

/// Fan-out: after the backward pass from a new node `y = x + x`, where `x`
/// has no gradient yet, `x` holds two.
pub proof fn law_fan_out_accumulates(s: Seq<Node>, x: int)
    requires
        nodes_wf(s),
        s.len() < usize::MAX,
        0 <= x < s.len(),
        s[x].grad == 0,
    ensures
        ({
            let c = s.len() as int;
            let t = backward_spec(s.push(add_node(s, x, x)), c);
            t[x].grad == 2 * SCALE
        }),
{
    let c = s.len() as int;
    let n = add_node(s, x, x);
    let s1 = s.push(n);
    lemma_push_wf(s, n);
    assert(s1[c] == n);
    assert forall|k: int| x < k < c && reachable(s1, c, k) implies !#[trigger] is_operand(s1, k, x) by {
        lemma_reach_from_operand(s1, c, k);
        let o = choose|o: int| #[trigger] is_operand(s1, c, o) && reachable(s1, o, k);
        assert(o == x);
    }
    lemma_backward_first_rule(s1, c, x);
    let s0 = seed(s1, c);
    assert(s0[x] == s[x]);
}

/// Resetting from `root` zeroes the gradient of exactly the nodes reachable
/// from it, and leaves everything else as it was.
pub proof fn law_zero_grad_reachable_only(s: Seq<Node>, root: int)
    requires
        nodes_wf(s),
        0 <= root < s.len(),
    ensures
        zero_spec(s, root).len() == s.len(),
        forall|j: int|
            0 <= j < s.len() ==> (#[trigger] zero_spec(s, root)[j]).grad == (if reachable(s, root, j) {
                0
            } else {
                s[j].grad as int
            }),
        forall|j: int|
            0 <= j < s.len() ==> (#[trigger] zero_spec(s, root)[j]).data == s[j].data
                && zero_spec(s, root)[j].op == s[j].op && zero_spec(s, root)[j].lhs == s[j].lhs
                && zero_spec(s, root)[j].rhs == s[j].rhs,
{
}

/// Multiplying by one changes nothing.
proof fn lemma_fx_mul_one(z: int)
    requires
        i64::MIN <= z <= i64::MAX,
    ensures
        fx_mul(z, SCALE as int) == z,
{
    let m = if z < 0 { -z } else { z };
    vstd::arithmetic::div_mod::lemma_div_by_multiple(m, 65536);
}

/// Appending a node whose operands are older keeps the graph acyclic.
proof fn lemma_push_wf(s: Seq<Node>, n: Node)
    requires
        nodes_wf(s),
        arity(n.op) >= 1 ==> n.lhs < s.len(),
        arity(n.op) == 2 ==> n.rhs < s.len(),
    ensures
        nodes_wf(s.push(n)),
{
    let s1 = s.push(n);
    assert forall|k: int| 0 <= k < s1.len() implies (arity((#[trigger] s1[k]).op) >= 1 ==> s1[k].lhs
        < k) && (arity(s1[k].op) == 2 ==> s1[k].rhs < k) by {
        if k < s.len() {
            assert(s1[k] == s[k]);
        }
    }
}

proof fn lemma_fx_add_zero(x: int)
    requires
        i64::MIN <= x <= i64::MAX,
    ensures
        fx_add(0, x) == x,
{
}

} // verus!
