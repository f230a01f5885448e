use micrograd::fixed::{fadd, fmul, fpow, ftanh, SCALE};
use micrograd::tape::Tape;
use micrograd::value::Value;

fn fx(x: f64) -> i64 {
    (x * SCALE as f64).round() as i64
}

fn as_float(x: i64) -> f64 {
    x as f64 / SCALE as f64
}

#[test]
fn fixed_arithmetic_exact_values() {
    assert_eq!(fadd(fx(1.5), fx(2.25)), fx(3.75));
    assert_eq!(fmul(fx(1.5), fx(-2.0)), fx(-3.0));
    assert_eq!(fmul(fx(0.5), fx(0.5)), fx(0.25));
    assert_eq!(fpow(fx(3.0), 2), fx(9.0));
    assert_eq!(fpow(fx(2.0), 0), SCALE);
    assert_eq!(fadd(i64::MAX, 1), i64::MAX);
    assert_eq!(ftanh(0), 0);
    assert_eq!(ftanh(fx(5.0)), SCALE);
    assert_eq!(ftanh(fx(-5.0)), -SCALE);
    for x in [0.1f64, 0.5, 1.0, 1.5, 2.5, 4.0, 6.0] {
        assert!((as_float(ftanh(fx(x))) - x.tanh()).abs() < 2e-4);
        assert!((as_float(ftanh(fx(-x))) + x.tanh()).abs() < 2e-4);
    }
}

#[test]
fn add_gradient_flows_to_both_operands() {
    let mut t = Tape::new();
    let a = Value::from(&mut t, fx(2.0));
    let b = Value::from(&mut t, fx(-3.0));
    let c = a.add(&mut t, &b);
    assert_eq!(c.data(&t), fx(-1.0));
    c.backward(&mut t);
    assert_eq!(c.gradient(&t), SCALE);
    assert_eq!(a.gradient(&t), c.gradient(&t));
    assert_eq!(b.gradient(&t), c.gradient(&t));
}

#[test]
fn mul_gradient_swaps_operand_data() {
    let mut t = Tape::new();
    let a = Value::from(&mut t, fx(2.0));
    let b = Value::from(&mut t, fx(-3.0));
    let c = a.mul(&mut t, &b);
    assert_eq!(c.data(&t), fx(-6.0));
    c.backward(&mut t);
    assert_eq!(a.gradient(&t), fx(-3.0));
    assert_eq!(b.gradient(&t), fx(2.0));
}

#[test]
fn tanh_gradient_is_one_minus_square() {
    let mut t = Tape::new();
    let x = Value::from(&mut t, fx(0.5));
    let y = x.tanh(&mut t);
    y.backward(&mut t);
    let yd = y.data(&t);
    assert_eq!(x.gradient(&t), SCALE - fmul(yd, yd));
    assert!((as_float(x.gradient(&t)) - (1.0 - 0.5f64.tanh().powi(2))).abs() < 1e-3);
}

#[test]
fn pow_gradient_is_n_times_power_less_one() {
    let mut t = Tape::new();
    let x = Value::from(&mut t, fx(3.0));
    let y = x.pow(&mut t, 3);
    assert_eq!(y.data(&t), fx(27.0));
    y.backward(&mut t);
    assert_eq!(x.gradient(&t), fx(27.0));
}

#[test]
fn fan_out_accumulates_gradient() {
    let mut t = Tape::new();
    let x = Value::from(&mut t, fx(4.0));
    let y = x.add(&mut t, &x);
    assert_eq!(y.data(&t), fx(8.0));
    y.backward(&mut t);
    assert_eq!(x.gradient(&t), fx(2.0));
}

#[test]
fn sub_and_neg_compose() {
    let mut t = Tape::new();
    let a = Value::from(&mut t, fx(5.0));
    let b = Value::from(&mut t, fx(2.0));
    let n = b.neg(&mut t);
    assert_eq!(n.data(&t), fx(-2.0));
    let d = a.sub(&mut t, &b);
    assert_eq!(d.data(&t), fx(3.0));
    d.backward(&mut t);
    assert_eq!(a.gradient(&t), SCALE);
    assert_eq!(b.gradient(&t), -SCALE);
}

#[test]
fn topological_order_lists_each_node_after_its_operands() {
    let mut t = Tape::new();
    let unrelated = Value::from(&mut t, fx(9.0));
    let a = Value::from(&mut t, fx(1.0));
    let b = Value::from(&mut t, fx(2.0));
    let c = a.mul(&mut t, &b);
    let d = c.add(&mut t, &a);
    let e = d.tanh(&mut t);
    let order = e.topological_order(&t);
    assert_eq!(order.len(), 5);
    assert!(!order.contains(&unrelated.id));
    let pos = |v: &Value| order.iter().position(|&i| i == v.id).unwrap();
    assert!(pos(&a) < pos(&c) && pos(&b) < pos(&c));
    assert!(pos(&c) < pos(&d) && pos(&a) < pos(&d));
    assert!(pos(&d) < pos(&e));
    assert_eq!(*order.last().unwrap(), e.id);
}

#[test]
fn zero_grad_resets_only_reachable_nodes() {
    let mut t = Tape::new();
    let a = Value::from(&mut t, fx(1.0));
    let b = Value::from(&mut t, fx(2.0));
    let c = a.mul(&mut t, &b);
    let other = Value::from(&mut t, fx(7.0));
    other.set_gradient(&mut t, fx(5.0));
    c.backward(&mut t);
    assert_ne!(a.gradient(&t), 0);
    c.zero_grad(&mut t);
    assert_eq!(a.gradient(&t), 0);
    assert_eq!(b.gradient(&t), 0);
    assert_eq!(c.gradient(&t), 0);
    assert_eq!(other.gradient(&t), fx(5.0));
}

#[test]
fn adjust_and_labels() {
    let mut t = Tape::new();
    let a = Value::from(&mut t, fx(1.0)).set_label(&mut t, "a");
    a.adjust(&mut t, fx(0.5));
    assert_eq!(a.data(&t), fx(1.5));
    assert_eq!(a.label(&t), "a");
}

#[test]
fn pow_by_exponent_node() {
    let mut t = Tape::new();
    let x = Value::from(&mut t, fx(2.0));
    let e = Value::from(&mut t, fx(3.0));
    let y = x.pow_value(&mut t, &e).unwrap();
    assert_eq!(y.data(&t), fx(8.0));
    y.backward(&mut t);
    assert_eq!(x.gradient(&t), fx(12.0));
    assert_eq!(e.gradient(&t), 0);
    let half = Value::from(&mut t, fx(0.5));
    let before = t.len();
    assert!(x.pow_value(&mut t, &half).is_none());
    let neg = Value::from(&mut t, fx(-1.0));
    assert!(x.pow_value(&mut t, &neg).is_none());
    assert_eq!(t.len(), before + 1);
}
