use micrograd::fixed::SCALE;
use micrograd::nn::{Layer, NnError, Neuron, MLP};
use micrograd::tape::Tape;
use micrograd::value::Value;

fn fx(x: f64) -> i64 {
    (x * SCALE as f64).round() as i64
}

fn as_float(x: i64) -> f64 {
    x as f64 / SCALE as f64
}

#[test]
fn single_neuron_forward_and_backward() {
    let mut t = Tape::new();
    let n = Neuron::with_parameters(&mut t, &vec![fx(0.5), fx(-0.5)], fx(0.1), true);
    let x0 = Value::from(&mut t, fx(1.0));
    let x1 = Value::from(&mut t, fx(2.0));
    let out = n.forward(&mut t, &vec![x0, x1]).unwrap();
    let y = as_float(out.data(&t));
    assert!((y - (-0.3799)).abs() < 1e-3);
    out.backward(&mut t);
    let p = n.parameters();
    assert_eq!(p.len(), 3);
    let slope = 1.0 - 0.3799f64 * 0.3799;
    assert!((as_float(p[1].gradient(&t)) - slope * 1.0).abs() < 1e-3);
    assert!((as_float(p[2].gradient(&t)) - slope * 2.0).abs() < 1e-3);
    assert!((as_float(p[0].gradient(&t)) - slope).abs() < 1e-3);
}

#[test]
fn neuron_rejects_wrong_input_length() {
    let mut t = Tape::new();
    let n = Neuron::with_parameters(&mut t, &vec![fx(0.5), fx(-0.5)], fx(0.1), false);
    let x0 = Value::from(&mut t, fx(1.0));
    let before = t.len();
    assert_eq!(n.forward(&mut t, &vec![x0]).unwrap_err(), NnError::DimensionMismatch);
    assert_eq!(t.len(), before);
}

#[test]
fn neuron_without_activation_is_affine() {
    let mut t = Tape::new();
    let n = Neuron::with_parameters(&mut t, &vec![fx(2.0)], fx(1.0), false);
    let x = Value::from(&mut t, fx(3.0));
    let out = n.forward(&mut t, &vec![x]).unwrap();
    assert_eq!(out.data(&t), fx(7.0));
}

#[test]
fn random_neuron_parameters_lie_in_unit_range() {
    let mut t = Tape::new();
    let n = Neuron::new(&mut t, 8, true).unwrap();
    let p = n.parameters();
    assert_eq!(p.len(), 9);
    for v in p.iter() {
        let d = v.data(&t);
        assert!(d >= -SCALE && d < SCALE);
    }
    assert_eq!(p[0].label(&t), "b");
    assert_eq!(p[1].label(&t), "w0");
    assert_eq!(p[8].label(&t), "w7");
}

#[test]
fn layer_returns_one_output_per_neuron() {
    let mut t = Tape::new();
    let l = Layer::new(&mut t, 2, 4, "hidden".to_string(), true).unwrap();
    let x0 = Value::from(&mut t, fx(0.3));
    let x1 = Value::from(&mut t, fx(-0.7));
    let out = l.forward(&mut t, &vec![x0, x1]).unwrap();
    assert_eq!(out.len(), 4);
    assert_eq!(l.parameters().len(), 12);
    assert_eq!(l.forward(&mut t, &vec![x0]).unwrap_err(), NnError::DimensionMismatch);
}

#[test]
fn mlp_shapes_and_parameters() {
    let mut t = Tape::new();
    let m = MLP::new(&mut t, 1, vec![3, 3, 1]).unwrap();
    assert_eq!(m.parameters().len(), 6 + 12 + 4);
    let x = Value::from(&mut t, fx(0.5));
    let out = m.forward(&mut t, &vec![x]).unwrap();
    assert_eq!(out.len(), 1);
    let y = Value::from(&mut t, fx(0.5));
    assert_eq!(m.forward(&mut t, &vec![x, y]).unwrap_err(), NnError::DimensionMismatch);
}

#[test]
fn loss_is_sum_of_squared_errors() {
    let mut t = Tape::new();
    let a = Value::from(&mut t, fx(1.0));
    let b = Value::from(&mut t, fx(3.0));
    let p = Value::from(&mut t, fx(0.5));
    let q = Value::from(&mut t, fx(1.0));
    let l = MLP::loss(&mut t, &vec![a, b], &vec![p, q]).unwrap();
    assert_eq!(l.data(&t), fx(4.25));
    assert_eq!(MLP::loss(&mut t, &vec![a], &vec![p, q]).unwrap_err(), NnError::DimensionMismatch);
}

#[test]
fn total_loss_of_empty_batch_is_an_error() {
    let mut t = Tape::new();
    let m = MLP::new(&mut t, 1, vec![2, 1]).unwrap();
    assert_eq!(m.total_loss(&mut t, &vec![], &vec![]).unwrap_err(), NnError::EmptyBatch);
}

#[test]
fn total_loss_is_the_batch_mean() {
    let mut t = Tape::new();
    let m = MLP::new(&mut t, 1, vec![1]).unwrap();
    let mut xs = Vec::new();
    let mut ys = Vec::new();
    let mut sum = 0.0;
    for i in 0..4 {
        let x = Value::from(&mut t, fx(i as f64 * 0.25));
        let y = Value::from(&mut t, fx(0.1));
        let pred = m.forward(&mut t, &vec![x]).unwrap()[0];
        let e = as_float(y.data(&t)) - as_float(pred.data(&t));
        sum += e * e;
        xs.push(vec![x]);
        ys.push(vec![y]);
    }
    let l = m.total_loss(&mut t, &xs, &ys).unwrap();
    assert!((as_float(l.data(&t)) - sum / 4.0).abs() < 0.01);
}

#[test]
fn training_lowers_the_loss_on_sine() {
    let mut t = Tape::new();
    let m = MLP::new(&mut t, 1, vec![3, 3, 1]).unwrap();
    let mut xs = Vec::new();
    let mut ys = Vec::new();
    for i in -5..5 {
        let x = i as f64 * 0.3;
        xs.push(vec![Value::from(&mut t, fx(x))]);
        ys.push(vec![Value::from(&mut t, fx(x.sin()))]);
    }
    let mut losses = Vec::new();
    for _ in 0..60 {
        let loss = m.total_loss(&mut t, &xs, &ys).unwrap();
        m.traning_loop(&mut t, &loss);
        losses.push(loss.data(&t));
    }
    assert!(losses[55] < losses[0]);
}

#[test]
fn update_weights_moves_against_gradient() {
    let mut t = Tape::new();
    let m = MLP::new(&mut t, 1, vec![1]).unwrap();
    let p = m.parameters();
    for v in p.iter() {
        v.set_gradient(&mut t, fx(2.0));
    }
    let before: Vec<i64> = p.iter().map(|v| v.data(&t)).collect();
    m.updateWeights(&mut t, fx(0.5));
    for (v, b) in p.iter().zip(before.iter()) {
        assert_eq!(v.data(&t), b - fx(1.0));
    }
}

#[test]
fn empty_layer_returns_no_outputs() {
    let mut t = Tape::new();
    let l = Layer::new(&mut t, 1, 0, "empty".to_string(), true).unwrap();
    let out = l.forward(&mut t, &vec![]).unwrap();
    assert_eq!(out.len(), 0);
}

#[test]
fn layer_keeps_declared_counts() {
    let mut t = Tape::new();
    let l = Layer::new(&mut t, 2, 3, "l".to_string(), true).unwrap();
    assert_eq!(l.inputs(), 2);
    assert_eq!(l.outputs(), 3);
    assert_eq!(t.len(), 3 * (2 + 1));
    for p in l.parameters().iter() {
        assert_eq!(p.gradient(&t), 0);
    }
}

#[test]
fn badly_shaped_batch_leaves_tape_unchanged() {
    let mut t = Tape::new();
    let m = MLP::new(&mut t, 1, vec![2, 1]).unwrap();
    let x = Value::from(&mut t, fx(0.5));
    let y = Value::from(&mut t, fx(0.5));
    let before = t.len();
    let r = m.total_loss(&mut t, &vec![vec![x], vec![x, y]], &vec![vec![y], vec![y]]);
    assert_eq!(r.unwrap_err(), NnError::DimensionMismatch);
    let r = m.total_loss(&mut t, &vec![vec![x]], &vec![vec![y, y]]);
    assert_eq!(r.unwrap_err(), NnError::DimensionMismatch);
    let r = m.total_loss(&mut t, &vec![vec![x]], &vec![]);
    assert_eq!(r.unwrap_err(), NnError::DimensionMismatch);
    assert_eq!(m.total_loss(&mut t, &vec![], &vec![]).unwrap_err(), NnError::EmptyBatch);
    assert_eq!(t.len(), before);
}

#[test]
fn batch_mean_of_fixed_network() {
    let mut t = Tape::new();
    let n = Neuron::with_parameters(&mut t, &vec![fx(2.0)], fx(1.0), false);
    let l = Layer::from_neurons(&t, vec![n], "out".to_string(), 1).unwrap();
    let m = MLP::from_layers(&t, vec![l]).unwrap();
    let x0 = Value::from(&mut t, fx(0.0));
    let x1 = Value::from(&mut t, fx(1.0));
    let y0 = Value::from(&mut t, fx(2.0));
    let y1 = Value::from(&mut t, fx(1.0));
    // predictions 1 and 3: squared errors 1 and 4, mean 2.5
    let loss = m.total_loss(&mut t, &vec![vec![x0], vec![x1]], &vec![vec![y0], vec![y1]]).unwrap();
    assert_eq!(loss.data(&t), fx(2.5));
}

#[test]
fn constructors_from_parts_check_shapes() {
    let mut t = Tape::new();
    let a = Neuron::with_parameters(&mut t, &vec![fx(1.0)], 0, true);
    let b = Neuron::with_parameters(&mut t, &vec![fx(1.0), fx(1.0)], 0, true);
    assert_eq!(Layer::from_neurons(&t, vec![a, b], "l".to_string(), 1).unwrap_err(), NnError::DimensionMismatch);
    let c = Neuron::with_parameters(&mut t, &vec![fx(1.0)], 0, true);
    let l1 = Layer::from_neurons(&t, vec![c], "l1".to_string(), 1).unwrap();
    let d = Neuron::with_parameters(&mut t, &vec![fx(1.0), fx(1.0)], 0, false);
    let l2 = Layer::from_neurons(&t, vec![d], "l2".to_string(), 2).unwrap();
    assert_eq!(MLP::from_layers(&t, vec![l1, l2]).unwrap_err(), NnError::DimensionMismatch);
}
