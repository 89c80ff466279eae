use scalargrad::engine::{Graph, Value, SGD};

fn b(x: f64) -> u64 {
    x.to_bits()
}

fn f(x: u64) -> f64 {
    f64::from_bits(x)
}

#[test]
fn test_add() {
    let mut g = Graph::new();
    let a = Value::new(&mut g, b(2.0));
    let bb = Value::new(&mut g, b(1.0));
    let c = a.add(&mut g, bb);
    let d = a.add(&mut g, c);
    assert_eq!(f(c.value(&g)), 3.0);
    assert_eq!(f(d.value(&g)), 5.0);
}

#[test]
fn test_sub() {
    let mut g = Graph::new();
    let a = Value::new(&mut g, b(2.0));
    let bb = Value::new(&mut g, b(1.0));
    let c = a.sub(&mut g, bb);
    assert_eq!(f(c.value(&g)), 1.0);
}

#[test]
fn test_mul() {
    let mut g = Graph::new();
    let a = Value::new(&mut g, b(2.0));
    let bb = Value::new(&mut g, b(3.0));
    let c = a.mul(&mut g, bb);
    assert_eq!(f(c.value(&g)), 6.0);
}

#[test]
fn test_debug_print() {
    let mut g = Graph::new();
    let a = Value::new(&mut g, b(2.0));
    let bb = Value::new(&mut g, b(-3.0));
    let c = Value::new(&mut g, b(10.0));
    let e = a.mul(&mut g, bb);
    let d = e.add(&mut g, c);
    println!("{:?}", d.inspect(&g));
}

#[test]
fn test_tanh() {
    let mut g = Graph::new();
    let x1 = Value::new(&mut g, b(2.0));
    let x2 = Value::new(&mut g, b(0.0));
    let w1 = Value::new(&mut g, b(-3.0));
    let w2 = Value::new(&mut g, b(1.0));
    let bias = Value::new(&mut g, b(6.7));

    let x1w1 = x1.mul(&mut g, w1);
    let x2w2 = x2.mul(&mut g, w2);
    let s = x1w1.add(&mut g, x2w2);
    let x1w1x2w2 = s.add(&mut g, bias);
    let o = x1w1x2w2.tanh(&mut g);
    assert!(f(o.value(&g)).abs() <= 1.0);
}

#[test]
fn test_backward() {
    let mut g = Graph::new();
    let x = Value::new(&mut g, b(2.0));
    let y = Value::new(&mut g, b(3.0));

    let q = x.div(&mut g, y);
    q.backward(&mut g);
    assert!((f(x.grad(&g)) - 0.33333333).abs() < 1e-6);
    assert!((f(y.grad(&g)) - (-0.22222222)).abs() < 1e-6);
}

#[test]
fn test_grad_check() {
    let mut g = Graph::new();
    let x = Value::new(&mut g, b(1.234));
    let y = Value::new(&mut g, b(-2.345));

    let p = x.mul(&mut g, y);
    let o = p.tanh(&mut g);
    o.backward(&mut g);

    let eps = 1e-6;
    let x_plus = Value::new(&mut g, b(1.234 + eps));
    let x_minus = Value::new(&mut g, b(1.234 - eps));

    let pp = x_plus.mul(&mut g, y);
    let f_plus = f(pp.tanh(&mut g).value(&g));
    let pm = x_minus.mul(&mut g, y);
    let f_minus = f(pm.tanh(&mut g).value(&g));

    let numerical = (f_plus - f_minus) / (2.0 * eps);
    let autodiff = f(x.grad(&g));

    assert!((numerical - autodiff).abs() < 1e-3);
}

#[test]
fn diamond_dependency_accumulates() {
    let mut g = Graph::new();
    let a = Value::new(&mut g, b(3.0));
    let d = a.add(&mut g, a);
    d.backward(&mut g);
    assert_eq!(f(a.grad(&g)), 2.0);
}

#[test]
fn grad_check_exp_log_pow_relu() {
    let eps = 1e-6;

    let mut g = Graph::new();
    let x = Value::new(&mut g, b(0.8));
    let o = x.exp(&mut g);
    o.backward(&mut g);
    let p = Value::new(&mut g, b(0.8 + eps));
    let m = Value::new(&mut g, b(0.8 - eps));
    let fp = f(p.exp(&mut g).value(&g));
    let fm = f(m.exp(&mut g).value(&g));
    assert!(((fp - fm) / (2.0 * eps) - f(x.grad(&g))).abs() < 1e-3);

    let mut g = Graph::new();
    let x = Value::new(&mut g, b(1.7));
    let o = x.log(&mut g);
    o.backward(&mut g);
    let p = Value::new(&mut g, b(1.7 + eps));
    let m = Value::new(&mut g, b(1.7 - eps));
    let fp = f(p.log(&mut g).value(&g));
    let fm = f(m.log(&mut g).value(&g));
    assert!(((fp - fm) / (2.0 * eps) - f(x.grad(&g))).abs() < 1e-3);

    let mut g = Graph::new();
    let x = Value::new(&mut g, b(1.3));
    let o = x.pow(&mut g, b(2.5));
    o.backward(&mut g);
    let p = Value::new(&mut g, b(1.3 + eps));
    let m = Value::new(&mut g, b(1.3 - eps));
    let fp = f(p.pow(&mut g, b(2.5)).value(&g));
    let fm = f(m.pow(&mut g, b(2.5)).value(&g));
    assert!(((fp - fm) / (2.0 * eps) - f(x.grad(&g))).abs() < 1e-3);

    let mut g = Graph::new();
    let x = Value::new(&mut g, b(0.9));
    let o = x.relu(&mut g);
    o.backward(&mut g);
    assert_eq!(f(o.value(&g)), 0.9);
    assert_eq!(f(x.grad(&g)), 1.0);

    let mut g = Graph::new();
    let x = Value::new(&mut g, b(-0.9));
    let o = x.relu(&mut g);
    o.backward(&mut g);
    assert_eq!(f(o.value(&g)), 0.0);
    assert_eq!(f(x.grad(&g)), 0.0);
}

#[test]
fn nan_flows_through_log_and_pow() {
    let mut g = Graph::new();
    let x = Value::new(&mut g, b(-1.0));
    let o = x.log(&mut g);
    assert!(f(o.value(&g)).is_nan());

    let z = Value::new(&mut g, b(0.0));
    let lz = z.log(&mut g);
    assert_eq!(f(lz.value(&g)), f64::NEG_INFINITY);

    let neg = Value::new(&mut g, b(-2.0));
    let p = neg.pow(&mut g, b(0.5));
    assert!(f(p.value(&g)).is_nan());

    let pi = neg.pow(&mut g, b(2.0));
    assert_eq!(f(pi.value(&g)), 4.0);

    let other = Value::new(&mut g, b(5.0));
    let s = o.add(&mut g, other);
    assert!(f(s.value(&g)).is_nan());
}

#[test]
fn sgd_step_moves_parameters() {
    let mut g = Graph::new();
    let x = Value::new(&mut g, b(10.0));
    let y = x.mul(&mut g, x);
    y.backward(&mut g);
    assert_eq!(f(x.grad(&g)), 20.0);

    let opt = SGD::new(vec![x], b(0.1));
    opt.step(&mut g);
    assert_eq!(f(x.value(&g)), 10.0 - 0.1 * 20.0);
    assert_eq!(f(x.grad(&g)), 20.0);
}

#[test]
fn gradients_persist_across_passes() {
    let mut g = Graph::new();
    let a = Value::new(&mut g, b(3.0));
    let d = a.add(&mut g, a);
    d.backward(&mut g);
    d.backward(&mut g);
    assert_eq!(f(a.grad(&g)), 4.0);
}

#[test]
fn exact_values_at_special_points() {
    let mut g = Graph::new();
    let z = Value::new(&mut g, b(0.0));
    assert_eq!(f(z.exp(&mut g).value(&g)), 1.0);
    assert_eq!(f(z.tanh(&mut g).value(&g)), 0.0);

    let one = Value::new(&mut g, b(1.0));
    assert_eq!(f(one.log(&mut g).value(&g)), 0.0);

    let two = Value::new(&mut g, b(2.0));
    assert_eq!(f(two.pow(&mut g, b(-1.0)).value(&g)), 0.5);

    let big = Value::new(&mut g, b(1000.0));
    assert_eq!(f(big.tanh(&mut g).value(&g)), 1.0);
    let low = Value::new(&mut g, b(-1000.0));
    assert_eq!(f(low.tanh(&mut g).value(&g)), -1.0);

    let nz = Value::new(&mut g, b(-0.0));
    let r = nz.relu(&mut g);
    assert_eq!(r.value(&g), (-0.0f64).to_bits());
}
