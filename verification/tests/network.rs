use scalargrad::engine::{Graph, Value, SGD};
use scalargrad::nn::{Layer, Module, Neuron, RandomSource, MLP};

fn b(x: f64) -> u64 {
    x.to_bits()
}

fn f(x: u64) -> f64 {
    f64::from_bits(x)
}

#[test]
fn test_neuron_call() {
    let mut g = Graph::new();
    let mut src = RandomSource::from_seed(42);
    let x = vec![Value::new(&mut g, b(2.0)), Value::new(&mut g, b(3.0))];
    let n = Neuron::new(&mut g, &mut src, 2, true);
    let z = n.call(&mut g, &x);
    z.backward(&mut g);
    assert!(f(z.value(&g)).abs() <= 1.0);
}

#[test]
fn test_layer_call() {
    let mut g = Graph::new();
    let mut src = RandomSource::from_seed(42);
    let x = vec![Value::new(&mut g, b(2.0)), Value::new(&mut g, b(3.0))];
    let l = Layer::new(&mut g, &mut src, 2, 3, true);
    let outs = l.call(&mut g, &x);
    assert_eq!(outs.len(), 3);
    let mut loss = Value::new(&mut g, b(0.0));
    for v in &outs {
        loss = loss.add(&mut g, *v);
    }
    loss.backward(&mut g);
}

#[test]
fn test_mlp_and_params() {
    let mut g = Graph::new();
    let mut src = RandomSource::from_seed(42);
    let x = vec![Value::new(&mut g, b(2.0)), Value::new(&mut g, b(3.0))];
    let model = MLP::new(&mut g, &mut src, 2, &vec![4, 4, 1]);
    let out = model.call(&mut g, x);

    assert_eq!(out.len(), 1);

    model.zero_grad(&mut g);
    out[0].backward(&mut g);

    let params = model.parameters();
    assert_eq!(params.len(), 37);
}

#[test]
fn weights_start_inside_unit_interval() {
    let mut src = RandomSource::from_seed(9);
    for _ in 0..50 {
        let w = f(src.unit());
        assert!((-1.0..1.0).contains(&w));
    }

    let mut g = Graph::new();
    let mut src = RandomSource::from_seed(9);
    let n = Neuron::new(&mut g, &mut src, 3, false);
    for p in n.parameters() {
        let v = f(p.value(&g));
        assert!((-1.0..=1.0).contains(&v));
    }
    let last = n.parameters()[3];
    assert_eq!(f(last.value(&g)), 0.0);
}

#[test]
fn zero_grad_resets_and_isolates_passes() {
    let run = |with_first_pass: bool| -> Vec<f64> {
        let mut g = Graph::new();
        let mut src = RandomSource::from_seed(5);
        let n = Neuron::new(&mut g, &mut src, 2, true);
        let x = vec![Value::new(&mut g, b(0.5)), Value::new(&mut g, b(-1.5))];
        let z1 = n.call(&mut g, &x);
        if with_first_pass {
            z1.backward(&mut g);
            n.zero_grad(&mut g);
            for p in n.parameters() {
                assert_eq!(f(p.grad(&g)), 0.0);
            }
        }
        let z2 = n.call(&mut g, &x);
        z2.backward(&mut g);
        n.parameters().iter().map(|p| f(p.grad(&g))).collect()
    };
    let with_history = run(true);
    let fresh = run(false);
    assert_eq!(with_history, fresh);
}

#[test]
fn test_xor_training_showcase() {
    let mut g = Graph::new();
    let mut src = RandomSource::from_seed(8);
    let model = MLP::new(&mut g, &mut src, 2, &vec![4, 4, 1]);
    let optimizer = SGD::new(model.parameters(), b(0.1));

    // exclusive-or dataset
    let raw_inputs = [[0.0, 0.0], [0.0, 1.0], [1.0, 0.0], [1.0, 1.0]];
    let targets = [0.0, 1.0, 1.0, 0.0];

    println!("Starting XOR Training...");

    for epoch in 0..100 {
        let mut total_loss = Value::new(&mut g, b(0.0));

        for (xv, y_true) in raw_inputs.iter().zip(targets.iter()) {
            let x = vec![Value::new(&mut g, b(xv[0])), Value::new(&mut g, b(xv[1]))];
            let y_pred = model.call(&mut g, x)[0];

            let t = Value::new(&mut g, b(*y_true));
            let diff = y_pred.sub(&mut g, t);
            let loss = diff.mul(&mut g, diff);
            total_loss = total_loss.add(&mut g, loss);
        }

        model.zero_grad(&mut g);
        total_loss.backward(&mut g);

        optimizer.step(&mut g);

        if epoch % 20 == 0 {
            println!("Epoch {}: Loss {:.4}", epoch, f(total_loss.value(&g)));
        }
    }

    for (xv, y_true) in raw_inputs.iter().zip(targets.iter()) {
        let x = vec![Value::new(&mut g, b(xv[0])), Value::new(&mut g, b(xv[1]))];
        let pred = f(model.call(&mut g, x)[0].value(&g));
        println!("In: {:?} Target: {} Pred: {:.4}", xv, y_true, pred);
        assert!((pred - y_true).abs() < 0.2);
    }
}
