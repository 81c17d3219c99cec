use neurox::activation::Activation;

fn activate(a: &Activation, x: f32) -> f32 {
    f32::from_bits(a.activate(x.to_bits()))
}

fn derivative(a: &Activation, x: f32) -> f32 {
    f32::from_bits(a.derivative(x.to_bits()))
}

fn check_derivative_on_grid(a: Activation) {
    let h = 1e-3f32;
    for i in 0..91 {
        // the grid dodges zero, where the rectifier's derivative jumps
        let x = -5.0f32 + 0.11f32 * i as f32;
        let numerical = (activate(&a, x + h) - activate(&a, x - h)) / (2.0 * h);
        let stated = derivative(&a, x);
        assert!(
            (numerical - stated).abs() < 1e-3,
            "{:?} at {}: numerical {} stated {}",
            a,
            x,
            numerical,
            stated
        );
    }
}

#[test]
fn linear_derivative_matches_numerical() {
    check_derivative_on_grid(Activation::Linear);
}

#[test]
fn relu_derivative_matches_numerical() {
    check_derivative_on_grid(Activation::ReLU);
}

#[test]
fn tanh_derivative_matches_numerical() {
    check_derivative_on_grid(Activation::TanH);
}

#[test]
fn sigmoid_derivative_matches_numerical() {
    check_derivative_on_grid(Activation::Sigmoid);
}

#[test]
fn pnsigmoid_derivative_matches_numerical() {
    check_derivative_on_grid(Activation::PNSigmoid);
}

#[test]
fn activation_values_match_formulas() {
    assert_eq!(activate(&Activation::Linear, -3.5), -3.5);
    assert_eq!(activate(&Activation::ReLU, -3.5), 0.0);
    assert_eq!(activate(&Activation::ReLU, 2.25), 2.25);
    let x = 0.7f32;
    let sig = activate(&Activation::Sigmoid, x);
    assert!((sig - 1.0 / (1.0 + (-x).exp())).abs() < 1e-6);
    let th = activate(&Activation::TanH, x);
    assert!((th - x.tanh()).abs() < 1e-6);
    let pn = activate(&Activation::PNSigmoid, x);
    assert!((pn - (2.0 / (1.0 + (-x).exp()) - 1.0)).abs() < 1e-6);
}

#[test]
fn activation_ids_round_trip() {
    let kinds = [
        Activation::Linear,
        Activation::ReLU,
        Activation::TanH,
        Activation::Sigmoid,
        Activation::PNSigmoid,
    ];
    for (i, a) in kinds.iter().enumerate() {
        assert_eq!(a.id(), i);
        assert_eq!(Activation::from(a.id()), *a);
    }
    assert_eq!(Activation::from(99), Activation::Linear);
}
