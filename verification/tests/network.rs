use neurox::activation::Activation;
use neurox::dual_vec::DualVec;
use neurox::error::{DecodeError, Error, MismatchError, NetworkError};
use neurox::layer::dense::Dense;
use neurox::layer::LayerType;
use neurox::loss::Loss;
use neurox::network::Network;
use neurox::utils::vec_utils::VecWriter;
use neurox::{Executor, Optimizer};

fn bits(x: f32) -> u32 {
    x.to_bits()
}

fn host_values(b: &mut DualVec) -> Vec<u32> {
    b.cpu();
    let mut out = Vec::new();
    for i in 0..b.len() {
        out.push(b.get(i));
    }
    out
}

fn buffer(values: &[f32]) -> DualVec {
    let cpu = Executor::CPU;
    DualVec::from_vec((&cpu, &cpu), values.iter().map(|x| x.to_bits()).collect())
}

#[test]
fn zero_layers_is_refused() {
    let r = Network::new(3, &vec![]);
    assert!(matches!(r, Err(Error::Network(NetworkError::ZeroLayers))));
}

#[test]
fn predict_is_deterministic() {
    let layers = vec![
        (Executor::CPU, LayerType::Dense(3, Activation::TanH)),
        (Executor::CPU, LayerType::Dense(1, Activation::Linear)),
    ];
    let mut net = Network::new(2, &layers).unwrap();
    let mut inputs = buffer(&[0.3, -0.2, 0.9, 0.1]);
    let mut first = net.predict(&mut inputs);
    let mut second = net.predict(&mut inputs);
    assert_eq!(host_values(&mut first), host_values(&mut second));
}

#[test]
fn serialized_network_round_trips() {
    let layers = vec![
        (Executor::CPU, LayerType::Dense(3, Activation::Sigmoid)),
        (Executor::CPU, LayerType::Dense(2, Activation::Linear)),
    ];
    let mut net = Network::new(2, &layers).unwrap();
    let mut inputs = buffer(&[0.25, -0.75]);
    let mut before = net.predict(&mut inputs);
    let encoded = net.as_bytes();
    let mut decoded = Network::from_bytes(None, encoded).unwrap();
    let mut after = decoded.predict(&mut inputs);
    assert_eq!(host_values(&mut before), host_values(&mut after));
}

#[test]
fn accelerator_network_round_trips_to_host() {
    let layers = vec![(Executor::GPU, LayerType::Dense(2, Activation::TanH))];
    let mut net = Network::new(2, &layers).unwrap();
    let mut inputs = buffer(&[0.5, -0.5]);
    let mut before = net.predict(&mut inputs);
    let encoded = net.as_bytes();
    let mut decoded = Network::from_bytes(None, encoded).unwrap();
    let mut after = decoded.predict(&mut inputs);
    assert_eq!(host_values(&mut before), host_values(&mut after));
}

#[test]
fn unknown_layer_type_fails_to_decode() {
    let mut w = VecWriter::new();
    w.usize(1);
    w.usize(7);
    w.usize(0);
    let r = Network::from_bytes(None, w.vec());
    assert!(matches!(
        r,
        Err(Error::Decode(DecodeError::InvalidLayerType(7)))
    ));
}

#[test]
fn known_payload_computes_exactly() {
    // one dense layer: weights [2, 3], bias [0.5], linear activation
    let mut w = VecWriter::new();
    w.usize(1);
    w.usize(0);
    w.usize(0);
    w.usize(2);
    w.usize(1);
    w.usize(0);
    w.single(bits(2.0));
    w.single(bits(3.0));
    w.single(bits(0.5));
    let mut net = Network::from_bytes(None, w.vec()).unwrap();
    let mut inputs = buffer(&[1.0, 1.0, -1.0, 2.0]);
    let mut out = net.predict(&mut inputs);
    let got = host_values(&mut out);
    assert_eq!(f32::from_bits(got[0]), 5.5);
    assert_eq!(f32::from_bits(got[1]), 4.5);
}

#[test]
fn sample_mismatch_is_refused_and_mutates_nothing() {
    let layers = vec![(Executor::CPU, LayerType::Dense(1, Activation::Linear))];
    let mut net = Network::new(2, &layers).unwrap();
    let encoded_before = net.as_bytes();
    let mut inputs = buffer(&[0.1, 0.2, 0.3, 0.4, 0.5, 0.6, 0.7, 0.8]);
    let mut targets = buffer(&[1.0, 0.0, 1.0]);
    let r = net.train(
        &mut inputs,
        &mut targets,
        Optimizer::GradientDecent(bits(0.1)),
        Loss::MeanSquared,
        3,
        2,
    );
    assert!(matches!(
        r,
        Err(Error::Mismatch(MismatchError::Sample(4, 3)))
    ));
    let encoded_after = net.as_bytes();
    assert_eq!(encoded_before, encoded_after);
}

#[test]
fn training_does_not_increase_the_average_loss() {
    let layers = vec![(Executor::CPU, LayerType::Dense(1, Activation::Linear))];
    let mut net = Network::new(2, &layers).unwrap();
    let mut inputs = buffer(&[-0.6, 0.5, 0.6, 0.5, 0.0, 0.0, 1.0, 1.0]);
    let mut targets = buffer(&[0.0, 1.0, 1.0, 0.0]);
    let opt = Optimizer::GradientDecent(bits(0.05));
    let first = net
        .train(&mut inputs, &mut targets, opt, Loss::MeanSquared, 1, 2)
        .unwrap();
    let opt = Optimizer::GradientDecent(bits(0.05));
    let last = net
        .train(&mut inputs, &mut targets, opt, Loss::MeanSquared, 400, 2)
        .unwrap();
    let first = f32::from_bits(first);
    let last = f32::from_bits(last);
    assert!(
        last <= first + 0.05,
        "loss went up: first {} last {}",
        first,
        last
    );
}

#[test]
fn loss_values_are_the_mean_squared_error() {
    let cpu = Executor::CPU;
    let mut actual = buffer(&[3.0, 1.0]);
    let mut target = buffer(&[1.0, 1.0]);
    let loss = Loss::MeanSquared;
    let r = loss
        .calculate(&cpu, &mut actual, 2, &mut target, &vec![0], 1)
        .unwrap();
    let mut r = r;
    let got = host_values(&mut r);
    assert_eq!(f32::from_bits(got[0]), 2.0);
}

#[test]
fn loss_gradients_scale_the_difference() {
    let cpu = Executor::CPU;
    let mut actual = buffer(&[3.0, 2.0]);
    let mut target = buffer(&[1.0, 1.0]);
    let mut out = buffer(&[0.0, 0.0]);
    let loss = Loss::MeanSquared;
    loss.dynamic_derivative(&cpu, &mut actual, 2, &mut target, &vec![0], &mut out);
    let got = host_values(&mut out);
    assert_eq!(f32::from_bits(got[0]), 2.0);
    assert_eq!(f32::from_bits(got[1]), 1.0);
}

#[test]
fn dense_getters_report_the_shape() {
    let cpu = Executor::CPU;
    let mut d = Dense::new((&cpu, &cpu, &cpu), 3, 2, Activation::ReLU);
    assert_eq!(d.input_size(), 3);
    assert_eq!(d.output_size(), 2);
    assert_eq!(d.id(), 0);
    assert_eq!(*d.exec(), Executor::CPU);
    let vals = d.values();
    assert_eq!(vals.len(), 2);
    let mut weights = vals.into_iter().next().unwrap();
    assert_eq!(weights.len(), 6);
    let _ = host_values(&mut weights);
    let acts = d.activated_output();
    assert_eq!(acts.len(), 2);
    let sens = d.sensitivities();
    assert_eq!(sens.len(), 3);
}

#[test]
fn executor_and_optimizer_accessors() {
    assert_eq!(Executor::gpu(), Executor::GPU);
    let o = Optimizer::GradientDecent(bits(0.25));
    assert_eq!(f32::from_bits(o.learn_rate()), 0.25);
}
