use rand::SeedableRng;
use fingers::activation::ActivationFunction;
use fingers::network::{Network, NetworkDefn, NnError, TrainConfig};

fn bits(x: f32) -> u32 {
    x.to_bits()
}

fn val(b: u32) -> f32 {
    f32::from_bits(b)
}

fn defn(layers: Vec<usize>, coeffs: Vec<f32>, name: &str) -> NetworkDefn {
    NetworkDefn {
        layers,
        activation_coeffs: coeffs.into_iter().map(|c| c.to_bits()).collect(),
        activation_fn: String::from(name),
    }
}

fn base_config() -> TrainConfig {
    TrainConfig {
        learning_rate: bits(0.05),
        momentum_rate: None,
        validation_ratio: bits(0.0),
        sequential_validation_failures_required: 5,
        max_epochs: None,
        epoch_log_period: None,
        batch_size: None,
        regularization_param: bits(0.0),
    }
}

#[test]
fn from_definition_shapes() {
    let net = Network::from_definition(&defn(vec![3, 4, 1], vec![0.0, 1.0, 1.0], "sigmoid")).unwrap();
    assert_eq!(net.layer_sizes, vec![3, 4, 1]);
    assert_eq!(net.weights.len(), 3);
    assert_eq!(net.biases.len(), 3);
    assert_eq!(net.weights[0].data.len(), 0);
    assert_eq!(net.weights[0].cols, 0);
    assert_eq!(net.weights[1].data.len(), 3);
    assert_eq!(net.weights[1].cols, 4);
    assert_eq!(net.weights[2].data.len(), 4);
    assert_eq!(net.weights[2].cols, 1);
    assert_eq!(net.biases[0].len(), 3);
    assert_eq!(net.biases[1].len(), 4);
    assert_eq!(net.biases[2].len(), 1);
    for m in &net.weights {
        for row in &m.data {
            for &w in row {
                assert_eq!(w, 0);
            }
        }
    }
    assert_eq!(net.activation_coeffs[0], 0);
    assert_eq!(net.activation_coeffs[1], bits(1.0));
}

#[test]
fn from_definition_rejects_short_topology() {
    let r = Network::from_definition(&defn(vec![3], vec![0.0], "sigmoid"));
    assert_eq!(r.unwrap_err(), NnError::Configuration);
}

#[test]
fn from_definition_rejects_coeff_mismatch() {
    let r = Network::from_definition(&defn(vec![3, 1], vec![0.0], "sigmoid"));
    assert_eq!(r.unwrap_err(), NnError::Configuration);
}

#[test]
fn from_definition_rejects_empty_layer() {
    let r = Network::from_definition(&defn(vec![3, 0, 1], vec![0.0, 1.0, 1.0], "sigmoid"));
    assert_eq!(r.unwrap_err(), NnError::Configuration);
}

#[test]
fn from_definition_rejects_unknown_activation() {
    let r = Network::from_definition(&defn(vec![3, 1], vec![0.0, 1.0], "relu"));
    assert_eq!(r.unwrap_err(), NnError::UnrecognizedActivation);
}

#[test]
fn activation_identity_exact() {
    let f = ActivationFunction::Identity;
    assert_eq!(f.function(bits(3.5), bits(2.0)), bits(3.5f32 * 2.0));
    assert_eq!(f.derivative(bits(3.5), bits(2.0)), bits(2.0));
}

#[test]
fn activation_sigmoid_matches_formula() {
    let f = ActivationFunction::Sigmoid;
    let x = 0.75f32;
    let c = 1.25f32;
    let got = val(f.function(bits(x), bits(c)));
    let expect = 1.0 / (1.0 + (-x * c).exp());
    assert!((got - expect).abs() < 1e-6, "got {got}, expected {expect}");
    let dgot = val(f.derivative(bits(x), bits(c)));
    let s = 1.0 / (1.0 + (-x * c).exp());
    let dexpect = c * s * (1.0 - s);
    assert!((dgot - dexpect).abs() < 1e-6);
}

#[test]
fn activation_tanh_keeps_cosh_derivative() {
    let f = ActivationFunction::Tanh;
    let x = 0.5f32;
    let c = 2.0f32;
    let got = val(f.function(bits(x), bits(c)));
    assert!((got - (x * c).tanh()).abs() < 1e-6);
    let dgot = val(f.derivative(bits(x), bits(c)));
    let dexpect = c / (x * c).cosh();
    assert!((dgot - dexpect).abs() < 1e-6);
    let standard = c * (1.0 - (x * c).tanh() * (x * c).tanh());
    assert!((dgot - standard).abs() > 1e-3, "the cosh form must not be the algebraic tanh derivative");
}

#[test]
fn eval_matches_hand_computation_exactly() {
    let mut net = Network::from_definition(&defn(vec![2, 1], vec![0.0, 1.0], "id")).unwrap();
    net.weights[1].data[0][0] = bits(0.25);
    net.weights[1].data[1][0] = bits(-1.5);
    net.biases[1][0] = bits(0.125);
    let out = net.eval(vec![bits(2.0), bits(3.0)]);
    let expect = ((2.0f32 * 0.25 + 3.0f32 * -1.5) + 0.125) * 1.0;
    assert_eq!(out, vec![expect.to_bits()]);
}

#[test]
fn eval_is_deterministic_bitwise() {
    let mut net = Network::from_definition(&defn(vec![3, 4, 2], vec![0.0, 1.0, 0.5], "sigmoid")).unwrap();
    let mut rng = seeded_rng(7);
    net.assign_random_weights(&mut rng);
    let input = vec![bits(0.1), bits(-0.2), bits(0.3)];
    let a = net.eval(input.clone());
    let b = net.eval(input);
    assert_eq!(a, b);
}

fn seeded_rng(seed: u8) -> rand::prng::XorShiftRng {
    rand::prng::XorShiftRng::from_seed([seed, 2, 3, 4, 5, 6, 7, 8, 9, 10, 11, 12, 13, 14, 15, 16])
}

#[test]
fn eval_to_layer_returns_intermediate_activations() {
    let mut net = Network::from_definition(&defn(vec![2, 2, 1], vec![0.0, 1.0, 1.0], "id")).unwrap();
    net.weights[1].data[0][0] = bits(1.0);
    net.weights[1].data[1][1] = bits(1.0);
    net.biases[1][0] = bits(0.5);
    let input = vec![bits(1.0), bits(2.0)];
    let hidden = net.eval_to_layer(input.clone(), 2);
    assert_eq!(hidden, vec![bits(1.5), bits(2.0)]);
    let first = net.eval_to_layer(input, 1);
    assert_eq!(first, vec![bits(1.0), bits(2.0)]);
}

#[test]
fn assign_random_weights_fills_and_keeps_shape() {
    let mut net = Network::from_definition(&defn(vec![4, 3, 2], vec![0.0, 1.0, 1.0], "tanh")).unwrap();
    let mut rng = seeded_rng(42);
    net.assign_random_weights(&mut rng);
    assert_eq!(net.weights[1].data.len(), 4);
    assert_eq!(net.weights[1].cols, 3);
    assert_eq!(net.weights[2].data.len(), 3);
    assert_eq!(net.weights[2].cols, 2);
    let mut nonzero = 0;
    for m in &net.weights {
        for row in &m.data {
            for &w in row {
                if w != 0 {
                    nonzero += 1;
                }
            }
        }
    }
    assert!(nonzero >= 10, "the Gaussian initializer left the weights zero");
    for &w in net.weights[1].data.iter().flatten() {
        assert!(val(w).abs() < 1.0, "a draw from the 0.1 std dev Gaussian was out of range: {}", val(w));
    }
}

#[test]
fn snapshot_round_trip_preserves_eval_exactly() {
    let mut net = Network::from_definition(&defn(vec![3, 5, 2], vec![0.0, 1.3, 0.8], "sigmoid")).unwrap();
    let mut rng = seeded_rng(9);
    net.assign_random_weights(&mut rng);
    let bytes = net.to_snapshot_bytes();
    let restored = Network::from_snapshot_bytes(&bytes).unwrap();
    let probe = vec![bits(0.4), bits(-0.6), bits(1.0)];
    assert_eq!(net.eval(probe.clone()), restored.eval(probe));
    assert_eq!(restored.layer_sizes, net.layer_sizes);
    assert_eq!(restored.to_snapshot_bytes(), bytes);
}

#[test]
fn snapshot_rejects_truncation_version_and_garbage() {
    let mut net = Network::from_definition(&defn(vec![2, 2], vec![0.0, 1.0], "id")).unwrap();
    let mut rng = seeded_rng(3);
    net.assign_random_weights(&mut rng);
    let bytes = net.to_snapshot_bytes();
    let mut truncated = bytes.clone();
    truncated.pop();
    assert_eq!(Network::from_snapshot_bytes(&truncated).unwrap_err(), NnError::Persistence);
    let mut wrong_version = bytes.clone();
    wrong_version[0] = 9;
    assert_eq!(Network::from_snapshot_bytes(&wrong_version).unwrap_err(), NnError::Persistence);
    let mut bad_tag = bytes.clone();
    bad_tag[1] = 7;
    assert_eq!(Network::from_snapshot_bytes(&bad_tag).unwrap_err(), NnError::Persistence);
    let mut trailing = bytes.clone();
    trailing.push(0);
    assert_eq!(Network::from_snapshot_bytes(&trailing).unwrap_err(), NnError::Persistence);
}

#[test]
fn cost_matches_regularized_formula_exactly() {
    let mut net = Network::from_definition(&defn(vec![2, 1], vec![0.0, 1.0], "id")).unwrap();
    net.weights[1].data[0][0] = bits(0.5);
    net.weights[1].data[1][0] = bits(-2.0);
    let mut conf = base_config();
    conf.regularization_param = bits(0.3);
    let err = 0.75f32;
    let examples = 4usize;
    let got = net.cost(bits(err), examples, &conf);
    let mut sq_sum = 0.0f32;
    for m_entries in [vec![] as Vec<f32>, vec![0.5, -2.0]] {
        let mut mat_sq = 0.0f32;
        for w in m_entries {
            mat_sq += w * w;
        }
        sq_sum += mat_sq / examples as f32;
    }
    let expect = err + 0.3f32 * sq_sum / 2.0f32;
    assert_eq!(got, expect.to_bits());
    let mut zero_conf = base_config();
    zero_conf.regularization_param = bits(0.0);
    assert_eq!(net.cost(bits(err), examples, &zero_conf), (err + 0.0f32).to_bits());
    assert_eq!(net.cost(bits(err), 0, &zero_conf), 0.0f32.to_bits());
}
