use std::sync::atomic::{AtomicBool, Ordering};

use rand::SeedableRng;
use fingers::gradient::TrainData;
use fingers::linalg::Matrix;
use fingers::network::{Network, NetworkDefn, NnError, TrainConfig};
use fingers::train::{BatchSource, EpochReport, FeatureSource, ProgressSink, SilentProgress, TrainTermination, ValidationTracker};

fn bits(x: f32) -> u32 {
    x.to_bits()
}

fn val(b: u32) -> f32 {
    f32::from_bits(b)
}

fn defn(layers: Vec<usize>, coeffs: Vec<f32>, name: &str) -> NetworkDefn {
    NetworkDefn {
        layers,
        activation_coeffs: coeffs.into_iter().map(|c| c.to_bits()).collect(),
        activation_fn: String::from(name),
    }
}

fn config(lr: f32, patience: usize, max_epochs: Option<usize>) -> TrainConfig {
    TrainConfig {
        learning_rate: bits(lr),
        momentum_rate: None,
        validation_ratio: bits(0.0),
        sequential_validation_failures_required: patience,
        max_epochs,
        epoch_log_period: None,
        batch_size: None,
        regularization_param: bits(0.0),
    }
}

fn seeded_rng(seed: u8) -> rand::prng::XorShiftRng {
    rand::prng::XorShiftRng::from_seed([seed, 2, 3, 4, 5, 6, 7, 8, 9, 10, 11, 12, 13, 14, 15, 16])
}

struct FullBatch {
    data: TrainData,
    calls: usize,
}

impl BatchSource for FullBatch {
    fn next_batch(&mut self) -> Option<TrainData> {
        self.calls += 1;
        Some(self.data.clone())
    }
}

struct Limited {
    data: TrainData,
    left: usize,
}

impl BatchSource for Limited {
    fn next_batch(&mut self) -> Option<TrainData> {
        if self.left == 0 {
            None
        } else {
            self.left -= 1;
            Some(self.data.clone())
        }
    }
}

struct Cycling {
    data: TrainData,
    calls: usize,
}

impl BatchSource for Cycling {
    fn next_batch(&mut self) -> Option<TrainData> {
        let ex = self.data[self.calls % self.data.len()].clone();
        self.calls += 1;
        Some(vec![ex])
    }
}

struct FeatureBatch {
    data: Vec<Vec<u32>>,
    left: usize,
}

impl FeatureSource for FeatureBatch {
    fn next_features(&mut self) -> Option<Vec<Vec<u32>>> {
        if self.left == 0 {
            None
        } else {
            self.left -= 1;
            Some(self.data.clone())
        }
    }
}

#[test]
fn tracker_counts_non_improving_epochs() {
    let mut t = ValidationTracker::new();
    assert_eq!(t.streak, 0);
    assert!(t.observe(bits(1.0)));
    assert_eq!((val(t.best_cost), t.streak), (1.0, 0));
    assert!(!t.observe(bits(2.0)));
    assert_eq!((val(t.best_cost), t.streak), (1.0, 1));
    assert!(!t.observe(bits(1.5)));
    assert_eq!((val(t.best_cost), t.streak), (1.0, 2));
    assert!(!t.observe(bits(1.0)));
    assert_eq!((val(t.best_cost), t.streak), (1.0, 3));
    assert!(t.observe(bits(0.5)));
    assert_eq!((val(t.best_cost), t.streak), (0.5, 0));
}

#[test]
fn train_stops_at_epoch_cap() {
    let mut net = Network::from_definition(&defn(vec![2, 1], vec![0.0, 1.0], "id")).unwrap();
    let data: TrainData = vec![(vec![bits(1.0), bits(1.0)], vec![bits(1.0)])];
    let mut src = FullBatch { data, calls: 0 };
    let r = net.train(&mut src, None, &config(0.01, 5, Some(3)), None, &mut SilentProgress).unwrap();
    assert_eq!(r, TrainTermination::MaxEpochsReached);
    assert_eq!(src.calls, 3);
}

#[test]
fn train_stops_when_data_runs_dry() {
    let mut net = Network::from_definition(&defn(vec![2, 1], vec![0.0, 1.0], "id")).unwrap();
    let data: TrainData = vec![(vec![bits(1.0), bits(1.0)], vec![bits(1.0)])];
    let mut src = Limited { data, left: 2 };
    let r = net.train(&mut src, None, &config(0.01, 5, None), None, &mut SilentProgress).unwrap();
    assert_eq!(r, TrainTermination::DataExhausted);
}

#[test]
fn train_honours_cancellation_flag() {
    let mut net = Network::from_definition(&defn(vec![2, 1], vec![0.0, 1.0], "id")).unwrap();
    let data: TrainData = vec![(vec![bits(1.0), bits(1.0)], vec![bits(1.0)])];
    let mut src = FullBatch { data, calls: 0 };
    let flag = AtomicBool::new(true);
    flag.store(false, Ordering::SeqCst);
    let r = net.train(&mut src, None, &config(0.01, 5, None), Some(&flag), &mut SilentProgress).unwrap();
    assert_eq!(r, TrainTermination::Stopped);
    assert_eq!(src.calls, 0);
}

#[test]
fn train_rejects_misshapen_batch() {
    let mut net = Network::from_definition(&defn(vec![2, 1], vec![0.0, 1.0], "id")).unwrap();
    let data: TrainData = vec![(vec![bits(1.0)], vec![bits(1.0)])];
    let mut src = FullBatch { data, calls: 0 };
    let r = net.train(&mut src, None, &config(0.01, 5, Some(3)), None, &mut SilentProgress);
    assert_eq!(r.unwrap_err(), NnError::ShapeMismatch);
}

#[test]
fn gradient_reduction_is_order_insensitive_within_tolerance() {
    let mut net = Network::from_definition(&defn(vec![3, 4, 1], vec![0.0, 1.0, 1.0], "sigmoid")).unwrap();
    let mut rng = seeded_rng(21);
    net.assign_random_weights(&mut rng);
    let examples: Vec<(Vec<u32>, Vec<u32>)> = vec![
        (vec![bits(0.0), bits(0.0), bits(1.0)], vec![bits(0.0)]),
        (vec![bits(1.0), bits(0.0), bits(1.0)], vec![bits(1.0)]),
        (vec![bits(0.0), bits(1.0), bits(1.0)], vec![bits(1.0)]),
        (vec![bits(1.0), bits(1.0), bits(1.0)], vec![bits(0.0)]),
    ];
    let sum_in_order = |order: &[usize]| -> Vec<Matrix> {
        let mut acc = net.zero_weights();
        for &k in order {
            let g = net.example_contribution(&examples[k].0, &examples[k].1);
            acc = fingers::gradient::weight_sum(acc, &g.weight_update);
        }
        acc
    };
    let a = sum_in_order(&[0, 1, 2, 3]);
    let b = sum_in_order(&[3, 1, 0, 2]);
    for (ma, mb) in a.iter().zip(b.iter()) {
        for (ra, rb) in ma.data.iter().zip(mb.data.iter()) {
            for (&wa, &wb) in ra.iter().zip(rb.iter()) {
                assert!((val(wa) - val(wb)).abs() < 1e-5);
            }
        }
    }
}

#[test]
fn update_weights_applies_exact_formula() {
    let mut net = Network::from_definition(&defn(vec![2, 1], vec![0.0, 1.0], "id")).unwrap();
    net.weights[1].data[0][0] = bits(1.0);
    net.weights[1].data[1][0] = bits(-0.5);
    net.biases[1][0] = bits(0.25);
    let mut conf = config(0.1, 5, None);
    conf.momentum_rate = Some(bits(0.9));
    conf.regularization_param = bits(0.5);
    let wu = vec![
        Matrix { cols: 0, data: vec![] },
        Matrix { cols: 1, data: vec![vec![bits(0.2)], vec![bits(-0.4)]] },
    ];
    let bu = vec![vec![bits(0.0), bits(0.0)], vec![bits(0.1)]];
    let lwu = vec![
        Matrix { cols: 0, data: vec![] },
        Matrix { cols: 1, data: vec![vec![bits(0.6)], vec![bits(0.8)]] },
    ];
    let lbu = vec![vec![bits(0.0), bits(0.0)], vec![bits(0.3)]];
    let examples = 2usize;
    net.update_weights(&wu, &bu, &lwu, &lbu, examples, &conf);
    let n = examples as f32;
    let step = |w: f32, dw: f32, ldw: f32| -> f32 {
        let shrunk = w * (1.0 - 0.5f32 * 0.1f32 / n);
        let stepped = shrunk - dw / n * 0.1f32;
        stepped - ldw / n * 0.9f32
    };
    assert_eq!(net.weights[1].data[0][0], step(1.0, 0.2, 0.6).to_bits());
    assert_eq!(net.weights[1].data[1][0], step(-0.5, -0.4, 0.8).to_bits());
    let b_expect = (0.25f32 - 0.1f32 / n * 0.1f32) - 0.3f32 / n * 0.9f32;
    assert_eq!(net.biases[1][0], b_expect.to_bits());
}

#[test]
fn split_keeps_every_example_and_takes_the_ratio() {
    let data: TrainData = (0..8)
        .map(|i| (vec![bits(i as f32), bits(1.0)], vec![bits(i as f32)]))
        .collect();
    let mut conf = config(0.1, 5, None);
    conf.validation_ratio = bits(0.25);
    let mut rng = seeded_rng(17);
    let (train, validation) = Network::split_data_sequences(&mut rng, data.clone(), &conf);
    assert_eq!(validation.len(), 2);
    assert_eq!(train.len() + validation.len(), data.len());
    let mut cursor = 0;
    for ex in &train {
        while cursor < data.len() && data[cursor] != *ex {
            cursor += 1;
        }
        assert!(cursor < data.len(), "training examples must keep the original order");
        cursor += 1;
    }
    for ex in &validation {
        assert!(data.contains(ex));
    }
}

#[test]
fn split_autoencoder_partitions_features() {
    let data: Vec<Vec<u32>> = (0..10).map(|i| vec![bits(i as f32)]).collect();
    let mut conf = config(0.1, 5, None);
    conf.validation_ratio = bits(0.5);
    let mut rng = seeded_rng(29);
    let (train, validation) = Network::split_data_sequences_autoencoder(&mut rng, data.clone(), &conf);
    assert_eq!(validation.len(), 5);
    assert_eq!(train.len(), 5);
    for ex in train.iter().chain(validation.iter()) {
        assert!(data.contains(ex));
    }
}

#[test]
fn linear_regression_converges_to_near_zero_error() {
    let mut net = Network::from_definition(&defn(vec![3, 1], vec![0.0, 1.0], "id")).unwrap();
    let target = |x1: f32, x2: f32| 0.3 * x1 - 0.7 * x2 + 0.2;
    let points = [(0.0f32, 0.0f32), (1.0, 0.0), (0.0, 1.0), (1.0, 1.0)];
    let data: TrainData = points
        .iter()
        .map(|&(x1, x2)| (vec![bits(x1), bits(x2), bits(1.0)], vec![bits(target(x1, x2))]))
        .collect();
    let mut src = FullBatch { data: data.clone(), calls: 0 };
    let r = net.train(&mut src, None, &config(0.3, 5, Some(400)), None, &mut SilentProgress).unwrap();
    assert_eq!(r, TrainTermination::MaxEpochsReached);
    let mut err = 0.0f32;
    for (input, want) in &data {
        let out = net.eval(input.clone());
        let d = val(out[0]) - val(want[0]);
        err += d * d;
    }
    err /= points.len() as f32;
    assert!(err < 1e-4, "training error stayed at {err}");
}

#[test]
fn xor_network_learns_low_output_for_equal_inputs() {
    let mut net = Network::from_definition(&defn(vec![3, 4, 1], vec![0.0, 1.0, 1.0], "sigmoid")).unwrap();
    let mut rng = seeded_rng(2);
    net.assign_random_weights(&mut rng);
    let mut data: TrainData = Vec::new();
    for i in 0..100 {
        let a = (i / 25) % 2 == 1;
        let b = (i / 50) % 2 == 1;
        let a_in = if a { 1.0f32 } else { 0.0 };
        let b_in = if b { 1.0f32 } else { 0.0 };
        let t = if a != b { 1.0f32 } else { 0.0 };
        data.push((vec![bits(a_in), bits(b_in), bits(1.0)], vec![bits(t)]));
    }
    let before = val(net.eval(vec![bits(1.0), bits(1.0), bits(1.0)])[0]);
    // the supplier draws one example per epoch, the default batch fraction
    // of a hundred examples; cycling through the four distinct patterns
    // sees each as often as the generated set holds it
    let mut distinct: TrainData = Vec::new();
    for ex in &data {
        if !distinct.contains(ex) {
            distinct.push(ex.clone());
        }
    }
    assert_eq!(distinct.len(), 4);
    let mut src = Cycling { data: distinct, calls: 0 };
    let mut conf = config(0.05, 5, Some(260_000));
    conf.batch_size = Some(0.01f64.to_bits());
    let r = net.train(&mut src, None, &conf, None, &mut SilentProgress).unwrap();
    assert_eq!(r, TrainTermination::MaxEpochsReached);
    let after = val(net.eval(vec![bits(1.0), bits(1.0), bits(1.0)])[0]);
    assert!(after < 0.2, "eval([1,1,1]) stayed high: {after}");
    assert!(after < before, "training did not lower the XOR(1,1) output ({before} -> {after})");
}

#[test]
fn autoencoder_trains_through_the_adapter() {
    let mut net = Network::from_definition(&defn(vec![2, 2], vec![0.0, 1.0], "id")).unwrap();
    let features: Vec<Vec<u32>> = vec![
        vec![bits(1.0), bits(0.0)],
        vec![bits(0.0), bits(1.0)],
    ];
    let src = FeatureBatch { data: features.clone(), left: 50 };
    let r = net.train_autoencoder(src, Some(features), &config(0.2, 3, Some(50)), None, &mut SilentProgress).unwrap();
    assert!(matches!(r, TrainTermination::MaxEpochsReached | TrainTermination::Converged));
    assert_eq!(net.layer_sizes, vec![2, 2]);
}

struct Recorder {
    epochs: Vec<usize>,
    validating: Vec<bool>,
}

impl ProgressSink for Recorder {
    fn report(&mut self, r: EpochReport) {
        self.epochs.push(r.epoch);
        self.validating.push(r.validation.is_some());
    }
}

#[test]
fn progress_reports_follow_the_period() {
    let mut net = Network::from_definition(&defn(vec![2, 1], vec![0.0, 1.0], "id")).unwrap();
    let data: TrainData = vec![(vec![bits(1.0), bits(1.0)], vec![bits(1.0)])];
    let mut src = FullBatch { data: data.clone(), calls: 0 };
    let mut rec = Recorder { epochs: Vec::new(), validating: Vec::new() };
    net.train(&mut src, None, &config(0.01, 5, Some(25)), None, &mut rec).unwrap();
    assert_eq!(rec.epochs, vec![10, 20]);
    assert!(rec.validating.iter().all(|&v| !v));
    let mut conf = config(0.01, 5, Some(25));
    conf.epoch_log_period = Some(7);
    let mut src2 = FullBatch { data: data.clone(), calls: 0 };
    let mut rec2 = Recorder { epochs: Vec::new(), validating: Vec::new() };
    net.train(&mut src2, Some(data.clone()), &conf, None, &mut rec2).unwrap();
    assert_eq!(rec2.epochs, vec![7, 14, 21]);
    assert!(rec2.validating.iter().all(|&v| v));
}

#[test]
fn train_returns_immediately_under_a_zero_epoch_cap() {
    let mut net = Network::from_definition(&defn(vec![2, 1], vec![0.0, 1.0], "id")).unwrap();
    net.weights[1].data[0][0] = bits(0.75);
    let before = net.eval(vec![bits(1.0), bits(2.0)]);
    let data: TrainData = vec![(vec![bits(1.0), bits(1.0)], vec![bits(1.0)])];
    let mut src = FullBatch { data, calls: 0 };
    let r = net.train(&mut src, None, &config(0.01, 5, Some(0)), None, &mut SilentProgress).unwrap();
    assert_eq!(r, TrainTermination::MaxEpochsReached);
    assert_eq!(src.calls, 0);
    assert_eq!(net.eval(vec![bits(1.0), bits(2.0)]), before);
}
