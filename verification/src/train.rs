//! The trainer: the epoch loop with early stopping against a validation
//! holdout and cooperative cancellation, and the random data splitter.

use core::sync::atomic::{AtomicBool, Ordering};
use vstd::prelude::*;

verus! {

use crate::gradient::{batch_shaped, TrainData};
use crate::network::{lemma_net_eq_wf, net_eq, Network, NnError, TrainConfig};
use crate::rng::sample_indices;
use crate::scalar::{div_f, flt, lt_f, mul_f, of_usize_f, trunc_f, INFINITY_BITS};

/// Why a training run ended: the cancellation flag was lowered, the
/// validation failure streak reached the configured patience, the epoch
/// cap was hit, or the batch supplier ran dry.
#[derive(Clone, Copy, Debug, PartialEq, Eq, Structural)]
pub enum TrainTermination {
    Stopped,
    Converged,
    MaxEpochsReached,
    DataExhausted,
}

/// The supplier of one epoch's batch, implemented by the caller: a random
/// subset of the training set, or `None` when no more data is to be had.
pub trait BatchSource {
    fn next_batch(&mut self) -> Option<TrainData>;
}

/// The supplier of unlabeled feature batches for autoencoder training,
/// where each vector serves as both input and target.
pub trait FeatureSource {
    fn next_features(&mut self) -> Option<Vec<Vec<u32>>>;
}

/// The validation side of one epoch's progress report: the epoch's
/// validation cost, the best cost seen so far, and the current failure
/// streak.
#[derive(Clone, Copy, Debug, PartialEq, Eq, Structural)]
pub struct ValidationProgress {
    pub cost: u32,
    pub best_cost: u32,
    pub streak: usize,
}

/// One epoch's progress report: the epoch index, the reported training
/// cost, and the validation figures when a holdout is configured.
#[derive(Clone, Copy, Debug, PartialEq, Eq, Structural)]
pub struct EpochReport {
    pub epoch: usize,
    pub train_cost: u32,
    pub validation: Option<ValidationProgress>,
}

/// The sink for periodic progress reports, implemented by the caller; the
/// trainer emits one every `epoch_log_period` epochs (ten when the period
/// is left unset).
pub trait ProgressSink {
    fn report(&mut self, report: EpochReport);
}

/// A sink that drops every report.
pub struct SilentProgress;

impl ProgressSink for SilentProgress {
    fn report(&mut self, _report: EpochReport) {
    }
}

/// The early-stopping state: the best validation cost seen so far and the
/// length of the current non-improving streak.
pub struct ValidationTracker {
    pub best_cost: u32,
    pub streak: usize,
}

/// The tracker's state after the first `n` of a sequence of validation
/// costs: starting from infinity, a cost below the best resets the streak
/// and becomes the best; any other cost lengthens the streak.
pub open spec fn tracker_after(costs: Seq<u32>, n: int) -> (u32, int)
    decreases n,
{
    if n <= 0 {
        (INFINITY_BITS, 0int)
    } else {
        let prev = tracker_after(costs, n - 1);
        if flt(costs[n - 1], prev.0) {
            (costs[n - 1], 0int)
        } else {
            (prev.0, prev.1 + 1)
        }
    }
}

impl ValidationTracker {
    pub fn new() -> (r: ValidationTracker)
        ensures
            r.best_cost == INFINITY_BITS,
            r.streak == 0,
    {
        ValidationTracker { best_cost: INFINITY_BITS, streak: 0 }
    }

    /// Feeds one validation cost into the tracker and says whether it
    /// improved on the best seen so far.
    pub fn observe(&mut self, cost: u32) -> (improved: bool)
        requires
            old(self).streak < usize::MAX,
        ensures
            improved == flt(cost, old(self).best_cost),
            improved ==> final(self).best_cost == cost && final(self).streak == 0,
            !improved ==> final(self).best_cost == old(self).best_cost && final(self).streak
                == old(self).streak + 1,
    {
        if lt_f(cost, self.best_cost) {
            self.best_cost = cost;
            self.streak = 0;
            true
        } else {
            self.streak = self.streak + 1;
            false
        }
    }
}

/// Early stopping: when the first validation cost is below infinity and no
/// later cost improves on it, the first cost stays the best forever and
/// every later epoch lengthens the failure streak by one - so a run with
/// patience `p` halts after exactly `p` epochs beyond the first, with the
/// first epoch's snapshot restored as best.
pub proof fn lemma_early_stop(costs: Seq<u32>, n: int)
    requires
        1 <= n <= costs.len(),
        flt(costs[0], INFINITY_BITS),
        forall|i: int| 1 <= i < n ==> !flt(#[trigger] costs[i], costs[0]),
    ensures
        tracker_after(costs, n).0 == costs[0],
        tracker_after(costs, n).1 == n - 1,
    decreases n,
{
    reveal_with_fuel(tracker_after, 3);
    if n > 1 {
        lemma_early_stop(costs, n - 1);
    }
}

/// Whether every example of a batch matches the network's input and
/// output widths.
#[verifier::loop_isolation(false)]
pub fn batch_shapes_ok(net: &Network, batch: &TrainData) -> (r: bool)
    requires
        net.wf(),
    ensures
        r == batch_shaped(*net, batch@),
{
    let n = batch.len();
    let in_w = net.layer_sizes[0];
    let out_w = net.layer_sizes[net.layer_sizes.len() - 1];
    for i in 0..n
        invariant
            forall|k: int|
                0 <= k < i ==> (#[trigger] batch@[k]).0@.len() == net.in_width()
                    && batch@[k].1@.len() == net.out_width(),
    {
        if batch[i].0.len() != in_w || batch[i].1.len() != out_w {
            return false;
        }
    }
    true
}

impl Network {
    /// The trainer loop. Each epoch checks the cancellation flag, the
    /// validation failure streak against the configured patience, and the
    /// epoch cap; pulls a batch from the supplier (its exhaustion also
    /// ends training); reduces the batch's gradient contributions and
    /// applies one weight update; when a holdout is given, evaluates it
    /// and tracks the best network seen; and every `epoch_log_period`
    /// epochs (ten by default) hands the progress sink a report. On
    /// return the parameters are the best validated snapshot when
    /// validating, the final in-progress values otherwise. A misshapen
    /// batch from the supplier surfaces as a shape-mismatch error.
    #[verifier::loop_isolation(false)]
    pub fn train<S: BatchSource, P: ProgressSink>(&mut self, batches: &mut S, validation_data: Option<TrainData>, conf: &TrainConfig, learning: Option<&AtomicBool>, progress: &mut P) -> (r: Result<TrainTermination, NnError>)
        requires
            old(self).wf(),
            conf.sequential_validation_failures_required >= 1,
            match conf.epoch_log_period {
                Some(p) => p >= 1,
                None => true,
            },
            match validation_data {
                Some(v) => batch_shaped(*old(self), v@),
                None => true,
            },
        ensures
            final(self).wf(),
            final(self).layer_sizes@ == old(self).layer_sizes@,
            final(self).activation_coeffs@ == old(self).activation_coeffs@,
            final(self).activation_fn == old(self).activation_fn,
            match r {
                Ok(t) => t == TrainTermination::Converged ==> validation_data.is_some(),
                Err(e) => e == NnError::ShapeMismatch,
            },
            r matches Ok(TrainTermination::Stopped) ==> learning.is_some(),
            learning.is_none() && conf.max_epochs == Some(0usize) ==> (r matches Ok(
                TrainTermination::MaxEpochsReached,
            )) && net_eq(*final(self), *old(self)),
    {
        let mut tracker = ValidationTracker::new();
        let mut epoch: usize = 0;
        let mut last_weight_update_sum = self.zero_weights();
        let mut last_bias_update_sum = self.zero_layers();
        let mut best_known_net = self.snapshot();
        let is_validating = validation_data.is_some();
        let mut termination = TrainTermination::MaxEpochsReached;
        loop
            invariant
                self.wf(),
                self.layer_sizes@ == old(self).layer_sizes@,
                self.activation_coeffs@ == old(self).activation_coeffs@,
                self.activation_fn == old(self).activation_fn,
                best_known_net.wf(),
                best_known_net.layer_sizes@ == old(self).layer_sizes@,
                best_known_net.activation_coeffs@ == old(self).activation_coeffs@,
                best_known_net.activation_fn == old(self).activation_fn,
                last_weight_update_sum@.len() == self.depth(),
                forall|i: int|
                    0 <= i < self.depth() ==> {
                        &&& (#[trigger] last_weight_update_sum@[i]).wf()
                        &&& last_weight_update_sum@[i].nrows() == self.weights@[i].nrows()
                        &&& last_weight_update_sum@[i].cols == self.weights@[i].cols
                    },
                last_bias_update_sum@.len() == self.depth(),
                forall|i: int|
                    0 <= i < self.depth() ==> (#[trigger] last_bias_update_sum@[i])@.len()
                        == self.biases@[i]@.len(),
                !is_validating ==> tracker.streak == 0,
                learning.is_none() && conf.max_epochs == Some(0usize) ==> epoch == 0
                    && tracker.streak == 0 && termination == TrainTermination::MaxEpochsReached
                    && net_eq(*self, *old(self)) && net_eq(best_known_net, *old(self)),
                termination == TrainTermination::Converged ==> is_validating,
                termination == TrainTermination::Stopped ==> learning.is_some(),
            decreases usize::MAX - epoch,
        {
            if let Some(flag) = learning {
                if !flag.load(Ordering::SeqCst) {
                    termination = TrainTermination::Stopped;
                    break;
                }
            }
            if tracker.streak >= conf.sequential_validation_failures_required {
                termination = TrainTermination::Converged;
                break;
            }
            if let Some(max) = conf.max_epochs {
                if epoch >= max {
                    termination = TrainTermination::MaxEpochsReached;
                    break;
                }
            }
            if epoch == usize::MAX {
                termination = TrainTermination::MaxEpochsReached;
                break;
            }
            epoch = epoch + 1;
            let batch = match batches.next_batch() {
                Some(b) => b,
                None => {
                    termination = TrainTermination::DataExhausted;
                    break;
                },
            };
            if !batch_shapes_ok(self, &batch) {
                return Err(NnError::ShapeMismatch);
            }
            let batch_len = batch.len();
            let (weight_update_sum, bias_update_sum, err_sum) = self.batch_contributions(&batch);
            let train_error = div_f(err_sum, of_usize_f(batch_len));
            proof {
                assert(weight_update_sum@[0].wf());
            }
            self.update_weights(
                &weight_update_sum,
                &bias_update_sum,
                &last_weight_update_sum,
                &last_bias_update_sum,
                batch_len,
                conf,
            );
            let train_cost = self.cost(train_error, batch_len, conf);
            let period = match conf.epoch_log_period {
                Some(p) => p,
                None => 10,
            };
            if let Some(vdata) = &validation_data {
                proof {
                    assert(batch_shaped(*self, vdata@));
                }
                let verr_sum = self.validation_error_sum(vdata);
                let verr = div_f(verr_sum, of_usize_f(vdata.len()));
                let new_validation_cost = self.cost(verr, vdata.len(), conf);
                let improved = tracker.observe(new_validation_cost);
                if improved {
                    best_known_net = self.snapshot();
                    proof {
                        lemma_net_eq_wf(best_known_net, *self);
                    }
                }
                if epoch % period == 0 {
                    progress.report(EpochReport {
                        epoch,
                        train_cost,
                        validation: Some(ValidationProgress {
                            cost: new_validation_cost,
                            best_cost: tracker.best_cost,
                            streak: tracker.streak,
                        }),
                    });
                }
            } else {
                if epoch % period == 0 {
                    progress.report(EpochReport { epoch, train_cost, validation: None });
                }
            }
            if conf.momentum_rate.is_some() {
                last_weight_update_sum = weight_update_sum;
                last_bias_update_sum = bias_update_sum;
            }
        }
        if is_validating {
            *self = best_known_net;
        }
        Ok(termination)
    }

    /// Autoencoder training: every feature vector is its own target. The
    /// feature supplier is adapted into a batch supplier and the ordinary
    /// trainer runs.
    pub fn train_autoencoder<S: FeatureSource, P: ProgressSink>(&mut self, features: S, validation_data: Option<Vec<Vec<u32>>>, conf: &TrainConfig, learning: Option<&AtomicBool>, progress: &mut P) -> (r: Result<TrainTermination, NnError>)
        requires
            old(self).wf(),
            conf.sequential_validation_failures_required >= 1,
            match conf.epoch_log_period {
                Some(p) => p >= 1,
                None => true,
            },
            match validation_data {
                Some(v) => forall|i: int|
                    0 <= i < v@.len() ==> (#[trigger] v@[i])@.len() == old(self).in_width()
                        && v@[i]@.len() == old(self).out_width(),
                None => true,
            },
        ensures
            final(self).wf(),
            final(self).layer_sizes@ == old(self).layer_sizes@,
            final(self).activation_coeffs@ == old(self).activation_coeffs@,
            final(self).activation_fn == old(self).activation_fn,
            r matches Err(e) ==> e == NnError::ShapeMismatch,
            r matches Ok(TrainTermination::Stopped) ==> learning.is_some(),
            learning.is_none() && conf.max_epochs == Some(0usize) ==> (r matches Ok(
                TrainTermination::MaxEpochsReached,
            )) && net_eq(*final(self), *old(self)),
    {
        let paired_validation = match &validation_data {
            Some(v) => {
                let p = pair_up(v);
                proof {
                    assert(batch_shaped(*self, p@));
                }
                Some(p)
            },
            None => None,
        };
        let mut adapter = AutoencoderBatches { inner: features };
        self.train(&mut adapter, paired_validation, conf, learning, progress)
    }
}

/// Each feature vector paired with itself, the autoencoder's examples.
#[verifier::loop_isolation(false)]
pub fn pair_up(v: &Vec<Vec<u32>>) -> (r: TrainData)
    ensures
        r@.len() == v@.len(),
        forall|i: int|
            0 <= i < v@.len() ==> (#[trigger] r@[i]).0@ == v@[i]@ && r@[i].1@ == v@[i]@,
{
    let mut out: TrainData = Vec::new();
    let n = v.len();
    for i in 0..n
        invariant
            out@.len() == i,
            forall|k: int|
                0 <= k < i ==> (#[trigger] out@[k]).0@ == v@[k]@ && out@[k].1@ == v@[k]@,
    {
        out.push((crate::linalg::copy_vec(&v[i]), crate::linalg::copy_vec(&v[i])));
    }
    out
}

/// A feature supplier seen as a batch supplier: each batch of features
/// paired with itself.
pub struct AutoencoderBatches<S: FeatureSource> {
    pub inner: S,
}

impl<S: FeatureSource> BatchSource for AutoencoderBatches<S> {
    fn next_batch(&mut self) -> Option<TrainData> {
        match self.inner.next_features() {
            Some(v) => Some(pair_up(&v)),
            None => None,
        }
    }
}

/// How many of the first `n` selector entries are set.
pub open spec fn count_true(sel: Seq<bool>, n: int) -> int
    decreases n,
{
    if n <= 0 {
        0
    } else {
        count_true(sel, n - 1) + if sel[n - 1] {
            1int
        } else {
            0int
        }
    }
}

proof fn lemma_count_true_none(sel: Seq<bool>, k: int)
    requires
        forall|i: int| 0 <= i < k ==> !sel[i],
    ensures
        count_true(sel, k) == 0,
    decreases k,
{
    if k > 0 {
        lemma_count_true_none(sel, k - 1);
    }
}

proof fn lemma_count_true_one_diff(s1: Seq<bool>, s2: Seq<bool>, p: int, k: int)
    requires
        0 <= p < s1.len(),
        s1.len() == s2.len(),
        k <= s1.len(),
        s1[p],
        !s2[p],
        forall|i: int| 0 <= i < s1.len() && i != p ==> s1[i] == s2[i],
    ensures
        count_true(s1, k) == count_true(s2, k) + if p < k {
            1int
        } else {
            0int
        },
    decreases k,
{
    if k > 0 {
        lemma_count_true_one_diff(s1, s2, p, k - 1);
    }
}

/// Distinct indices below `n` set exactly as many selector entries as
/// there are indices.
proof fn lemma_count_membership(idx: Seq<usize>, n: int)
    requires
        0 <= n <= usize::MAX,
        forall|i: int, j: int| 0 <= i < j < idx.len() ==> idx[i] != idx[j],
        forall|i: int| 0 <= i < idx.len() ==> #[trigger] idx[i] < n,
    ensures
        count_true(Seq::new(n as nat, |i: int| idx.contains(i as usize)), n) == idx.len(),
    decreases idx.len(),
{
    let sel = Seq::new(n as nat, |i: int| idx.contains(i as usize));
    if idx.len() == 0 {
        assert forall|i: int| 0 <= i < n implies !sel[i] by {
            if idx.contains(i as usize) {
                let w = choose|j: int| 0 <= j < idx.len() && idx[j] == i as usize;
                assert(0 <= w < idx.len());
                assert(false);
            }
        }
        lemma_count_true_none(sel, n);
    } else {
        let e = idx.last();
        let rest = idx.drop_last();
        let sel_rest = Seq::new(n as nat, |i: int| rest.contains(i as usize));
        assert(idx[idx.len() - 1] == e);
        assert(idx.contains(e));
        assert(sel[e as int]);
        assert(!rest.contains(e)) by {
            if rest.contains(e) {
                let w = choose|j: int| 0 <= j < rest.len() && rest[j] == e;
                assert(0 <= w < rest.len() && rest[w] == e);
                assert(rest[w] == idx[w]);
                assert(idx[w] == idx[idx.len() - 1]);
                assert(false);
            }
        }
        assert forall|i: int| 0 <= i < n && i != e implies sel[i] == sel_rest[i] by {
            if idx.contains(i as usize) {
                let w = choose|j: int| 0 <= j < idx.len() && idx[j] == i as usize;
                assert(0 <= w < idx.len() && idx[w] == i as usize);
                assert(w != idx.len() - 1);
                assert(rest[w] == idx[w]);
                assert(rest.contains(i as usize));
            }
            if rest.contains(i as usize) {
                let w = choose|j: int| 0 <= j < rest.len() && rest[j] == i as usize;
                assert(0 <= w < rest.len() && rest[w] == i as usize);
                assert(idx[w] == rest[w]);
                assert(idx.contains(i as usize));
            }
        }
        lemma_count_true_one_diff(sel, sel_rest, e as int, n);
        assert forall|i: int, j: int| 0 <= i < j < rest.len() implies rest[i] != rest[j] by {
            assert(idx[i] == rest[i] && idx[j] == rest[j]);
        }
        assert forall|i: int| 0 <= i < rest.len() implies #[trigger] rest[i] < n by {
            assert(idx[i] == rest[i]);
        }
        lemma_count_membership(rest, n);
    }
}

/// The elements of the first `n` whose selector entry equals `keep`, in
/// their original order.
pub open spec fn filter_kept<T>(data: Seq<T>, sel: Seq<bool>, keep: bool, n: int) -> Seq<T>
    decreases n,
{
    if n <= 0 {
        Seq::empty()
    } else {
        let rest = filter_kept(data, sel, keep, n - 1);
        if sel[n - 1] == keep {
            rest.push(data[n - 1])
        } else {
            rest
        }
    }
}

/// The views of a sequence of example pairs.
pub open spec fn pairs_view(d: Seq<(Vec<u32>, Vec<u32>)>) -> Seq<(Seq<u32>, Seq<u32>)> {
    d.map_values(|p: (Vec<u32>, Vec<u32>)| (p.0@, p.1@))
}

/// The views of a sequence of feature vectors.
pub open spec fn features_view(d: Seq<Vec<u32>>) -> Seq<Seq<u32>> {
    d.map_values(|v: Vec<u32>| v@)
}

/// How many examples the holdout takes from a set of `n`: the validation
/// ratio times `n`, truncated, and never more than `n` itself.
pub open spec fn validation_count(n: usize, conf: TrainConfig) -> int {
    let raw = crate::scalar::ftrunc(crate::scalar::fmul(conf.validation_ratio, crate::scalar::f_of_usize(n)));
    if raw > n as u64 {
        n as int
    } else {
        raw as int
    }
}

/// Whether a vector of indices holds the given one.
#[verifier::loop_isolation(false)]
pub fn contains_usize(v: &Vec<usize>, x: usize) -> (r: bool)
    ensures
        r == v@.contains(x),
{
    let n = v.len();
    for i in 0..n
        invariant
            forall|k: int| 0 <= k < i ==> v@[k] != x,
    {
        if v[i] == x {
            return true;
        }
    }
    false
}

impl Network {
    /// Splits labeled examples into training and validation sets: the
    /// holdout's size is the validation ratio times the set's size, its
    /// members are drawn uniformly without replacement, and both halves
    /// keep the original order. Some selection of that size decides every
    /// example's side.
    #[verifier::loop_isolation(false)]
    pub fn split_data_sequences(rng: &mut rand::prng::XorShiftRng, all_data: TrainData, conf: &TrainConfig) -> (r: (TrainData, TrainData))
        ensures
            r.0@.len() + r.1@.len() == all_data@.len(),
            exists|sel: Seq<bool>|
                {
                    &&& sel.len() == all_data@.len()
                    &&& pairs_view(r.0@) == filter_kept(pairs_view(all_data@), sel, false, all_data@.len() as int)
                    &&& pairs_view(r.1@) == filter_kept(pairs_view(all_data@), sel, true, all_data@.len() as int)
                    &&& count_true(sel, all_data@.len() as int) == r.1@.len()
                },
            r.1@.len() == validation_count(all_data@.len() as usize, *conf),
    {
        let n = all_data.len();
        let amt_raw = trunc_f(mul_f(conf.validation_ratio, of_usize_f(n)));
        let amount = if amt_raw > n as u64 {
            n
        } else {
            amt_raw as usize
        };
        let validation_idx = sample_indices(rng, n, amount);
        let ghost sel = Seq::new(n as nat, |i: int| validation_idx@.contains(i as usize));
        let mut train_data: TrainData = Vec::new();
        let mut val_data: TrainData = Vec::new();
        for it in 0..n
            invariant
                pairs_view(train_data@) == filter_kept(pairs_view(all_data@), sel, false, it as int),
                pairs_view(val_data@) == filter_kept(pairs_view(all_data@), sel, true, it as int),
                val_data@.len() == count_true(sel, it as int),
                train_data@.len() + val_data@.len() == it,
        {
            let ghost prev_train = train_data@;
            let ghost prev_val = val_data@;
            let ex = (crate::linalg::copy_vec(&all_data[it].0), crate::linalg::copy_vec(&all_data[it].1));
            let ghost exv = (ex.0@, ex.1@);
            proof {
                assert(exv == pairs_view(all_data@)[it as int]);
            }
            if contains_usize(&validation_idx, it) {
                val_data.push(ex);
                proof {
                    assert(sel[it as int]);
                    assert(pairs_view(val_data@) =~= pairs_view(prev_val).push(exv));
                    assert(pairs_view(train_data@) =~= pairs_view(prev_train));
                }
            } else {
                train_data.push(ex);
                proof {
                    assert(!sel[it as int]);
                    assert(pairs_view(train_data@) =~= pairs_view(prev_train).push(exv));
                    assert(pairs_view(val_data@) =~= pairs_view(prev_val));
                }
            }
        }
        proof {
            assert(sel.len() == all_data@.len());
            lemma_count_membership(validation_idx@, n as int);
        }
        (train_data, val_data)
    }

    /// The unlabeled variant of the splitter for autoencoder training,
    /// over bare feature vectors.
    #[verifier::loop_isolation(false)]
    pub fn split_data_sequences_autoencoder(rng: &mut rand::prng::XorShiftRng, all_data: Vec<Vec<u32>>, conf: &TrainConfig) -> (r: (Vec<Vec<u32>>, Vec<Vec<u32>>))
        ensures
            r.0@.len() + r.1@.len() == all_data@.len(),
            exists|sel: Seq<bool>|
                {
                    &&& sel.len() == all_data@.len()
                    &&& features_view(r.0@) == filter_kept(features_view(all_data@), sel, false, all_data@.len() as int)
                    &&& features_view(r.1@) == filter_kept(features_view(all_data@), sel, true, all_data@.len() as int)
                    &&& count_true(sel, all_data@.len() as int) == r.1@.len()
                },
            r.1@.len() == validation_count(all_data@.len() as usize, *conf),
    {
        let n = all_data.len();
        let amt_raw = trunc_f(mul_f(conf.validation_ratio, of_usize_f(n)));
        let amount = if amt_raw > n as u64 {
            n
        } else {
            amt_raw as usize
        };
        let validation_idx = sample_indices(rng, n, amount);
        let ghost sel = Seq::new(n as nat, |i: int| validation_idx@.contains(i as usize));
        let mut train_data: Vec<Vec<u32>> = Vec::new();
        let mut val_data: Vec<Vec<u32>> = Vec::new();
        for it in 0..n
            invariant
                features_view(train_data@) == filter_kept(features_view(all_data@), sel, false, it as int),
                features_view(val_data@) == filter_kept(features_view(all_data@), sel, true, it as int),
                val_data@.len() == count_true(sel, it as int),
                train_data@.len() + val_data@.len() == it,
        {
            let ghost prev_train = train_data@;
            let ghost prev_val = val_data@;
            let ex = crate::linalg::copy_vec(&all_data[it]);
            let ghost exv = ex@;
            proof {
                assert(exv == features_view(all_data@)[it as int]);
            }
            if contains_usize(&validation_idx, it) {
                val_data.push(ex);
                proof {
                    assert(sel[it as int]);
                    assert(features_view(val_data@) =~= features_view(prev_val).push(exv));
                    assert(features_view(train_data@) =~= features_view(prev_train));
                }
            } else {
                train_data.push(ex);
                proof {
                    assert(!sel[it as int]);
                    assert(features_view(train_data@) =~= features_view(prev_train).push(exv));
                    assert(features_view(val_data@) =~= features_view(prev_val));
                }
            }
        }
        proof {
            lemma_count_membership(validation_idx@, n as int);
        }
        (train_data, val_data)
    }
}

} // verus!
