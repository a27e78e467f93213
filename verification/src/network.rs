//! The network itself: topology, parameters, construction from a
//! definition, random initialization, and forward propagation.

use vstd::prelude::*;

verus! {

broadcast use vstd::string::group_string_axioms;

use crate::activation::{act_apply, activate_vec, ActivationFunction};
use crate::linalg::{mat_eq, vm_acc, copy_vec, zero_vec, add_vecs, row_times_matrix, Matrix};
use crate::rng::{f64_nonneg_bits, sample_normal};
use crate::scalar::{demote_f, ZERO_BITS};

/// The failures surfaced to callers: a malformed definition or
/// configuration, a shape that does not match the topology, an activation
/// name that is not recognized, or a snapshot byte stream that cannot be
/// restored.
#[derive(Clone, Copy, Debug, PartialEq, Eq, Structural)]
pub enum NnError {
    Configuration,
    UnrecognizedActivation,
    ShapeMismatch,
    Persistence,
}

/// The immutable training configuration. Scalar fields are single-precision
/// bit patterns except `batch_size`, a double-precision bit pattern, and the
/// integer counts.
#[derive(Clone, Copy, Debug, PartialEq, Eq, Structural)]
pub struct TrainConfig {
    pub learning_rate: u32,
    pub momentum_rate: Option<u32>,
    pub validation_ratio: u32,
    pub sequential_validation_failures_required: usize,
    pub max_epochs: Option<usize>,
    pub epoch_log_period: Option<usize>,
    pub batch_size: Option<u64>,
    pub regularization_param: u32,
}

/// A network described by its layer widths, one activation coefficient per
/// layer (the first unused), and the name of the activation family.
#[derive(Debug)]
pub struct NetworkDefn {
    pub layers: Vec<usize>,
    pub activation_coeffs: Vec<u32>,
    pub activation_fn: String,
}

/// A fully-connected feedforward network. `weights[i]` has one row per
/// neuron of layer `i - 1` and one column per neuron of layer `i`;
/// `weights[0]` is a degenerate empty placeholder so every per-layer array
/// is index-aligned with `layer_sizes`.
#[derive(Debug)]
pub struct Network {
    pub layer_sizes: Vec<usize>,
    pub activation_coeffs: Vec<u32>,
    pub weights: Vec<Matrix>,
    pub biases: Vec<Vec<u32>>,
    pub activation_fn: ActivationFunction,
}

/// The activation family a definition names: `sigmoid`, `tanh` or `id`.
pub open spec fn activation_of_name(s: Seq<char>) -> Option<ActivationFunction> {
    if s == "sigmoid"@ {
        Some(ActivationFunction::Sigmoid)
    } else if s == "tanh"@ {
        Some(ActivationFunction::Tanh)
    } else if s == "id"@ {
        Some(ActivationFunction::Identity)
    } else {
        None
    }
}

/// A definition is acceptable when it has at least two layers, every layer
/// is nonempty, one coefficient stands per layer, and the activation name
/// is recognized.
pub open spec fn defn_acceptable(defn: NetworkDefn) -> bool {
    &&& defn.layers@.len() >= 2
    &&& defn.activation_coeffs@.len() == defn.layers@.len()
    &&& forall|i: int| 0 <= i < defn.layers@.len() ==> #[trigger] defn.layers@[i] > 0
    &&& activation_of_name(defn.activation_fn@).is_some()
}

/// The shape of a definition (everything but the activation name) is
/// acceptable.
pub open spec fn defn_shape_acceptable(defn: NetworkDefn) -> bool {
    &&& defn.layers@.len() >= 2
    &&& defn.activation_coeffs@.len() == defn.layers@.len()
    &&& forall|i: int| 0 <= i < defn.layers@.len() ==> #[trigger] defn.layers@[i] > 0
}

impl Network {
    /// The shape invariant: every parameter array is index-aligned with
    /// `layer_sizes`, and the shape of each weight matrix and bias vector
    /// is fully determined by the layer sizes.
    pub open spec fn wf(&self) -> bool {
        &&& self.layer_sizes@.len() >= 2
        &&& self.activation_coeffs@.len() == self.layer_sizes@.len()
        &&& self.weights@.len() == self.layer_sizes@.len()
        &&& self.biases@.len() == self.layer_sizes@.len()
        &&& self.weights@[0].nrows() == 0
        &&& self.weights@[0].cols == 0
        &&& forall|i: int|
            1 <= i < self.layer_sizes@.len() ==> {
                &&& (#[trigger] self.weights@[i]).wf()
                &&& self.weights@[i].nrows() == self.layer_sizes@[i - 1]
                &&& self.weights@[i].cols == self.layer_sizes@[i]
            }
        &&& forall|i: int|
            0 <= i < self.layer_sizes@.len() ==> (#[trigger] self.biases@[i])@.len()
                == self.layer_sizes@[i]
    }

    pub open spec fn depth(&self) -> int {
        self.layer_sizes@.len() as int
    }

    pub open spec fn in_width(&self) -> int {
        self.layer_sizes@[0] as int
    }

    pub open spec fn out_width(&self) -> int {
        self.layer_sizes@[self.depth() - 1] as int
    }
}

/// Two networks hold the same topology and the same parameter values.
pub open spec fn net_eq(a: Network, b: Network) -> bool {
    &&& a.layer_sizes@ == b.layer_sizes@
    &&& a.activation_coeffs@ == b.activation_coeffs@
    &&& a.activation_fn == b.activation_fn
    &&& a.weights@.len() == b.weights@.len()
    &&& forall|i: int| 0 <= i < a.weights@.len() ==> mat_eq(#[trigger] a.weights@[i], b.weights@[i])
    &&& a.biases@.len() == b.biases@.len()
    &&& forall|i: int| 0 <= i < a.biases@.len() ==> (#[trigger] a.biases@[i])@ == b.biases@[i]@
}

/// Networks with equal topology and parameters are well-formed together.
pub proof fn lemma_net_eq_wf(a: Network, b: Network)
    requires
        net_eq(a, b),
        b.wf(),
    ensures
        a.wf(),
{
    assert forall|i: int| 1 <= i < a.layer_sizes@.len() implies {
        &&& (#[trigger] a.weights@[i]).wf()
        &&& a.weights@[i].nrows() == a.layer_sizes@[i - 1]
        &&& a.weights@[i].cols == a.layer_sizes@[i]
    } by {
        assert(mat_eq(a.weights@[i], b.weights@[i]));
        assert forall|rr: int|
            0 <= rr < a.weights@[i].data@.len() implies (#[trigger] a.weights@[i].data@[rr])@.len()
            == a.weights@[i].cols by {
            assert(a.weights@[i].data@[rr]@ == b.weights@[i].data@[rr]@);
            assert(b.weights@[i].wf());
        }
    }
    assert(mat_eq(a.weights@[0], b.weights@[0]));
    assert forall|i: int|
        0 <= i < a.layer_sizes@.len() implies (#[trigger] a.biases@[i])@.len()
        == a.layer_sizes@[i] by {
        assert(a.biases@[i]@ == b.biases@[i]@);
    }
}

/// The pre-activation sums of layer `k` (for `k >= 1`): the activations of
/// layer `k - 1` times `weights[k]`, plus `biases[k]`, entry by entry.
pub open spec fn layer_net_in(net: Network, input: Seq<u32>, k: int) -> Seq<u32>
    decreases k, 0int,
{
    if k <= 0 {
        Seq::empty()
    } else {
        Seq::new(
            net.layer_sizes@[k] as nat,
            |j: int|
                crate::scalar::fadd(
                    vm_acc(layer_acts(net, input, k - 1), net.weights@[k], j, net.weights@[k].nrows()),
                    net.biases@[k]@[j],
                ),
        )
    }
}

/// The activations of layer `k`: the input vector itself for layer 0, and
/// the activation function of the pre-activation sums elsewhere.
pub open spec fn layer_acts(net: Network, input: Seq<u32>, k: int) -> Seq<u32>
    decreases k, 1int,
{
    if k <= 0 {
        input
    } else {
        Seq::new(
            net.layer_sizes@[k] as nat,
            |j: int|
                act_apply(net.activation_fn, layer_net_in(net, input, k)[j], net.activation_coeffs@[k]),
        )
    }
}

/// What a full forward pass returns: the activations of the last layer.
pub open spec fn eval_spec(net: Network, input: Seq<u32>) -> Seq<u32> {
    layer_acts(net, input, net.depth() - 1)
}

/// A stack of zero vectors shaped like the layers.
pub fn zero_biases_of(sizes: &Vec<usize>) -> (r: Vec<Vec<u32>>)
    ensures
        r@.len() == sizes@.len(),
        forall|i: int| 0 <= i < sizes@.len() ==> (#[trigger] r@[i])@.len() == sizes@[i],
        forall|i: int, j: int|
            0 <= i < sizes@.len() && 0 <= j < sizes@[i] ==> #[trigger] r@[i]@[j] == ZERO_BITS,
{
    let mut out: Vec<Vec<u32>> = Vec::new();
    let n = sizes.len();
    for i in 0..n
        invariant
            n == sizes@.len(),
            out@.len() == i,
            forall|k: int| 0 <= k < i ==> (#[trigger] out@[k])@.len() == sizes@[k],
            forall|k: int, j: int|
                0 <= k < i && 0 <= j < sizes@[k] ==> #[trigger] out@[k]@[j] == ZERO_BITS,
    {
        out.push(zero_vec(sizes[i]));
    }
    out
}

/// A stack of zero weight matrices shaped like the layer pairs, with the
/// degenerate empty placeholder at index 0.
pub fn zero_weights_of(sizes: &Vec<usize>) -> (r: Vec<Matrix>)
    requires
        sizes@.len() >= 1,
    ensures
        r@.len() == sizes@.len(),
        r@[0].nrows() == 0,
        r@[0].cols == 0,
        forall|i: int|
            1 <= i < sizes@.len() ==> {
                &&& (#[trigger] r@[i]).wf()
                &&& r@[i].nrows() == sizes@[i - 1]
                &&& r@[i].cols == sizes@[i]
            },
        forall|i: int, rr: int, cc: int|
            1 <= i < sizes@.len() && 0 <= rr < sizes@[i - 1] && 0 <= cc < sizes@[i]
                ==> #[trigger] r@[i].idx(rr, cc) == ZERO_BITS,
{
    let mut out: Vec<Matrix> = Vec::new();
    out.push(Matrix::zero(0, 0));
    let n = sizes.len();
    for i in 1..n
        invariant
            n == sizes@.len(),
            out@.len() == i,
            out@[0].nrows() == 0,
            out@[0].cols == 0,
            forall|k: int|
                1 <= k < i ==> {
                    &&& (#[trigger] out@[k]).wf()
                    &&& out@[k].nrows() == sizes@[k - 1]
                    &&& out@[k].cols == sizes@[k]
                },
            forall|k: int, rr: int, cc: int|
                1 <= k < i && 0 <= rr < sizes@[k - 1] && 0 <= cc < sizes@[k]
                    ==> #[trigger] out@[k].idx(rr, cc) == ZERO_BITS,
    {
        out.push(Matrix::zero(sizes[i - 1], sizes[i]));
    }
    out
}

/// An element-for-element copy of a vector of sizes.
pub fn copy_usizes(v: &Vec<usize>) -> (r: Vec<usize>)
    ensures
        r@ == v@,
{
    let mut out: Vec<usize> = Vec::new();
    let n = v.len();
    for i in 0..n
        invariant
            n == v@.len(),
            out@ == v@.subrange(0, i as int),
    {
        out.push(v[i]);
    }
    assert(out@ == v@);
    out
}

/// Bit pattern of the double-precision mean (0.0) of the weight
/// initializer's Gaussian.
pub const WEIGHT_INIT_MEAN_BITS: u64 = 0;

/// Bit pattern of the double-precision standard deviation (0.1) of the
/// weight initializer's Gaussian.
pub const WEIGHT_INIT_STD_DEV_BITS: u64 = 0x3FB9_9999_9999_999A;

proof fn lemma_std_dev_bits_nonneg()
    ensures
        f64_nonneg_bits(WEIGHT_INIT_STD_DEV_BITS),
{
    assert(0x3FB9_9999_9999_999Au64 >> 63 == 0) by (bit_vector);
    assert((0x3FB9_9999_9999_999Au64 >> 52) & 0x7FF != 0x7FF) by (bit_vector);
}

impl Network {
    /// Builds the network a definition describes, with every weight and
    /// bias zero: weight matrix `i` has shape
    /// `(layer_sizes[i-1], layer_sizes[i])` and bias vector `i` has length
    /// `layer_sizes[i]`, for every `i >= 1`. The coefficient at index 0 is
    /// unused and pinned to zero. A malformed shape is a configuration
    /// error; an unknown activation name is its own error.
    pub fn from_definition(defn: &NetworkDefn) -> (r: Result<Network, NnError>)
        ensures
            r.is_ok() <==> defn_acceptable(*defn),
            match r {
                Ok(net) => {
                    &&& net.wf()
                    &&& net.layer_sizes@ == defn.layers@
                    &&& net.activation_coeffs@.len() == defn.layers@.len()
                    &&& net.activation_coeffs@[0] == ZERO_BITS
                    &&& forall|i: int|
                        1 <= i < defn.layers@.len() ==> #[trigger] net.activation_coeffs@[i]
                            == defn.activation_coeffs@[i]
                    &&& Some(net.activation_fn) == activation_of_name(defn.activation_fn@)
                    &&& forall|i: int, rr: int, cc: int|
                        1 <= i < defn.layers@.len() && 0 <= rr < defn.layers@[i - 1] && 0 <= cc
                            < defn.layers@[i] ==> #[trigger] net.weights@[i].idx(rr, cc) == ZERO_BITS
                    &&& forall|i: int, j: int|
                        0 <= i < defn.layers@.len() && 0 <= j < defn.layers@[i]
                            ==> #[trigger] net.biases@[i]@[j] == ZERO_BITS
                },
                Err(e) => if defn_shape_acceptable(*defn) {
                    e == NnError::UnrecognizedActivation && activation_of_name(defn.activation_fn@).is_none()
                } else {
                    e == NnError::Configuration
                },
            },
    {
        if defn.layers.len() < 2 {
            return Err(NnError::Configuration);
        }
        if defn.activation_coeffs.len() != defn.layers.len() {
            return Err(NnError::Configuration);
        }
        let n = defn.layers.len();
        for i in 0..n
            invariant
                n == defn.layers@.len(),
                forall|k: int| 0 <= k < i ==> #[trigger] defn.layers@[k] > 0,
        {
            if defn.layers[i] == 0 {
                return Err(NnError::Configuration);
            }
        }
        let activation_fn = if defn.activation_fn == "sigmoid".to_string() {
            ActivationFunction::Sigmoid
        } else if defn.activation_fn == "tanh".to_string() {
            ActivationFunction::Tanh
        } else if defn.activation_fn == "id".to_string() {
            ActivationFunction::Identity
        } else {
            return Err(NnError::UnrecognizedActivation);
        };
        let layer_sizes = copy_usizes(&defn.layers);
        let mut activation_coeffs = copy_vec(&defn.activation_coeffs);
        activation_coeffs.set(0, ZERO_BITS);
        let weights = zero_weights_of(&layer_sizes);
        let biases = zero_biases_of(&layer_sizes);
        Ok(Network { layer_sizes, activation_coeffs, weights, biases, activation_fn })
    }

    /// A copy of the network: same topology, same parameter values.
    pub fn snapshot(&self) -> (r: Network)
        ensures
            net_eq(r, *self),
            self.wf() ==> r.wf(),
    {
        let mut weights: Vec<Matrix> = Vec::new();
        let nw = self.weights.len();
        for i in 0..nw
            invariant
                nw == self.weights@.len(),
                weights@.len() == i,
                forall|k: int| 0 <= k < i ==> mat_eq(#[trigger] weights@[k], self.weights@[k]),
        {
            weights.push(self.weights[i].duplicate());
        }
        let mut biases: Vec<Vec<u32>> = Vec::new();
        let nb = self.biases.len();
        for i in 0..nb
            invariant
                nb == self.biases@.len(),
                biases@.len() == i,
                forall|k: int| 0 <= k < i ==> (#[trigger] biases@[k])@ == self.biases@[k]@,
        {
            biases.push(copy_vec(&self.biases[i]));
        }
        let r = Network {
            layer_sizes: copy_usizes(&self.layer_sizes),
            activation_coeffs: copy_vec(&self.activation_coeffs),
            weights,
            biases,
            activation_fn: self.activation_fn,
        };
        proof {
            assert(net_eq(r, *self));
            if self.wf() {
                lemma_net_eq_wf(r, *self);
            }
        }
        r
    }

    /// A stack of zero vectors shaped like the layers, the scratch space of
    /// one forward pass.
    pub fn zero_layers(&self) -> (r: Vec<Vec<u32>>)
        ensures
            r@.len() == self.layer_sizes@.len(),
            forall|i: int|
                0 <= i < self.layer_sizes@.len() ==> (#[trigger] r@[i])@.len()
                    == self.layer_sizes@[i],
            forall|i: int, j: int|
                0 <= i < self.layer_sizes@.len() && 0 <= j < self.layer_sizes@[i]
                    ==> #[trigger] r@[i]@[j] == ZERO_BITS,
    {
        zero_biases_of(&self.layer_sizes)
    }

    /// A stack of zero matrices shaped like the weights, the identity
    /// element of gradient accumulation.
    pub fn zero_weights(&self) -> (r: Vec<Matrix>)
        requires
            self.wf(),
        ensures
            r@.len() == self.layer_sizes@.len(),
            r@[0].nrows() == 0,
            r@[0].cols == 0,
            forall|i: int|
                1 <= i < self.layer_sizes@.len() ==> {
                    &&& (#[trigger] r@[i]).wf()
                    &&& r@[i].nrows() == self.layer_sizes@[i - 1]
                    &&& r@[i].cols == self.layer_sizes@[i]
                },
            forall|i: int, rr: int, cc: int|
                1 <= i < self.layer_sizes@.len() && 0 <= rr < self.layer_sizes@[i - 1] && 0 <= cc
                    < self.layer_sizes@[i] ==> #[trigger] r@[i].idx(rr, cc) == ZERO_BITS,
    {
        zero_weights_of(&self.layer_sizes)
    }

    /// One fresh parameter set shaped like the network: every entry is an
    /// independent draw from the zero-mean, 0.1 standard deviation Gaussian
    /// of the supplied generator, demoted to single precision, taken in a
    /// fixed order - weight matrices in index order, row by row, then bias
    /// vectors. What the values are depends on the generator's state;
    /// reproducible for a fixed seed.
    #[verifier::loop_isolation(false)]
    pub fn draw_params(&self, rng: &mut rand::prng::XorShiftRng) -> (r: (Vec<Matrix>, Vec<Vec<u32>>))
        requires
            self.wf(),
        ensures
            r.0@.len() == self.depth(),
            r.0@[0].nrows() == 0,
            r.0@[0].cols == 0,
            forall|i: int|
                1 <= i < self.depth() ==> {
                    &&& (#[trigger] r.0@[i]).wf()
                    &&& r.0@[i].nrows() == self.layer_sizes@[i - 1]
                    &&& r.0@[i].cols == self.layer_sizes@[i]
                },
            r.1@.len() == self.depth(),
            forall|i: int|
                0 <= i < self.depth() ==> (#[trigger] r.1@[i])@.len() == self.layer_sizes@[i],
    {
        proof {
            lemma_std_dev_bits_nonneg();
        }
        let depth = self.weights.len();
        let mut weights: Vec<Matrix> = Vec::new();
        for i in 0..depth
            invariant
                weights@.len() == i,
                forall|k: int|
                    0 <= k < i ==> {
                        &&& (#[trigger] weights@[k]).wf()
                        &&& weights@[k].nrows() == self.weights@[k].nrows()
                        &&& weights@[k].cols == self.weights@[k].cols
                    },
        {
            let rows = self.weights[i].data.len();
            let cols = self.weights[i].cols;
            let mut data: Vec<Vec<u32>> = Vec::new();
            for r in 0..rows
                invariant
                    data@.len() == r,
                    forall|k: int| 0 <= k < r ==> (#[trigger] data@[k])@.len() == cols,
            {
                let mut row: Vec<u32> = Vec::new();
                for c in 0..cols
                    invariant
                        row@.len() == c,
                {
                    row.push(demote_f(sample_normal(rng, WEIGHT_INIT_MEAN_BITS, WEIGHT_INIT_STD_DEV_BITS)));
                }
                data.push(row);
            }
            weights.push(Matrix { cols, data });
        }
        let mut biases: Vec<Vec<u32>> = Vec::new();
        for i in 0..depth
            invariant
                biases@.len() == i,
                forall|k: int|
                    0 <= k < i ==> (#[trigger] biases@[k])@.len() == self.biases@[k]@.len(),
        {
            let len = self.biases[i].len();
            let mut fresh: Vec<u32> = Vec::new();
            for j in 0..len
                invariant
                    fresh@.len() == j,
            {
                fresh.push(demote_f(sample_normal(rng, WEIGHT_INIT_MEAN_BITS, WEIGHT_INIT_STD_DEV_BITS)));
            }
            biases.push(fresh);
        }
        (weights, biases)
    }

    /// Installs the given parameter stacks: the weights and biases become
    /// exactly the supplied values; the topology and coefficients stay.
    pub fn fill_params(&mut self, weights: Vec<Matrix>, biases: Vec<Vec<u32>>)
        requires
            old(self).wf(),
            weights@.len() == old(self).depth(),
            weights@[0].nrows() == 0,
            weights@[0].cols == 0,
            forall|i: int|
                1 <= i < old(self).depth() ==> {
                    &&& (#[trigger] weights@[i]).wf()
                    &&& weights@[i].nrows() == old(self).layer_sizes@[i - 1]
                    &&& weights@[i].cols == old(self).layer_sizes@[i]
                },
            biases@.len() == old(self).depth(),
            forall|i: int|
                0 <= i < old(self).depth() ==> (#[trigger] biases@[i])@.len()
                    == old(self).layer_sizes@[i],
        ensures
            final(self).wf(),
            final(self).layer_sizes@ == old(self).layer_sizes@,
            final(self).activation_coeffs@ == old(self).activation_coeffs@,
            final(self).activation_fn == old(self).activation_fn,
            final(self).weights@ == weights@,
            final(self).biases@ == biases@,
    {
        self.weights = weights;
        self.biases = biases;
    }

    /// Draws every weight and bias afresh from the zero-mean, 0.1 standard
    /// deviation Gaussian of the supplied generator and installs them,
    /// leaving the topology untouched: the draws of `draw_params` land in
    /// the parameters exactly as `fill_params` states. What the values are
    /// depends on the generator's state; reproducible for a fixed seed.
    pub fn assign_random_weights(&mut self, rng: &mut rand::prng::XorShiftRng)
        requires
            old(self).wf(),
        ensures
            final(self).wf(),
            final(self).layer_sizes@ == old(self).layer_sizes@,
            final(self).activation_coeffs@ == old(self).activation_coeffs@,
            final(self).activation_fn == old(self).activation_fn,
    {
        let (weights, biases) = self.draw_params(rng);
        self.fill_params(weights, biases);
    }

    /// Runs the forward recurrence in place: for each layer `i + 1` below
    /// `stop_at`, the pre-activation sums go to `layer_inputs[i + 1]` and
    /// the activations to `layers[i + 1]`, both exactly as the spec
    /// recurrence states them from the input vector sitting in
    /// `layers[0]`. Layers at and beyond `stop_at` are left untouched.
    pub fn feed_forward(&self, layers: &mut Vec<Vec<u32>>, layer_inputs: &mut Vec<Vec<u32>>, stop_at: usize)
        requires
            self.wf(),
            old(layers)@.len() == self.depth(),
            old(layer_inputs)@.len() == self.depth(),
            forall|i: int|
                0 <= i < self.depth() ==> (#[trigger] old(layers)@[i])@.len()
                    == self.layer_sizes@[i],
            forall|i: int|
                0 <= i < self.depth() ==> (#[trigger] old(layer_inputs)@[i])@.len()
                    == self.layer_sizes@[i],
            1 <= stop_at <= self.depth(),
        ensures
            final(layers)@.len() == self.depth(),
            final(layer_inputs)@.len() == self.depth(),
            final(layers)@[0]@ == old(layers)@[0]@,
            final(layer_inputs)@[0]@ == old(layer_inputs)@[0]@,
            forall|k: int|
                1 <= k < stop_at ==> (#[trigger] final(layers)@[k])@
                    == layer_acts(*self, old(layers)@[0]@, k),
            forall|k: int|
                1 <= k < stop_at ==> (#[trigger] final(layer_inputs)@[k])@
                    == layer_net_in(*self, old(layers)@[0]@, k),
            forall|k: int|
                stop_at <= k < self.depth() ==> (#[trigger] final(layers)@[k])@ == old(layers)@[k]@,
            forall|k: int|
                stop_at <= k < self.depth() ==> (#[trigger] final(layer_inputs)@[k])@
                    == old(layer_inputs)@[k]@,
            forall|i: int|
                0 <= i < self.depth() ==> (#[trigger] final(layers)@[i])@.len() == self.layer_sizes@[i],
            forall|i: int|
                0 <= i < self.depth() ==> (#[trigger] final(layer_inputs)@[i])@.len()
                    == self.layer_sizes@[i],
    {
        let ghost input0 = old(layers)@[0]@;
        let end = stop_at - 1;
        for it in 0..end
            invariant
                end == stop_at - 1,
                1 <= stop_at <= self.depth(),
                self.wf(),
                layers@.len() == self.depth(),
                layer_inputs@.len() == self.depth(),
                layers@[0]@ == input0,
                layer_inputs@[0]@ == old(layer_inputs)@[0]@,
                forall|k: int|
                    1 <= k <= it ==> (#[trigger] layers@[k])@ == layer_acts(*self, input0, k),
                forall|k: int|
                    1 <= k <= it ==> (#[trigger] layer_inputs@[k])@
                        == layer_net_in(*self, input0, k),
                forall|k: int| it < k < self.depth() ==> (#[trigger] layers@[k])@ == old(layers)@[k]@,
                forall|k: int|
                    it < k < self.depth() ==> (#[trigger] layer_inputs@[k])@
                        == old(layer_inputs)@[k]@,
                forall|i: int|
                    0 <= i < self.depth() ==> (#[trigger] layers@[i])@.len()
                        == self.layer_sizes@[i],
                forall|i: int|
                    0 <= i < self.depth() ==> (#[trigger] layer_inputs@[i])@.len()
                        == self.layer_sizes@[i],
        {
            proof {
                if it > 0 {
                    assert(layers@[it as int]@ == layer_acts(*self, input0, it as int));
                }
                assert(layers@[it as int]@.len() == self.layer_sizes@[it as int]);
            }
            let product = row_times_matrix(&layers[it], &self.weights[it + 1]);
            let net_in = add_vecs(&product, &self.biases[it + 1]);
            let acts = activate_vec(&self.activation_fn, &net_in, self.activation_coeffs[it + 1]);
            proof {
                let k = it + 1 as int;
                assert(layers@[it as int]@ == layer_acts(*self, input0, it as int));
                assert forall|j: int| 0 <= j < net_in@.len() implies net_in@[j] == layer_net_in(
                    *self,
                    input0,
                    it + 1,
                )[j] by {
                    assert(product@[j] == vm_acc(
                        layers@[it as int]@,
                        self.weights@[it + 1],
                        j,
                        self.weights@[it + 1].nrows(),
                    ));
                }
                assert(net_in@ =~= layer_net_in(*self, input0, it + 1));
                assert forall|j: int| 0 <= j < acts@.len() implies acts@[j] == layer_acts(
                    *self,
                    input0,
                    it + 1,
                )[j] by {
                    assert(acts@[j] == act_apply(
                        self.activation_fn,
                        net_in@[j],
                        self.activation_coeffs@[it + 1],
                    ));
                }
                assert(acts@ =~= layer_acts(*self, input0, it + 1));
            }
            layer_inputs.set(it + 1, net_in);
            layers.set(it + 1, acts);
        }
    }

    /// A full forward pass: the input becomes layer 0 and the last layer's
    /// activations come back, exactly as the spec recurrence states them.
    /// The input must be as wide as the input layer.
    pub fn eval(&self, example: Vec<u32>) -> (r: Vec<u32>)
        requires
            self.wf(),
            example@.len() == self.in_width(),
        ensures
            r@ == eval_spec(*self, example@),
            r@.len() == self.out_width(),
    {
        self.eval_to_layer(example, self.layer_sizes.len())
    }

    /// A partial forward pass that stops after `layer` layers and returns
    /// the activations of layer `layer - 1`, used for feature
    /// introspection. `eval` is the special case `layer == depth`.
    pub fn eval_to_layer(&self, example: Vec<u32>, layer: usize) -> (r: Vec<u32>)
        requires
            self.wf(),
            example@.len() == self.in_width(),
            1 <= layer <= self.depth(),
        ensures
            r@ == layer_acts(*self, example@, layer - 1),
    {
        let ghost example_view = example@;
        let mut layers = self.zero_layers();
        let mut layer_inputs = self.zero_layers();
        layers.set(0, example);
        self.feed_forward(&mut layers, &mut layer_inputs, layer);
        let r = copy_vec(&layers[layer - 1]);
        proof {
            if layer == 1 {
                assert(layers@[0]@ == example_view);
                assert(layer_acts(*self, example_view, 0) == example_view);
            } else {
                assert(layers@[layer - 1]@ == layer_acts(*self, example_view, layer - 1));
            }
        }
        r
    }
}

} // verus!
