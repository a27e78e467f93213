//! Backpropagation, per-example gradient contributions, their reduction
//! over a batch, the weight update, and the reported cost.

use rayon::iter::{IntoParallelRefIterator, ParallelIterator};
use vstd::prelude::*;

verus! {

use crate::activation::{act_deriv, derive_vec};
use crate::linalg::{
    add_mats, add_vecs, copy_vec, matrix_times_col, mul_vecs, mv_acc, sq_acc, sub_vecs,
    sum_squares, Matrix,
};
use crate::network::{eval_spec, layer_acts, layer_net_in, Network, TrainConfig};
use crate::scalar::{
    add_f, div_f, eq_f, f_of_usize, fadd, fdiv, feq, fmul, fsub, mul_f, of_usize_f, sub_f,
    ONE_BITS, ZERO_BITS,
};

/// The ordered examples of one training pass: input and target vectors.
pub type TrainData = Vec<(Vec<u32>, Vec<u32>)>;

/// The views of a stack of vectors.
pub open spec fn views(v: Seq<Vec<u32>>) -> Seq<Seq<u32>> {
    v.map_values(|x: Vec<u32>| x@)
}

/// A sequence of zero scalars.
pub open spec fn zero_seq(n: nat) -> Seq<u32> {
    Seq::new(n, |i: int| ZERO_BITS)
}

/// Every example of a batch is as wide as the network's input and output.
pub open spec fn batch_shaped(net: Network, batch: Seq<(Vec<u32>, Vec<u32>)>) -> bool {
    forall|i: int|
        0 <= i < batch.len() ==> (#[trigger] batch[i]).0@.len() == net.in_width()
            && batch[i].1@.len() == net.out_width()
}

/// The error signal of layer `k`, given the pre-activation sums of every
/// layer and the output-layer error: the output error times the activation
/// derivative at the last layer, and below it the next layer's signal
/// pulled back through the forward weight matrix, times the derivative.
pub open spec fn bp_delta(net: Network, li: Seq<Seq<u32>>, diff: Seq<u32>, k: int) -> Seq<u32>
    decreases net.depth() - k,
{
    if k >= net.depth() - 1 {
        Seq::new(
            net.layer_sizes@[net.depth() - 1] as nat,
            |j: int|
                fmul(
                    diff[j],
                    act_deriv(
                        net.activation_fn,
                        li[net.depth() - 1][j],
                        net.activation_coeffs@[net.depth() - 1],
                    ),
                ),
        )
    } else {
        Seq::new(
            net.layer_sizes@[k] as nat,
            |i: int|
                fmul(
                    mv_acc(net.weights@[k + 1], bp_delta(net, li, diff, k + 1), i, net.weights@[k + 1].cols as int),
                    act_deriv(net.activation_fn, li[k][i], net.activation_coeffs@[k]),
                ),
        )
    }
}

/// The output-layer error of one example: prediction minus target.
pub open spec fn example_out_diff(net: Network, input: Seq<u32>, target: Seq<u32>) -> Seq<u32> {
    Seq::new(
        net.layer_sizes@[net.depth() - 1] as nat,
        |j: int| fsub(eval_spec(net, input)[j], target[j]),
    )
}

/// The pre-activation sums a forward pass leaves behind: zeros at layer 0,
/// the recurrence's sums elsewhere.
pub open spec fn forward_inputs(net: Network, input: Seq<u32>) -> Seq<Seq<u32>> {
    Seq::new(
        net.depth() as nat,
        |k: int|
            if k == 0 {
                zero_seq(net.layer_sizes@[0] as nat)
            } else {
                layer_net_in(net, input, k)
            },
    )
}

/// The error signal of layer `k` for one example.
pub open spec fn example_delta(net: Network, input: Seq<u32>, target: Seq<u32>, k: int) -> Seq<u32> {
    bp_delta(net, forward_inputs(net, input), example_out_diff(net, input, target), k)
}

/// One example's squared output error, divided by the output width.
pub open spec fn example_sq_err(net: Network, input: Seq<u32>, target: Seq<u32>) -> u32 {
    fdiv(
        sq_acc(example_out_diff(net, input, target), net.layer_sizes@[net.depth() - 1] as int),
        f_of_usize(net.layer_sizes@[net.depth() - 1]),
    )
}

/// One example's gradient contribution: per layer, the outer product of the
/// incoming activations with the layer's error signal, the signal itself
/// for the biases, and the example's squared output error.
pub struct ExampleGrad {
    pub weight_update: Vec<Matrix>,
    pub bias_update: Vec<Vec<u32>>,
    pub error: u32,
}

/// Everything `example_contribution` promises of its result, so the
/// parallel map over a batch can promise it of every element.
pub open spec fn contribution_post(net: Network, input: Seq<u32>, target: Seq<u32>, g: ExampleGrad) -> bool {
    &&& g.weight_update@.len() == net.depth()
    &&& g.weight_update@[0].nrows() == 0
    &&& g.weight_update@[0].cols == 0
    &&& forall|i: int|
        1 <= i < net.depth() ==> {
            &&& (#[trigger] g.weight_update@[i]).wf()
            &&& g.weight_update@[i].nrows() == net.layer_sizes@[i - 1]
            &&& g.weight_update@[i].cols == net.layer_sizes@[i]
        }
    &&& forall|i: int, rr: int, cc: int|
        1 <= i < net.depth() && 0 <= rr < net.layer_sizes@[i - 1] && 0 <= cc < net.layer_sizes@[i]
            ==> #[trigger] g.weight_update@[i].idx(rr, cc) == fmul(
            layer_acts(net, input, i - 1)[rr],
            example_delta(net, input, target, i)[cc],
        )
    &&& g.bias_update@.len() == net.depth()
    &&& forall|i: int|
        0 <= i < net.depth() ==> (#[trigger] g.bias_update@[i])@.len() == net.layer_sizes@[i]
    &&& forall|i: int|
        1 <= i < net.depth() ==> (#[trigger] g.bias_update@[i])@ == example_delta(net, input, target, i)
    &&& forall|j: int| 0 <= j < net.layer_sizes@[0] ==> #[trigger] g.bias_update@[0]@[j] == ZERO_BITS
    &&& g.error == example_sq_err(net, input, target)
}

impl Network {
    /// Turns the pre-activation sums of a forward pass and the output-layer
    /// error into the per-layer error signals, exactly as the spec
    /// recurrence states them.
    #[verifier::loop_isolation(false)]
    pub fn backpropagate(&self, layer_inputs: Vec<Vec<u32>>, out_layer_diff: Vec<u32>) -> (delta: Vec<Vec<u32>>)
        requires
            self.wf(),
            layer_inputs@.len() == self.depth(),
            forall|i: int|
                0 <= i < self.depth() ==> (#[trigger] layer_inputs@[i])@.len()
                    == self.layer_sizes@[i],
            out_layer_diff@.len() == self.out_width(),
        ensures
            delta@.len() == self.depth(),
            forall|k: int|
                0 <= k < self.depth() ==> (#[trigger] delta@[k])@ == bp_delta(
                    *self,
                    views(layer_inputs@),
                    out_layer_diff@,
                    k,
                ),
    {
        let ghost li = views(layer_inputs@);
        let depth = self.layer_sizes.len();
        let mut fp: Vec<Vec<u32>> = Vec::new();
        proof {
            assert(li.len() == layer_inputs@.len());
            assert forall|i: int| 0 <= i < li.len() implies #[trigger] li[i] == layer_inputs@[i]@ by {}
        }
        for k in 0..depth
            invariant
                fp@.len() == k,
                forall|i: int|
                    0 <= i < k ==> (#[trigger] fp@[i])@.len() == self.layer_sizes@[i],
                forall|i: int, j: int|
                    0 <= i < k && 0 <= j < self.layer_sizes@[i] ==> #[trigger] fp@[i]@[j]
                        == act_deriv(self.activation_fn, li[i][j], self.activation_coeffs@[i]),
        {
            fp.push(derive_vec(&self.activation_fn, &layer_inputs[k], self.activation_coeffs[k]));
        }
        let mut delta = self.zero_layers();
        let last = depth - 1;
        let head = mul_vecs(&out_layer_diff, &fp[last]);
        proof {
            assert(head@ =~= bp_delta(*self, li, out_layer_diff@, last as int));
        }
        delta.set(last, head);
        let mut it = last;
        while it > 0
            invariant
                it <= last,
                delta@.len() == depth,
                forall|k: int|
                    0 <= k < depth ==> (#[trigger] delta@[k])@.len() == self.layer_sizes@[k],
                forall|k: int|
                    it <= k < depth ==> (#[trigger] delta@[k])@ == bp_delta(
                        *self,
                        li,
                        out_layer_diff@,
                        k,
                    ),
            decreases it,
        {
            it = it - 1;
            let next_delta = matrix_times_col(&self.weights[it + 1], &delta[it + 1]);
            let d = mul_vecs(&next_delta, &fp[it]);
            proof {
                assert forall|i: int| 0 <= i < d@.len() implies d@[i] == bp_delta(
                    *self,
                    li,
                    out_layer_diff@,
                    it as int,
                )[i] by {
                    assert(next_delta@[i] == mv_acc(
                        self.weights@[it + 1],
                        delta@[it + 1]@,
                        i,
                        self.weights@[it + 1].cols as int,
                    ));
                    assert(delta@[it + 1]@ == bp_delta(*self, li, out_layer_diff@, it + 1));
                }
                assert(d@ =~= bp_delta(*self, li, out_layer_diff@, it as int));
            }
            delta.set(it, d);
        }
        delta
    }

    /// The gradient contribution a single layer-stack of activations and
    /// error signals yields: outer products against the incoming
    /// activations for the weights, the signals themselves for the biases,
    /// with the index-0 placeholders left zero.
    #[verifier::loop_isolation(false)]
    pub fn compute_weight_update(&self, layers: &Vec<Vec<u32>>, delta: Vec<Vec<u32>>) -> (r: (Vec<Matrix>, Vec<Vec<u32>>))
        requires
            self.wf(),
            layers@.len() == self.depth(),
            forall|i: int|
                0 <= i < self.depth() ==> (#[trigger] layers@[i])@.len() == self.layer_sizes@[i],
            delta@.len() == self.depth(),
            forall|i: int|
                0 <= i < self.depth() ==> (#[trigger] delta@[i])@.len() == self.layer_sizes@[i],
        ensures
            r.0@.len() == self.depth(),
            r.0@[0].nrows() == 0,
            r.0@[0].cols == 0,
            forall|i: int|
                1 <= i < self.depth() ==> {
                    &&& (#[trigger] r.0@[i]).wf()
                    &&& r.0@[i].nrows() == self.layer_sizes@[i - 1]
                    &&& r.0@[i].cols == self.layer_sizes@[i]
                },
            forall|i: int, rr: int, cc: int|
                1 <= i < self.depth() && 0 <= rr < self.layer_sizes@[i - 1] && 0 <= cc
                    < self.layer_sizes@[i] ==> #[trigger] r.0@[i].idx(rr, cc) == fmul(
                    layers@[i - 1]@[rr],
                    delta@[i]@[cc],
                ),
            r.1@.len() == self.depth(),
            forall|i: int|
                0 <= i < self.depth() ==> (#[trigger] r.1@[i])@.len() == self.layer_sizes@[i],
            forall|i: int| 1 <= i < self.depth() ==> (#[trigger] r.1@[i])@ == delta@[i]@,
            forall|j: int| 0 <= j < self.layer_sizes@[0] ==> #[trigger] r.1@[0]@[j] == ZERO_BITS,
    {
        let mut weight_update = self.zero_weights();
        let mut bias_update = self.zero_layers();
        let depth = self.layer_sizes.len();
        for it in 1..depth
            invariant
                weight_update@.len() == depth,
                weight_update@[0].nrows() == 0,
                weight_update@[0].cols == 0,
                forall|i: int|
                    1 <= i < depth ==> {
                        &&& (#[trigger] weight_update@[i]).wf()
                        &&& weight_update@[i].nrows() == self.layer_sizes@[i - 1]
                        &&& weight_update@[i].cols == self.layer_sizes@[i]
                    },
                forall|i: int, rr: int, cc: int|
                    1 <= i < it && 0 <= rr < self.layer_sizes@[i - 1] && 0 <= cc
                        < self.layer_sizes@[i] ==> #[trigger] weight_update@[i].idx(rr, cc) == fmul(
                        layers@[i - 1]@[rr],
                        delta@[i]@[cc],
                    ),
                bias_update@.len() == depth,
                forall|i: int|
                    0 <= i < depth ==> (#[trigger] bias_update@[i])@.len() == self.layer_sizes@[i],
                forall|i: int| 1 <= i < it ==> (#[trigger] bias_update@[i])@ == delta@[i]@,
                forall|j: int|
                    0 <= j < self.layer_sizes@[0] ==> #[trigger] bias_update@[0]@[j] == ZERO_BITS,
        {
            let correction = crate::linalg::outer_product(&layers[it - 1], &delta[it]);
            weight_update.set(it, correction);
            bias_update.set(it, copy_vec(&delta[it]));
        }
        (weight_update, bias_update)
    }

    /// One example's full contribution: forward pass, output error,
    /// backpropagation, and the gradient it induces.
    pub fn example_contribution(&self, input: &Vec<u32>, target: &Vec<u32>) -> (g: ExampleGrad)
        requires
            self.wf(),
            input@.len() == self.in_width(),
            target@.len() == self.out_width(),
        ensures
            contribution_post(*self, input@, target@, g),
    {
        let depth = self.layer_sizes.len();
        let mut layers = self.zero_layers();
        let mut layer_inputs = self.zero_layers();
        layers.set(0, copy_vec(input));
        self.feed_forward(&mut layers, &mut layer_inputs, depth);
        let out_diff = sub_vecs(&layers[depth - 1], target);
        let error = div_f(sum_squares(&out_diff), of_usize_f(out_diff.len()));
        proof {
            assert forall|k: int| 0 <= k < depth implies views(layer_inputs@)[k] == forward_inputs(
                *self,
                input@,
            )[k] by {
                if k == 0 {
                    assert(layer_inputs@[0]@ =~= zero_seq(self.layer_sizes@[0] as nat));
                } else {
                    assert(layer_inputs@[k]@ == layer_net_in(*self, input@, k));
                }
            }
            assert(views(layer_inputs@) =~= forward_inputs(*self, input@));
            assert(layers@[depth - 1]@ == layer_acts(*self, input@, depth - 1));
            assert(out_diff@ =~= example_out_diff(*self, input@, target@));
        }
        let ghost li = views(layer_inputs@);
        let delta = self.backpropagate(layer_inputs, out_diff);
        let (weight_update, bias_update) = self.compute_weight_update(&layers, delta);
        let g = ExampleGrad { weight_update, bias_update, error };
        proof {
            assert forall|i: int, rr: int, cc: int|
                1 <= i < self.depth() && 0 <= rr < self.layer_sizes@[i - 1] && 0 <= cc
                    < self.layer_sizes@[i] implies #[trigger] g.weight_update@[i].idx(rr, cc)
                == fmul(layer_acts(*self, input@, i - 1)[rr], example_delta(*self, input@, target@, i)[cc]) by {
                if i == 1 {
                    assert(layers@[0]@ == input@);
                }
            }
            assert forall|i: int|
                1 <= i < self.depth() implies (#[trigger] g.bias_update@[i])@ == example_delta(
                    *self,
                    input@,
                    target@,
                    i,
                ) by {}
        }
        g
    }
}

/// The elementwise sum of two stacks of gradient matrices.
#[verifier::loop_isolation(false)]
pub fn weight_sum(delta1: Vec<Matrix>, delta2: &Vec<Matrix>) -> (r: Vec<Matrix>)
    requires
        delta1@.len() == delta2@.len(),
        forall|i: int|
            0 <= i < delta1@.len() ==> {
                &&& (#[trigger] delta1@[i]).wf()
                &&& delta2@[i].wf()
                &&& delta1@[i].cols == delta2@[i].cols
                &&& delta1@[i].nrows() == delta2@[i].nrows()
            },
    ensures
        r@.len() == delta1@.len(),
        forall|i: int|
            0 <= i < delta1@.len() ==> {
                &&& (#[trigger] r@[i]).wf()
                &&& r@[i].cols == delta1@[i].cols
                &&& r@[i].nrows() == delta1@[i].nrows()
            },
        forall|i: int, rr: int, cc: int|
            0 <= i < delta1@.len() && 0 <= rr < delta1@[i].nrows() && 0 <= cc < delta1@[i].cols
                ==> #[trigger] r@[i].idx(rr, cc) == fadd(delta1@[i].idx(rr, cc), delta2@[i].idx(rr, cc)),
{
    let mut out: Vec<Matrix> = Vec::new();
    let n = delta1.len();
    for i in 0..n
        invariant
            out@.len() == i,
            forall|k: int|
                0 <= k < i ==> {
                    &&& (#[trigger] out@[k]).wf()
                    &&& out@[k].cols == delta1@[k].cols
                    &&& out@[k].nrows() == delta1@[k].nrows()
                },
            forall|k: int, rr: int, cc: int|
                0 <= k < i && 0 <= rr < delta1@[k].nrows() && 0 <= cc < delta1@[k].cols
                    ==> #[trigger] out@[k].idx(rr, cc) == fadd(
                    delta1@[k].idx(rr, cc),
                    delta2@[k].idx(rr, cc),
                ),
    {
        out.push(add_mats(&delta1[i], &delta2[i]));
    }
    out
}

/// The elementwise sum of two stacks of bias gradients.
#[verifier::loop_isolation(false)]
pub fn bias_sum(bias1: Vec<Vec<u32>>, bias2: &Vec<Vec<u32>>) -> (r: Vec<Vec<u32>>)
    requires
        bias1@.len() == bias2@.len(),
        forall|i: int|
            0 <= i < bias1@.len() ==> (#[trigger] bias1@[i])@.len() == bias2@[i]@.len(),
    ensures
        r@.len() == bias1@.len(),
        forall|i: int| 0 <= i < bias1@.len() ==> (#[trigger] r@[i])@.len() == bias1@[i]@.len(),
        forall|i: int, j: int|
            0 <= i < bias1@.len() && 0 <= j < bias1@[i]@.len() ==> #[trigger] r@[i]@[j] == fadd(
                bias1@[i]@[j],
                bias2@[i]@[j],
            ),
{
    let mut out: Vec<Vec<u32>> = Vec::new();
    let n = bias1.len();
    for i in 0..n
        invariant
            out@.len() == i,
            forall|k: int| 0 <= k < i ==> (#[trigger] out@[k])@.len() == bias1@[k]@.len(),
            forall|k: int, j: int|
                0 <= k < i && 0 <= j < bias1@[k]@.len() ==> #[trigger] out@[k]@[j] == fadd(
                    bias1@[k]@[j],
                    bias2@[k]@[j],
                ),
    {
        out.push(add_vecs(&bias1[i], &bias2[i]));
    }
    out
}


/// The value a weight takes after one epoch's update: the L2 shrink factor
/// first (only on layer 1, only when the regularization coefficient is
/// nonzero), then the gradient step scaled by the learning rate over the
/// batch size, then the momentum step against the previous epoch's
/// accumulated gradient, when momentum is configured.
pub open spec fn weight_after_update(w: u32, dw: u32, ldw: u32, layer: int, examples: usize, conf: TrainConfig) -> u32 {
    let nf = f_of_usize(examples);
    let base = if layer == 1 && !feq(conf.regularization_param, ZERO_BITS) {
        fmul(w, fsub(ONE_BITS, fdiv(fmul(conf.regularization_param, conf.learning_rate), nf)))
    } else {
        w
    };
    let stepped = fsub(base, fmul(fdiv(dw, nf), conf.learning_rate));
    match conf.momentum_rate {
        Some(m) => fsub(stepped, fmul(fdiv(ldw, nf), m)),
        None => stepped,
    }
}

/// The value a bias takes after one epoch's update: as a weight, but never
/// regularized.
pub open spec fn bias_after_update(b: u32, db: u32, ldb: u32, examples: usize, conf: TrainConfig) -> u32 {
    let nf = f_of_usize(examples);
    let stepped = fsub(b, fmul(fdiv(db, nf), conf.learning_rate));
    match conf.momentum_rate {
        Some(m) => fsub(stepped, fmul(fdiv(ldb, nf), m)),
        None => stepped,
    }
}

/// The squares of a vector's first `n` entries added, in index order, onto
/// a carried-in partial sum.
pub open spec fn sq_acc_from(v: Seq<u32>, init: u32, n: int) -> u32
    decreases n,
{
    if n <= 0 {
        init
    } else {
        fadd(sq_acc_from(v, init, n - 1), fmul(v[n - 1], v[n - 1]))
    }
}

/// The squares of every entry of a matrix's first `r` rows, summed in
/// row-major order from zero.
pub open spec fn mat_sq(m: Matrix, r: int) -> u32
    decreases r,
{
    if r <= 0 {
        ZERO_BITS
    } else {
        sq_acc_from(m.data@[r - 1]@, mat_sq(m, r - 1), m.data@[r - 1]@.len() as int)
    }
}

/// The left fold of `sum-of-squares / examples` over the first `n` weight
/// matrices.
pub open spec fn weights_sq_sum(ws: Seq<Matrix>, n: int, examples: usize) -> u32
    decreases n,
{
    if n <= 0 {
        ZERO_BITS
    } else {
        fadd(
            weights_sq_sum(ws, n - 1, examples),
            fdiv(mat_sq(ws[n - 1], ws[n - 1].data@.len() as int), f_of_usize(examples)),
        )
    }
}

/// The reported cost: zero for an empty batch; otherwise the output error,
/// plus - when the regularization coefficient is nonzero - the summed
/// per-matrix mean squared weights scaled by the coefficient and divided
/// by the number of weight matrices.
pub open spec fn cost_spec(net: Network, output_error: u32, examples: usize, conf: TrainConfig) -> u32 {
    if examples == 0 {
        ZERO_BITS
    } else if !feq(conf.regularization_param, ZERO_BITS) {
        fadd(
            output_error,
            fdiv(
                fmul(
                    conf.regularization_param,
                    weights_sq_sum(net.weights@, net.weights@.len() as int, examples),
                ),
                f_of_usize(net.weights@.len() as usize),
            ),
        )
    } else {
        fadd(output_error, ZERO_BITS)
    }
}

/// The squares of every entry of a matrix, summed in row-major order.
#[verifier::loop_isolation(false)]
pub fn mat_sum_squares(m: &Matrix) -> (r: u32)
    ensures
        r == mat_sq(*m, m.data@.len() as int),
{
    let mut acc = ZERO_BITS;
    let rows = m.data.len();
    for r in 0..rows
        invariant
            acc == mat_sq(*m, r as int),
    {
        let cols = m.data[r].len();
        for c in 0..cols
            invariant
                cols == m.data@[r as int]@.len(),
                acc == sq_acc_from(m.data@[r as int]@, mat_sq(*m, r as int), c as int),
        {
            let w = m.data[r][c];
            acc = add_f(acc, mul_f(w, w));
        }
    }
    acc
}

/// The left fold of per-example squared errors over the first `n` examples.
pub open spec fn err_fold(net: Network, batch: Seq<(Vec<u32>, Vec<u32>)>, n: int) -> u32
    decreases n,
{
    if n <= 0 {
        ZERO_BITS
    } else {
        fadd(err_fold(net, batch, n - 1), example_sq_err(net, batch[n - 1].0@, batch[n - 1].1@))
    }
}

/// The left fold of per-example weight-gradient entries over the first `n`
/// examples.
pub open spec fn grad_w_fold(net: Network, batch: Seq<(Vec<u32>, Vec<u32>)>, n: int, i: int, rr: int, cc: int) -> u32
    decreases n,
{
    if n <= 0 {
        ZERO_BITS
    } else {
        fadd(
            grad_w_fold(net, batch, n - 1, i, rr, cc),
            fmul(
                layer_acts(net, batch[n - 1].0@, i - 1)[rr],
                example_delta(net, batch[n - 1].0@, batch[n - 1].1@, i)[cc],
            ),
        )
    }
}

/// The left fold of per-example bias-gradient entries over the first `n`
/// examples; the index-0 placeholder accumulates zero contributions.
pub open spec fn grad_b_fold(net: Network, batch: Seq<(Vec<u32>, Vec<u32>)>, n: int, i: int, j: int) -> u32
    decreases n,
{
    if n <= 0 {
        ZERO_BITS
    } else {
        fadd(
            grad_b_fold(net, batch, n - 1, i, j),
            if i == 0 {
                ZERO_BITS
            } else {
                example_delta(net, batch[n - 1].0@, batch[n - 1].1@, i)[j]
            },
        )
    }
}

/// Relies on rayon's `par_iter().map(..).collect()`: a data-parallel map
/// that keeps the order of the underlying slice, so element `i` of the
/// result is what the verified `example_contribution` returns for example
/// `i`. The closure calls only that function and picks fields.
#[verifier::external_body]
fn par_example_contributions(net: &Network, batch: &TrainData) -> (r: Vec<ExampleGrad>)
    requires
        net.wf(),
        batch_shaped(*net, batch@),
    ensures
        r@.len() == batch@.len(),
        forall|i: int|
            0 <= i < batch@.len() ==> contribution_post(
                *net,
                batch@[i].0@,
                batch@[i].1@,
                #[trigger] r@[i],
            ),
{
    batch.par_iter().map(|ex| net.example_contribution(&ex.0, &ex.1)).collect()
}

/// Relies on rayon's `par_iter().map(..).collect()`, order-preserving as
/// above: element `i` is what the verified `validation_error_of` returns
/// for example `i`. The closure calls only that function and picks fields.
#[verifier::external_body]
fn par_validation_errors(net: &Network, data: &TrainData) -> (r: Vec<u32>)
    requires
        net.wf(),
        batch_shaped(*net, data@),
    ensures
        r@.len() == data@.len(),
        forall|i: int|
            0 <= i < data@.len() ==> #[trigger] r@[i] == val_err_spec(*net, data@[i].0@, data@[i].1@),
{
    data.par_iter().map(|ex| net.validation_error_of(&ex.0, &ex.1)).collect()
}

/// One validation example's squared error (target minus prediction),
/// divided by the output width.
pub open spec fn val_err_spec(net: Network, input: Seq<u32>, target: Seq<u32>) -> u32 {
    fdiv(
        sq_acc(
            Seq::new(
                net.layer_sizes@[net.depth() - 1] as nat,
                |j: int| fsub(target[j], eval_spec(net, input)[j]),
            ),
            net.layer_sizes@[net.depth() - 1] as int,
        ),
        f_of_usize(net.layer_sizes@[net.depth() - 1]),
    )
}

/// The left fold of per-example validation errors over the first `n`
/// examples.
pub open spec fn val_err_fold(net: Network, data: Seq<(Vec<u32>, Vec<u32>)>, n: int) -> u32
    decreases n,
{
    if n <= 0 {
        ZERO_BITS
    } else {
        fadd(val_err_fold(net, data, n - 1), val_err_spec(*&net, data[n - 1].0@, data[n - 1].1@))
    }
}

impl Network {
    /// One validation example's squared error against its target, from a
    /// read-only forward pass.
    pub fn validation_error_of(&self, input: &Vec<u32>, target: &Vec<u32>) -> (r: u32)
        requires
            self.wf(),
            input@.len() == self.in_width(),
            target@.len() == self.out_width(),
        ensures
            r == val_err_spec(*self, input@, target@),
    {
        let depth = self.layer_sizes.len();
        let mut layers = self.zero_layers();
        let mut layer_inputs = self.zero_layers();
        layers.set(0, copy_vec(input));
        self.feed_forward(&mut layers, &mut layer_inputs, depth);
        let diff = sub_vecs(target, &layers[depth - 1]);
        proof {
            assert(layers@[depth - 1]@ == layer_acts(*self, input@, depth - 1));
            assert(diff@ =~= Seq::new(
                self.layer_sizes@[self.depth() - 1] as nat,
                |j: int| fsub(target@[j], eval_spec(*self, input@)[j]),
            ));
        }
        div_f(sum_squares(&diff), of_usize_f(diff.len()))
    }

    /// The summed validation error of a holdout, evaluated in parallel and
    /// reduced in index order.
    #[verifier::loop_isolation(false)]
    pub fn validation_error_sum(&self, data: &TrainData) -> (r: u32)
        requires
            self.wf(),
            batch_shaped(*self, data@),
        ensures
            r == val_err_fold(*self, data@, data@.len() as int),
    {
        let errs = par_validation_errors(self, data);
        let mut acc = ZERO_BITS;
        let n = errs.len();
        for k in 0..n
            invariant
                acc == val_err_fold(*self, data@, k as int),
        {
            acc = add_f(acc, errs[k]);
        }
        acc
    }

    /// The gradient of one whole batch: per-example contributions computed
    /// in parallel, then reduced in index order, together with the summed
    /// per-example error.
    #[verifier::loop_isolation(false)]
    pub fn batch_contributions(&self, batch: &TrainData) -> (r: (Vec<Matrix>, Vec<Vec<u32>>, u32))
        requires
            self.wf(),
            batch_shaped(*self, batch@),
        ensures
            r.0@.len() == self.depth(),
            r.0@[0].nrows() == 0,
            r.0@[0].cols == 0,
            forall|i: int|
                1 <= i < self.depth() ==> {
                    &&& (#[trigger] r.0@[i]).wf()
                    &&& r.0@[i].nrows() == self.layer_sizes@[i - 1]
                    &&& r.0@[i].cols == self.layer_sizes@[i]
                },
            forall|i: int, rr: int, cc: int|
                1 <= i < self.depth() && 0 <= rr < self.layer_sizes@[i - 1] && 0 <= cc
                    < self.layer_sizes@[i] ==> #[trigger] r.0@[i].idx(rr, cc) == grad_w_fold(
                    *self,
                    batch@,
                    batch@.len() as int,
                    i,
                    rr,
                    cc,
                ),
            r.1@.len() == self.depth(),
            forall|i: int|
                0 <= i < self.depth() ==> (#[trigger] r.1@[i])@.len() == self.layer_sizes@[i],
            forall|i: int, j: int|
                0 <= i < self.depth() && 0 <= j < self.layer_sizes@[i] ==> #[trigger] r.1@[i]@[j]
                    == grad_b_fold(*self, batch@, batch@.len() as int, i, j),
            r.2 == err_fold(*self, batch@, batch@.len() as int),
    {
        let grads = par_example_contributions(self, batch);
        let mut wsum = self.zero_weights();
        let mut bsum = self.zero_layers();
        let mut err = ZERO_BITS;
        let n = grads.len();
        proof {
            assert forall|i: int, j: int|
                0 <= i < self.depth() && 0 <= j < self.layer_sizes@[i] implies #[trigger] bsum@[i]@[j]
                == grad_b_fold(*self, batch@, 0, i, j) by {}
        }
        for k in 0..n
            invariant
                wsum@.len() == self.depth(),
                wsum@[0].nrows() == 0,
                wsum@[0].cols == 0,
                forall|i: int|
                    1 <= i < self.depth() ==> {
                        &&& (#[trigger] wsum@[i]).wf()
                        &&& wsum@[i].nrows() == self.layer_sizes@[i - 1]
                        &&& wsum@[i].cols == self.layer_sizes@[i]
                    },
                forall|i: int, rr: int, cc: int|
                    1 <= i < self.depth() && 0 <= rr < self.layer_sizes@[i - 1] && 0 <= cc
                        < self.layer_sizes@[i] ==> #[trigger] wsum@[i].idx(rr, cc) == grad_w_fold(
                        *self,
                        batch@,
                        k as int,
                        i,
                        rr,
                        cc,
                    ),
                bsum@.len() == self.depth(),
                forall|i: int|
                    0 <= i < self.depth() ==> (#[trigger] bsum@[i])@.len() == self.layer_sizes@[i],
                forall|i: int, j: int|
                    0 <= i < self.depth() && 0 <= j < self.layer_sizes@[i] ==> #[trigger] bsum@[i]@[j]
                        == grad_b_fold(*self, batch@, k as int, i, j),
                err == err_fold(*self, batch@, k as int),
        {
            let ghost prev_w = wsum@;
            let ghost prev_b = bsum@;
            let g = &grads[k];
            proof {
                assert(contribution_post(*self, batch@[k as int].0@, batch@[k as int].1@, grads@[k as int]));
                assert(wsum@[0].wf());
            }
            wsum = weight_sum(wsum, &g.weight_update);
            bsum = bias_sum(bsum, &g.bias_update);
            err = add_f(err, g.error);
            proof {
                let input = batch@[k as int].0@;
                let target = batch@[k as int].1@;
                assert forall|i: int, rr: int, cc: int|
                    1 <= i < self.depth() && 0 <= rr < self.layer_sizes@[i - 1] && 0 <= cc
                        < self.layer_sizes@[i] implies #[trigger] wsum@[i].idx(rr, cc) == grad_w_fold(
                    *self,
                    batch@,
                    k + 1,
                    i,
                    rr,
                    cc,
                ) by {
                    assert(wsum@[i].idx(rr, cc) == fadd(
                        prev_w[i].idx(rr, cc),
                        g.weight_update@[i].idx(rr, cc),
                    ));
                }
                assert forall|i: int, j: int|
                    0 <= i < self.depth() && 0 <= j < self.layer_sizes@[i] implies #[trigger] bsum@[i]@[j]
                    == grad_b_fold(*self, batch@, k + 1, i, j) by {
                    assert(bsum@[i]@[j] == fadd(prev_b[i]@[j], g.bias_update@[i]@[j]));
                    if i >= 1 {
                        assert(g.bias_update@[i]@ == example_delta(*self, input, target, i));
                    } else {
                        assert(g.bias_update@[0]@[j] == ZERO_BITS);
                    }
                }
            }
        }
        (wsum, bsum, err)
    }

    /// Applies one epoch's update in place: for every weight and bias, the
    /// shrink-step-momentum value the update spec states, from the
    /// accumulated gradients of this epoch and (for momentum) the previous
    /// one.
    #[verifier::loop_isolation(false)]
    pub fn update_weights(&mut self, weight_update_sum: &Vec<Matrix>, bias_update_sum: &Vec<Vec<u32>>, last_weight_update_sum: &Vec<Matrix>, last_bias_update_sum: &Vec<Vec<u32>>, examples: usize, conf: &TrainConfig)
        requires
            old(self).wf(),
            weight_update_sum@.len() == old(self).depth(),
            last_weight_update_sum@.len() == old(self).depth(),
            forall|i: int|
                0 <= i < old(self).depth() ==> {
                    &&& (#[trigger] weight_update_sum@[i]).wf()
                    &&& weight_update_sum@[i].nrows() == old(self).weights@[i].nrows()
                    &&& weight_update_sum@[i].cols == old(self).weights@[i].cols
                },
            forall|i: int|
                0 <= i < old(self).depth() ==> {
                    &&& (#[trigger] last_weight_update_sum@[i]).wf()
                    &&& last_weight_update_sum@[i].nrows() == old(self).weights@[i].nrows()
                    &&& last_weight_update_sum@[i].cols == old(self).weights@[i].cols
                },
            bias_update_sum@.len() == old(self).depth(),
            last_bias_update_sum@.len() == old(self).depth(),
            forall|i: int|
                0 <= i < old(self).depth() ==> (#[trigger] bias_update_sum@[i])@.len()
                    == old(self).biases@[i]@.len(),
            forall|i: int|
                0 <= i < old(self).depth() ==> (#[trigger] last_bias_update_sum@[i])@.len()
                    == old(self).biases@[i]@.len(),
        ensures
            final(self).wf(),
            final(self).layer_sizes@ == old(self).layer_sizes@,
            final(self).activation_coeffs@ == old(self).activation_coeffs@,
            final(self).activation_fn == old(self).activation_fn,
            final(self).weights@.len() == old(self).weights@.len(),
            final(self).biases@.len() == old(self).biases@.len(),
            forall|i: int|
                0 <= i < old(self).depth() ==> {
                    &&& (#[trigger] final(self).weights@[i]).nrows() == old(self).weights@[i].nrows()
                    &&& final(self).weights@[i].cols == old(self).weights@[i].cols
                },
            forall|i: int, rr: int, cc: int|
                0 <= i < old(self).depth() && 0 <= rr < old(self).weights@[i].nrows() && 0 <= cc
                    < old(self).weights@[i].cols ==> #[trigger] final(self).weights@[i].idx(rr, cc)
                    == weight_after_update(
                    old(self).weights@[i].idx(rr, cc),
                    weight_update_sum@[i].idx(rr, cc),
                    last_weight_update_sum@[i].idx(rr, cc),
                    i,
                    examples,
                    *conf,
                ),
            forall|i: int, j: int|
                0 <= i < old(self).depth() && 0 <= j < old(self).biases@[i]@.len()
                    ==> #[trigger] final(self).biases@[i]@[j] == bias_after_update(
                    old(self).biases@[i]@[j],
                    bias_update_sum@[i]@[j],
                    last_bias_update_sum@[i]@[j],
                    examples,
                    *conf,
                ),
    {
        let reg_inactive = eq_f(conf.regularization_param, ZERO_BITS);
        let nf = of_usize_f(examples);
        let depth = self.weights.len();
        let mut new_weights: Vec<Matrix> = Vec::new();
        for i in 0..depth
            invariant
                new_weights@.len() == i,
                forall|k: int|
                    0 <= k < i ==> {
                        &&& (#[trigger] new_weights@[k]).wf()
                        &&& new_weights@[k].nrows() == self.weights@[k].nrows()
                        &&& new_weights@[k].cols == self.weights@[k].cols
                    },
                forall|k: int, rr: int, cc: int|
                    0 <= k < i && 0 <= rr < self.weights@[k].nrows() && 0 <= cc
                        < self.weights@[k].cols ==> #[trigger] new_weights@[k].idx(rr, cc)
                        == weight_after_update(
                        self.weights@[k].idx(rr, cc),
                        weight_update_sum@[k].idx(rr, cc),
                        last_weight_update_sum@[k].idx(rr, cc),
                        k,
                        examples,
                        *conf,
                    ),
        {
            let rows = self.weights[i].data.len();
            let cols = self.weights[i].cols;
            let mut data: Vec<Vec<u32>> = Vec::new();
            for r in 0..rows
                invariant
                    0 <= i < depth,
                    data@.len() == r,
                    forall|k: int| 0 <= k < r ==> (#[trigger] data@[k])@.len() == cols,
                    forall|k: int, cc: int|
                        0 <= k < r && 0 <= cc < cols ==> #[trigger] data@[k]@[cc]
                            == weight_after_update(
                            self.weights@[i as int].idx(k, cc),
                            weight_update_sum@[i as int].idx(k, cc),
                            last_weight_update_sum@[i as int].idx(k, cc),
                            i as int,
                            examples,
                            *conf,
                        ),
            {
                let mut row: Vec<u32> = Vec::new();
                for c in 0..cols
                    invariant
                        0 <= i < depth,
                        0 <= r < rows,
                        row@.len() == c,
                        forall|cc: int|
                            0 <= cc < c ==> #[trigger] row@[cc] == weight_after_update(
                                self.weights@[i as int].idx(r as int, cc),
                                weight_update_sum@[i as int].idx(r as int, cc),
                                last_weight_update_sum@[i as int].idx(r as int, cc),
                                i as int,
                                examples,
                                *conf,
                            ),
                {
                    let w = self.weights[i].data[r][c];
                    let dw = weight_update_sum[i].data[r][c];
                    let ldw = last_weight_update_sum[i].data[r][c];
                    let base = if i == 1 && !reg_inactive {
                        mul_f(w, sub_f(ONE_BITS, div_f(mul_f(conf.regularization_param, conf.learning_rate), nf)))
                    } else {
                        w
                    };
                    let stepped = sub_f(base, mul_f(div_f(dw, nf), conf.learning_rate));
                    let updated = match conf.momentum_rate {
                        Some(m) => sub_f(stepped, mul_f(div_f(ldw, nf), m)),
                        None => stepped,
                    };
                    row.push(updated);
                }
                data.push(row);
            }
            new_weights.push(Matrix { cols, data });
        }
        let mut new_biases: Vec<Vec<u32>> = Vec::new();
        for i in 0..depth
            invariant
                new_biases@.len() == i,
                forall|k: int|
                    0 <= k < i ==> (#[trigger] new_biases@[k])@.len() == self.biases@[k]@.len(),
                forall|k: int, j: int|
                    0 <= k < i && 0 <= j < self.biases@[k]@.len() ==> #[trigger] new_biases@[k]@[j]
                        == bias_after_update(
                        self.biases@[k]@[j],
                        bias_update_sum@[k]@[j],
                        last_bias_update_sum@[k]@[j],
                        examples,
                        *conf,
                    ),
        {
            let len = self.biases[i].len();
            let mut fresh: Vec<u32> = Vec::new();
            for j in 0..len
                invariant
                    0 <= i < depth,
                    fresh@.len() == j,
                    forall|jj: int|
                        0 <= jj < j ==> #[trigger] fresh@[jj] == bias_after_update(
                            self.biases@[i as int]@[jj],
                            bias_update_sum@[i as int]@[jj],
                            last_bias_update_sum@[i as int]@[jj],
                            examples,
                            *conf,
                        ),
            {
                let b = self.biases[i][j];
                let db = bias_update_sum[i][j];
                let ldb = last_bias_update_sum[i][j];
                let stepped = sub_f(b, mul_f(div_f(db, nf), conf.learning_rate));
                let updated = match conf.momentum_rate {
                    Some(m) => sub_f(stepped, mul_f(div_f(ldb, nf), m)),
                    None => stepped,
                };
                fresh.push(updated);
            }
            new_biases.push(fresh);
        }
        self.weights = new_weights;
        self.biases = new_biases;
    }

    /// The reported cost of an epoch, exactly as the cost spec states it.
    #[verifier::loop_isolation(false)]
    pub fn cost(&self, output_error: u32, examples: usize, conf: &TrainConfig) -> (r: u32)
        ensures
            r == cost_spec(*self, output_error, examples, *conf),
    {
        if examples == 0 {
            return ZERO_BITS;
        }
        let reg_inactive = eq_f(conf.regularization_param, ZERO_BITS);
        if !reg_inactive {
            let mut acc = ZERO_BITS;
            let n = self.weights.len();
            for i in 0..n
                invariant
                    acc == weights_sq_sum(self.weights@, i as int, examples),
            {
                acc = add_f(acc, div_f(mat_sum_squares(&self.weights[i]), of_usize_f(examples)));
            }
            add_f(output_error, div_f(mul_f(conf.regularization_param, acc), of_usize_f(n)))
        } else {
            add_f(output_error, ZERO_BITS)
        }
    }
}

} // verus!
