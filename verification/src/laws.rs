//! Laws that tie the components together: forward evaluation is a function
//! of the network's parameter values alone, and a snapshot restores those
//! values exactly.

use vstd::prelude::*;

verus! {

use crate::codec::{lemma_snapshot_bytes_inj, snapshot_bytes_spec};
use crate::linalg::{mat_eq, vm_acc, Matrix};
use crate::network::{eval_spec, layer_acts, layer_net_in, net_eq, Network};

proof fn lemma_vm_acc_eq(v: Seq<u32>, m1: Matrix, m2: Matrix, j: int, n: int)
    requires
        mat_eq(m1, m2),
        n <= m1.data@.len(),
    ensures
        vm_acc(v, m1, j, n) == vm_acc(v, m2, j, n),
    decreases n,
{
    if n > 0 {
        lemma_vm_acc_eq(v, m1, m2, j, n - 1);
        assert(m1.data@[n - 1]@ == m2.data@[n - 1]@);
    }
}

proof fn lemma_layers_net_eq(a: Network, b: Network, input: Seq<u32>, k: int)
    requires
        net_eq(a, b),
        a.wf(),
        k < a.depth(),
    ensures
        layer_acts(a, input, k) == layer_acts(b, input, k),
        layer_net_in(a, input, k) == layer_net_in(b, input, k),
    decreases k + 1,
{
    if k <= 0 {
        assert(layer_net_in(a, input, k) == layer_net_in(b, input, k));
    } else {
        lemma_layers_net_eq(a, b, input, k - 1);
        assert(mat_eq(a.weights@[k], b.weights@[k]));
        assert(a.weights@[k].nrows() == a.layer_sizes@[k - 1]);
        assert forall|j: int|
            0 <= j < a.layer_sizes@[k] implies layer_net_in(a, input, k)[j] == layer_net_in(
            b,
            input,
            k,
        )[j] by {
            lemma_vm_acc_eq(
                layer_acts(a, input, k - 1),
                a.weights@[k],
                b.weights@[k],
                j,
                a.weights@[k].nrows(),
            );
            assert(a.biases@[k]@ == b.biases@[k]@);
        }
        assert(layer_net_in(a, input, k) =~= layer_net_in(b, input, k));
        assert forall|j: int|
            0 <= j < a.layer_sizes@[k] implies layer_acts(a, input, k)[j] == layer_acts(
            b,
            input,
            k,
        )[j] by {}
        assert(layer_acts(a, input, k) =~= layer_acts(b, input, k));
    }
}

/// Forward evaluation is deterministic: it is a function of the network's
/// parameter values and the input alone, so any two networks holding equal
/// values - in particular, one network read twice - produce bit-identical
/// output for the same input.
pub proof fn lemma_eval_deterministic(a: Network, b: Network, input: Seq<u32>)
    requires
        net_eq(a, b),
        a.wf(),
    ensures
        eval_spec(a, input) == eval_spec(b, input),
{
    lemma_layers_net_eq(a, b, input, a.depth() - 1);
}

/// Round trip: a well-formed network whose snapshot bytes equal those of a
/// trained network holds exactly the trained parameters, so its forward
/// evaluation is bit-identical on every input. With the decoder's
/// guarantee that a restored network re-encodes to the given stream, this
/// pins deserialization to the serialized network.
pub proof fn lemma_snapshot_round_trip(restored: Network, original: Network, input: Seq<u32>)
    requires
        restored.wf(),
        original.wf(),
        snapshot_bytes_spec(restored) == snapshot_bytes_spec(original),
    ensures
        net_eq(restored, original),
        eval_spec(restored, input) == eval_spec(original, input),
{
    lemma_snapshot_bytes_inj(restored, original);
    lemma_eval_deterministic(restored, original, input);
}

} // verus!
