//! The scalar nonlinearity applied at each layer, and its derivative.

use vstd::prelude::*;

verus! {

use crate::scalar::{fadd, fsub, fmul, fdiv, fexp, ftanh, fcosh, fneg, add_f, sub_f, mul_f, div_f, exp_f, tanh_f, cosh_f, neg_f, ONE_BITS};

#[derive(Clone, Copy, Debug, PartialEq, Eq, Structural)]
pub enum ActivationFunction {
    Sigmoid,
    Tanh,
    Identity,
}

/// The value of the activation function at `x`, with the layer's
/// coefficient multiplying the argument:
/// sigmoid is `1 / (1 + e^(-x * coeff))`, tanh is `tanh(x * coeff)`, and
/// identity is `x * coeff`.
pub open spec fn act_apply(f: ActivationFunction, x: u32, coeff: u32) -> u32 {
    match f {
        ActivationFunction::Sigmoid => fdiv(ONE_BITS, fadd(ONE_BITS, fexp(fmul(fneg(x), coeff)))),
        ActivationFunction::Tanh => ftanh(fmul(x, coeff)),
        ActivationFunction::Identity => fmul(x, coeff),
    }
}

/// The derivative used by backpropagation:
/// `coeff * f(x) * (1 - f(x))` for sigmoid, `coeff / cosh(x * coeff)` for
/// tanh, and `coeff` for identity. The tanh formula takes `cosh` of the
/// raw argument rather than the algebraic `coeff * (1 - tanh^2)`; the two
/// are deliberately not interchanged.
pub open spec fn act_deriv(f: ActivationFunction, x: u32, coeff: u32) -> u32 {
    match f {
        ActivationFunction::Sigmoid => fmul(
            fmul(coeff, act_apply(f, x, coeff)),
            fsub(ONE_BITS, act_apply(f, x, coeff)),
        ),
        ActivationFunction::Tanh => fdiv(coeff, fcosh(fmul(x, coeff))),
        ActivationFunction::Identity => coeff,
    }
}

impl ActivationFunction {
    pub fn function(&self, x: u32, coeff: u32) -> (r: u32)
        ensures
            r == act_apply(*self, x, coeff),
    {
        match self {
            ActivationFunction::Sigmoid => div_f(ONE_BITS, add_f(ONE_BITS, exp_f(mul_f(neg_f(x), coeff)))),
            ActivationFunction::Tanh => tanh_f(mul_f(x, coeff)),
            ActivationFunction::Identity => mul_f(x, coeff),
        }
    }

    pub fn derivative(&self, x: u32, coeff: u32) -> (r: u32)
        ensures
            r == act_deriv(*self, x, coeff),
    {
        match self {
            ActivationFunction::Sigmoid => {
                let fx = self.function(x, coeff);
                mul_f(mul_f(coeff, fx), sub_f(ONE_BITS, fx))
            },
            ActivationFunction::Tanh => div_f(coeff, cosh_f(mul_f(x, coeff))),
            ActivationFunction::Identity => coeff,
        }
    }
}

/// The activation function applied to every entry of a vector.
pub fn activate_vec(f: &ActivationFunction, v: &Vec<u32>, coeff: u32) -> (r: Vec<u32>)
    ensures
        r@.len() == v@.len(),
        forall|j: int| 0 <= j < v@.len() ==> #[trigger] r@[j] == act_apply(*f, v@[j], coeff),
{
    let mut out: Vec<u32> = Vec::new();
    let n = v.len();
    for i in 0..n
        invariant
            n == v@.len(),
            out@.len() == i,
            forall|j: int| 0 <= j < i ==> #[trigger] out@[j] == act_apply(*f, v@[j], coeff),
    {
        out.push(f.function(v[i], coeff));
    }
    out
}

/// The activation derivative applied to every entry of a vector.
pub fn derive_vec(f: &ActivationFunction, v: &Vec<u32>, coeff: u32) -> (r: Vec<u32>)
    ensures
        r@.len() == v@.len(),
        forall|j: int| 0 <= j < v@.len() ==> #[trigger] r@[j] == act_deriv(*f, v@[j], coeff),
{
    let mut out: Vec<u32> = Vec::new();
    let n = v.len();
    for i in 0..n
        invariant
            n == v@.len(),
            out@.len() == i,
            forall|j: int| 0 <= j < i ==> #[trigger] out@[j] == act_deriv(*f, v@[j], coeff),
    {
        out.push(f.derivative(v[i], coeff));
    }
    out
}

} // verus!
