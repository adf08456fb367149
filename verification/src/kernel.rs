//! The convolution kernel: a validated square weight matrix with an optional
//! averaging normalizer.

use vstd::prelude::*;
use crate::model::{wsum, wbound};
use vstd::arithmetic::div_mod::{
    lemma_div_multiples_vanish, lemma_fundamental_div_mod, lemma_mod_multiples_basic,
};
use vstd::arithmetic::mul::lemma_mul_inequality;

verus! {

/// Why kernel construction failed.
#[derive(Debug, Clone, Copy, PartialEq, Eq, Structural)]
pub enum KernelError {
    /// The weight count does not equal `side * side`.
    InvalidKernelShape,
    /// The side length is even or less than 3.
    InvalidKernelSize,
    /// Averaging was requested but the weights sum to zero.
    ZeroNormalizer,
}

/// A sequence of 32-bit weights as unbounded integers.
pub open spec fn weights_ints(s: Seq<i32>) -> Seq<int> {
    Seq::new(s.len(), |t: int| s[t] as int)
}

/// An immutable square convolution kernel: `side * side` weights, row-major,
/// and `Some(sum of weights)` when averaging was requested at construction.
#[derive(Debug)]
pub struct ConvKernel {
    /// Weights, row-major, `side * side` of them.
    pub weights: Vec<i32>,
    /// Side length of the square matrix.
    pub side: usize,
    /// The normalizer: present exactly for an averaging kernel, and then equal
    /// to the (nonzero) sum of all weights.
    pub div: Option<i128>,
}

impl ConvKernel {
    /// The weights as unbounded integers.
    pub open spec fn wts_int(&self) -> Seq<int> {
        weights_ints(self.weights@)
    }

    /// The normalizer as an unbounded integer.
    pub open spec fn div_int(&self) -> Option<int> {
        match self.div {
            Some(d) => Some(d as int),
            None => None,
        }
    }

    /// The construction invariant.
    pub open spec fn wf(&self) -> bool {
        &&& 3 <= self.side
        &&& self.side % 2 == 1
        &&& self.weights@.len() == self.side * self.side
        &&& self.weights@.len() <= usize::MAX
        &&& match self.div {
            Some(d) => d == wsum(self.wts_int(), self.weights@.len() as int) && d != 0,
            None => true,
        }
    }

    /// Validates and stores a kernel. The checks run in order: the weight
    /// count must equal `side * side`, the side must be odd and at least 3,
    /// and an averaging kernel must not have weights summing to zero.
    pub fn new(filter: Vec<i32>, side: usize, avg: bool) -> (r: Result<ConvKernel, KernelError>)
        ensures
            ({
                let n = filter@.len() as int;
                let k = side as int;
                let s = wsum(weights_ints(filter@), n);
                &&& (n != k * k ==> r == Err::<ConvKernel, KernelError>(
                    KernelError::InvalidKernelShape,
                ))
                &&& (n == k * k && (k % 2 == 0 || k < 3) ==> r == Err::<ConvKernel, KernelError>(
                    KernelError::InvalidKernelSize,
                ))
                &&& (n == k * k && k % 2 == 1 && k >= 3 && avg && s == 0 ==> r == Err::<
                    ConvKernel,
                    KernelError,
                >(KernelError::ZeroNormalizer))
                &&& (n == k * k && k % 2 == 1 && k >= 3 && (!avg || s != 0) ==> (r matches Ok(kern)
                    && kern.wf() && kern.side == side && kern.weights@ == filter@ && (kern.div
                    is Some <==> avg)))
            }),
    {
        let n: usize = filter.len();
        if side == 0 {
            if n != 0 {
                return Err(KernelError::InvalidKernelShape);
            }
            return Err(KernelError::InvalidKernelSize);
        }
        let q: usize = n / side;
        let rem: usize = n % side;
        proof {
            lemma_fundamental_div_mod(n as int, side as int);
            if n as int == side as int * side as int {
                lemma_div_multiples_vanish(side as int, side as int);
                lemma_mod_multiples_basic(side as int, side as int);
            }
        }
        if q != side || rem != 0 {
            return Err(KernelError::InvalidKernelShape);
        }
        if side % 2 == 0 || side < 3 {
            return Err(KernelError::InvalidKernelSize);
        }
        let div: Option<i128> = if avg {
            let s: i128 = sum_weights(&filter);
            if s == 0 {
                return Err(KernelError::ZeroNormalizer);
            }
            Some(s)
        } else {
            None
        };
        Ok(ConvKernel { weights: filter, side, div })
    }

    /// The weight at tap `(i, j)`.
    pub fn at(&self, i: usize, j: usize) -> (v: i32)
        requires
            self.wf(),
            i < self.side,
            j < self.side,
        ensures
            v as int == self.wts_int()[i as int * self.side as int + j as int],
    {
        proof {
            let k = self.side as int;
            lemma_mul_inequality(i as int, k - 1, k);
            assert((k - 1) * k + j < k * k) by (nonlinear_arith)
                requires
                    0 <= j < k,
            ;
        }
        self.weights[i * self.side + j]
    }
}

/// Sums all weights exactly, into a 128-bit accumulator that cannot overflow.
fn sum_weights(filter: &Vec<i32>) -> (s: i128)
    ensures
        s as int == wsum(weights_ints(filter@), filter@.len() as int),
{
    let n: usize = filter.len();
    let mut s: i128 = 0;
    let mut t: usize = 0;
    while t < n
        invariant
            t <= n,
            n == filter@.len(),
            s as int == wsum(weights_ints(filter@), t as int),
            -(t as int * wbound()) <= s as int <= t as int * wbound(),
        decreases n - t,
    {
        s = s + filter[t] as i128;
        t += 1;
    }
    s
}

} // verus!
