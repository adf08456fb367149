//! Mathematical model of the convolution: what every strategy must compute.
//!
//! The model speaks of plain integers. Kernel weights are integers; the
//! accumulator of one output cell is the exact weighted sum of the source
//! window; an averaging kernel divides the accumulator by the weight sum
//! (truncating toward zero, as the strategies do); the result is clamped to
//! `[0, 255]`. Cells within `k / 2` of any edge are never computed and stay 0.

use vstd::prelude::*;
use vstd::arithmetic::div_mod::{
    lemma_div_is_ordered, lemma_div_multiples_vanish_fancy, lemma_fundamental_div_mod,
    lemma_mod_bound, lemma_mod_mod,
};
use vstd::arithmetic::mul::lemma_mul_inequality;

verus! {

/// One convolution instance: the kernel (weights as unbounded integers, side
/// `k`, optional normalizer) and the source raster with its dimensions.
pub struct ConvInst {
    /// Kernel weights, row-major, `k * k` of them.
    pub wts: Seq<int>,
    /// Kernel side length.
    pub k: int,
    /// `Some(d)` for an averaging kernel: every accumulator is divided by `d`,
    /// which equals the sum of the weights.
    pub div: Option<int>,
    /// Source raster bytes, row-major, channel-interleaved.
    pub cont: Seq<u8>,
    /// Source height in pixels.
    pub h: int,
    /// Source width in pixels.
    pub w: int,
}

/// Flat index of channel `c` of pixel `(y, x)` in a raster of width `w`.
pub open spec fn idx3(w: int, y: int, x: int, c: int) -> int {
    (y * w + x) * 3 + c
}

/// Source sample at pixel `(y, x)`, channel `c`, as an integer.
pub open spec fn px(inst: ConvInst, y: int, x: int, c: int) -> int {
    inst.cont[idx3(inst.w, y, x, c)] as int
}

/// Kernel weight at tap `(i, j)`.
pub open spec fn wt(inst: ConvInst, i: int, j: int) -> int {
    inst.wts[i * inst.k + j]
}

/// Contribution of tap `(i, j)` to output cell `(y, x, c)`.
pub open spec fn tap(inst: ConvInst, y: int, x: int, c: int, i: int, j: int) -> int {
    px(inst, y - inst.k / 2 + i, x - inst.k / 2 + j, c) * wt(inst, i, j)
}

/// Partial sum of kernel row `i`: taps `(i, 0) .. (i, j)`.
pub open spec fn row_acc(inst: ConvInst, y: int, x: int, c: int, i: int, j: int) -> int
    decreases j,
{
    if j <= 0 {
        0
    } else {
        row_acc(inst, y, x, c, i, j - 1) + tap(inst, y, x, c, i, j - 1)
    }
}

/// Sum of the first `i` full kernel rows.
pub open spec fn acc_rows(inst: ConvInst, y: int, x: int, c: int, i: int) -> int
    decreases i,
{
    if i <= 0 {
        0
    } else {
        acc_rows(inst, y, x, c, i - 1) + row_acc(inst, y, x, c, i - 1, inst.k)
    }
}

/// Full accumulator of output cell `(y, x, c)`: the weighted sum over the
/// whole `k * k` source window centered on `(y, x)`.
pub open spec fn acc(inst: ConvInst, y: int, x: int, c: int) -> int {
    acc_rows(inst, y, x, c, inst.k)
}

/// Sum of the first `n` weights.
pub open spec fn wsum(s: Seq<int>, n: int) -> int
    decreases n,
{
    if n <= 0 {
        0
    } else {
        wsum(s, n - 1) + s[n - 1]
    }
}

/// Absolute value.
pub open spec fn absi(a: int) -> int {
    if a < 0 {
        -a
    } else {
        a
    }
}

/// Quotient of `a / b` truncated toward zero, as the strategies compute it.
pub open spec fn tdiv(a: int, b: int) -> int
    recommends
        b != 0,
{
    if (a < 0) == (b < 0) {
        absi(a) / absi(b)
    } else {
        -(absi(a) / absi(b))
    }
}

/// Saturation of a quotient to one output byte's range.
pub open spec fn clamp255(q: int) -> int {
    if q < 0 {
        0
    } else if q > 255 {
        255
    } else {
        q
    }
}

/// Byte produced from a raw accumulator `a` under normalizer `div`.
pub open spec fn out_of_acc(div: Option<int>, a: int) -> int {
    match div {
        Some(d) => clamp255(tdiv(a, d)),
        None => clamp255(a),
    }
}

/// Whether output pixel `(y, x)` lies in the valid region: at least `k / 2`
/// pixels away from every edge.
pub open spec fn interior(inst: ConvInst, y: int, x: int) -> bool {
    &&& inst.k / 2 <= y < inst.h - inst.k / 2
    &&& inst.k / 2 <= x < inst.w - inst.k / 2
}

/// The byte every strategy must place at output cell `(y, x, c)`.
pub open spec fn out_byte(inst: ConvInst, y: int, x: int, c: int) -> u8 {
    if interior(inst, y, x) {
        out_of_acc(inst.div, acc(inst, y, x, c)) as u8
    } else {
        0
    }
}

/// The shared contract of all strategies: `out` is the full-size destination
/// raster, every cell of which holds exactly the modeled byte.
pub open spec fn conv_ok(inst: ConvInst, out: Seq<u8>) -> bool {
    &&& out.len() == inst.h * inst.w * 3
    &&& forall|y: int, x: int, c: int|
        0 <= y < inst.h && 0 <= x < inst.w && 0 <= c < 3 ==> out[idx3(inst.w, y, x, c)]
            == #[trigger] out_byte(inst, y, x, c)
}

/// Well-formedness of an instance: a validated kernel (odd side at least 3,
/// `k * k` weights that fit in 32 bits, a normalizer that is the nonzero
/// weight sum when present) over a well-formed raster.
pub open spec fn inst_wf(inst: ConvInst) -> bool {
    &&& 3 <= inst.k
    &&& inst.k % 2 == 1
    &&& inst.wts.len() == inst.k * inst.k
    &&& inst.wts.len() <= usize::MAX
    &&& forall|t: int|
        0 <= t < inst.wts.len() ==> -0x8000_0000 <= #[trigger] inst.wts[t] < 0x8000_0000
    &&& match inst.div {
        Some(d) => d == wsum(inst.wts, inst.wts.len() as int) && d != 0,
        None => true,
    }
    &&& 0 <= inst.h
    &&& 0 <= inst.w
    &&& inst.cont.len() == inst.h * inst.w * 3
    &&& inst.cont.len() <= usize::MAX
}

/// Magnitude bound of one weight.
pub open spec fn wbound() -> int {
    0x8000_0000
}

/// Magnitude bound of one tap's contribution.
pub open spec fn term_bound() -> int {
    255int * 0x8000_0000
}

/// A cell index computed from in-range coordinates lies inside the raster.
pub proof fn lemma_idx3_bounds(h: int, w: int, y: int, x: int, c: int)
    requires
        0 <= y < h,
        0 <= x < w,
        0 <= c < 3,
    ensures
        0 <= idx3(w, y, x, c) < h * w * 3,
{
    assert(0 <= (y * w + x) * 3 + c < h * w * 3) by (nonlinear_arith)
        requires
            0 <= y < h,
            0 <= x < w,
            0 <= c < 3,
    ;
}

/// Distinct in-range coordinates give distinct cell indices.
pub proof fn lemma_idx3_inj(w: int, y1: int, x1: int, c1: int, y2: int, x2: int, c2: int)
    requires
        0 <= y1,
        0 <= y2,
        0 <= x1 < w,
        0 <= x2 < w,
        0 <= c1 < 3,
        0 <= c2 < 3,
        idx3(w, y1, x1, c1) == idx3(w, y2, x2, c2),
    ensures
        y1 == y2,
        x1 == x2,
        c1 == c2,
{
    assert(y1 == y2 && x1 == x2 && c1 == c2) by (nonlinear_arith)
        requires
            0 <= y1,
            0 <= y2,
            0 <= x1 < w,
            0 <= x2 < w,
            0 <= c1 < 3,
            0 <= c2 < 3,
            (y1 * w + x1) * 3 + c1 == (y2 * w + x2) * 3 + c2,
    ;
}

/// Every cell index inside the raster decomposes into unique in-range
/// coordinates: the pointwise contract pins every byte of the destination.
pub proof fn lemma_idx3_decompose(h: int, w: int, idx: int)
    requires
        0 < w,
        0 <= idx < h * w * 3,
    ensures
        ({
            let y = idx / (w * 3);
            let x = (idx % (w * 3)) / 3;
            let c = idx % 3;
            0 <= y < h && 0 <= x < w && 0 <= c < 3 && idx3(w, y, x, c) == idx
        }),
{
    let m = w * 3;
    let y = idx / m;
    let rest = idx % m;
    let x = rest / 3;
    let c = idx % 3;
    lemma_fundamental_div_mod(idx, m);
    lemma_mod_bound(idx, m);
    lemma_mod_bound(idx, 3);
    lemma_mod_mod(idx, 3, w);
    assert(3 * w == m);
    assert(rest % 3 == c);
    lemma_fundamental_div_mod(rest, 3);
    lemma_mod_bound(rest, 3);
    assert(rest == 3 * x + c);
    // y < h: idx <= h*m - 1 so idx/m <= (m*(h-1) + (m-1))/m == h - 1.
    assert(h * m == h * w * 3) by (nonlinear_arith)
        requires
            m == w * 3,
    ;
    assert(h * m - 1 == m * (h - 1) + (m - 1)) by (nonlinear_arith);
    lemma_div_is_ordered(idx, h * m - 1, m);
    lemma_div_multiples_vanish_fancy(h - 1, m - 1, m);
    assert(y <= h - 1);
    assert(0 <= y) by {
        lemma_div_is_ordered(0, idx, m);
    }
    // x < w: rest <= 3*w - 1 so rest/3 <= (3*(w-1) + 2)/3 == w - 1.
    lemma_div_is_ordered(rest, 3 * w - 1, 3);
    lemma_div_multiples_vanish_fancy(w - 1, 2, 3);
    assert(3 * w - 1 == 3 * (w - 1) + 2);
    assert(x <= w - 1);
    lemma_div_is_ordered(0, rest, 3);
    assert((y * w + x) * 3 + c == m * y + (3 * x + c)) by (nonlinear_arith)
        requires
            m == w * 3,
    ;
}

/// One tap's contribution is bounded by `term_bound()`.
pub proof fn lemma_tap_bound(inst: ConvInst, y: int, x: int, c: int, i: int, j: int)
    requires
        inst_wf(inst),
        0 <= i < inst.k,
        0 <= j < inst.k,
    ensures
        -term_bound() <= tap(inst, y, x, c, i, j) <= term_bound(),
{
    let k = inst.k;
    lemma_mul_inequality(i, k - 1, k);
    assert((k - 1) * k + j < k * k) by (nonlinear_arith)
        requires
            0 <= j < k,
    ;
    assert(0 <= i * k + j < k * k);
    let p = px(inst, y - k / 2 + i, x - k / 2 + j, c);
    let v = wt(inst, i, j);
    assert(0 <= p <= 255);
    assert(-wbound() <= v <= wbound());
    assert(-255 * wbound() <= p * v <= 255 * wbound()) by (nonlinear_arith)
        requires
            0 <= p <= 255,
            -wbound() <= v <= wbound(),
    ;
}

/// A partial row sum of `j` taps is bounded by `j * term_bound()`.
pub proof fn lemma_row_acc_bound(inst: ConvInst, y: int, x: int, c: int, i: int, j: int)
    requires
        inst_wf(inst),
        0 <= i < inst.k,
        0 <= j <= inst.k,
    ensures
        -(j * term_bound()) <= row_acc(inst, y, x, c, i, j) <= j * term_bound(),
    decreases j,
{
    if j > 0 {
        lemma_row_acc_bound(inst, y, x, c, i, j - 1);
        lemma_tap_bound(inst, y, x, c, i, j - 1);
        assert(j * term_bound() == (j - 1) * term_bound() + term_bound()) by (nonlinear_arith);
    }
}

/// A partial accumulator of `i` full rows is bounded by `i * k * term_bound()`.
pub proof fn lemma_acc_rows_bound(inst: ConvInst, y: int, x: int, c: int, i: int)
    requires
        inst_wf(inst),
        0 <= i <= inst.k,
    ensures
        -(i * inst.k * term_bound()) <= acc_rows(inst, y, x, c, i) <= i * inst.k * term_bound(),
    decreases i,
{
    let k = inst.k;
    if i > 0 {
        lemma_acc_rows_bound(inst, y, x, c, i - 1);
        lemma_row_acc_bound(inst, y, x, c, i - 1, k);
        let prev = acc_rows(inst, y, x, c, i - 1);
        let row = row_acc(inst, y, x, c, i - 1, k);
        assert(-(i * k * term_bound()) <= prev + row <= i * k * term_bound()) by (nonlinear_arith)
            requires
                -((i - 1) * k * term_bound()) <= prev <= (i - 1) * k * term_bound(),
                -(k * term_bound()) <= row <= k * term_bound(),
                i >= 1,
                k >= 1,
    ;
    }
}

/// Any partial accumulator (full rows plus part of the next row) stays within
/// the range that a 128-bit accumulator can hold.
pub proof fn lemma_partial_acc_fits(inst: ConvInst, y: int, x: int, c: int, i: int, j: int)
    requires
        inst_wf(inst),
        0 <= i < inst.k,
        0 <= j <= inst.k,
    ensures
        -(inst.k * inst.k * term_bound()) <= acc_rows(inst, y, x, c, i) + row_acc(
            inst,
            y,
            x,
            c,
            i,
            j,
        ) <= inst.k * inst.k * term_bound(),
        inst.k * inst.k * term_bound() < i128::MAX,
{
    let k = inst.k;
    lemma_acc_rows_bound(inst, y, x, c, i);
    lemma_row_acc_bound(inst, y, x, c, i, j);
    let a = acc_rows(inst, y, x, c, i);
    let r = row_acc(inst, y, x, c, i, j);
    assert(-(k * k * term_bound()) <= a + r <= k * k * term_bound()) by (nonlinear_arith)
        requires
            -(i * k * term_bound()) <= a <= i * k * term_bound(),
            -(j * term_bound()) <= r <= j * term_bound(),
            0 <= i < k,
            0 <= j <= k,
    ;
    lemma_kk_small(inst);
}

/// The full accumulator fits a 128-bit integer.
pub proof fn lemma_acc_fits(inst: ConvInst, y: int, x: int, c: int)
    requires
        inst_wf(inst),
    ensures
        -(inst.k * inst.k * term_bound()) <= acc(inst, y, x, c) <= inst.k * inst.k * term_bound(),
        inst.k * inst.k * term_bound() < i128::MAX,
{
    let k = inst.k;
    lemma_acc_rows_bound(inst, y, x, c, k);
    lemma_kk_small(inst);
}

/// `k * k * term_bound()` is far below `i128::MAX`, since `k * k` counts the
/// weights of a real vector and so fits a machine word.
proof fn lemma_kk_small(inst: ConvInst)
    requires
        inst_wf(inst),
    ensures
        inst.k * inst.k * term_bound() < i128::MAX,
        inst.k * inst.k <= usize::MAX,
{
    let k = inst.k;
    assert(k * k == inst.wts.len());
    lemma_mul_inequality(k * k, usize::MAX as int, term_bound());
}

/// A partial weight sum of `n` weights is bounded by `n * wbound()`.
pub proof fn lemma_wsum_bound(s: Seq<int>, n: int)
    requires
        forall|t: int| 0 <= t < s.len() ==> -0x8000_0000 <= #[trigger] s[t] < 0x8000_0000,
        0 <= n <= s.len(),
    ensures
        -(n * wbound()) <= wsum(s, n) <= n * wbound(),
    decreases n,
{
    if n > 0 {
        lemma_wsum_bound(s, n - 1);
    }
}

} // verus!
