//! The library's laws: properties that hold of every strategy, proved once
//! against the shared model.

use vstd::prelude::*;
use crate::model::{
    absi, acc, acc_rows, clamp255, conv_ok, idx3, inst_wf, interior, lemma_idx3_decompose,
    out_byte, out_of_acc, row_acc, tap, tdiv, wsum, ConvInst,
};
use vstd::arithmetic::div_mod::lemma_div_multiples_vanish_quotient;

verus! {

/// The accumulator of one cell after normalization but before saturation.
pub open spec fn raw_out(inst: ConvInst, y: int, x: int, c: int) -> int {
    match inst.div {
        Some(d) => tdiv(acc(inst, y, x, c), d),
        None => acc(inst, y, x, c),
    }
}

/// Equivalence: all strategies agree. Any two destination rasters that
/// satisfy the shared contract [`conv_ok`] for the same instance are equal
/// byte for byte, so every strategy returns the same image as the reference.
pub proof fn lemma_equivalence(inst: ConvInst, a: Seq<u8>, b: Seq<u8>)
    requires
        0 <= inst.h,
        0 <= inst.w,
        conv_ok(inst, a),
        conv_ok(inst, b),
    ensures
        a == b,
{
    if inst.w == 0 || inst.h == 0 {
        assert(inst.h * inst.w * 3 == 0) by (nonlinear_arith)
            requires
                inst.w == 0 || inst.h == 0,
        ;
    } else {
        assert forall|idx: int| 0 <= idx < a.len() implies a[idx] == b[idx] by {
            lemma_idx3_decompose(inst.h, inst.w, idx);
            let m = inst.w * 3;
            let y = idx / m;
            let x = (idx % m) / 3;
            let c = idx % 3;
            assert(a[idx3(inst.w, y, x, c)] == out_byte(inst, y, x, c));
            assert(b[idx3(inst.w, y, x, c)] == out_byte(inst, y, x, c));
        }
    }
    assert(a =~= b);
}

/// Border invariant: every cell within `k / 2` of any edge of the raster is
/// left at 0 by every strategy.
pub proof fn lemma_border_zero(inst: ConvInst, y: int, x: int, c: int)
    requires
        y < inst.k / 2 || y >= inst.h - inst.k / 2 || x < inst.k / 2 || x >= inst.w - inst.k / 2,
    ensures
        out_byte(inst, y, x, c) == 0,
{
    assert(!interior(inst, y, x));
}

/// Range safety: every output byte is in `[0, 255]`; an accumulator that
/// normalizes above 255 saturates to 255, and one that normalizes below 0
/// saturates to 0 — there is no wraparound.
pub proof fn lemma_range_safety(inst: ConvInst, y: int, x: int, c: int)
    ensures
        0 <= out_byte(inst, y, x, c) <= 255,
        interior(inst, y, x) ==> out_byte(inst, y, x, c) == clamp255(raw_out(inst, y, x, c)),
        interior(inst, y, x) && raw_out(inst, y, x, c) > 255 ==> out_byte(inst, y, x, c) == 255,
        interior(inst, y, x) && raw_out(inst, y, x, c) < 0 ==> out_byte(inst, y, x, c) == 0,
{
    if interior(inst, y, x) {
        assert(out_of_acc(inst.div, acc(inst, y, x, c)) == clamp255(raw_out(inst, y, x, c)));
    }
}

/// The magnitude of a product is the product of the magnitudes.
proof fn lemma_absi_mul(p: int, q: int)
    ensures
        absi(p * q) == absi(p) * absi(q),
{
    if p >= 0 && q >= 0 {
        assert(p * q >= 0) by (nonlinear_arith)
            requires
                p >= 0 && q >= 0,
        ;
    } else if p >= 0 && q < 0 {
        assert(p * q <= 0 && -(p * q) == p * (-q)) by (nonlinear_arith)
            requires
                p >= 0 && q < 0,
        ;
    } else if p < 0 && q >= 0 {
        assert(p * q <= 0 && -(p * q) == (-p) * q) by (nonlinear_arith)
            requires
                p < 0 && q >= 0,
        ;
    } else {
        assert(p * q >= 0 && p * q == (-p) * (-q)) by (nonlinear_arith)
            requires
                p < 0 && q < 0,
        ;
    }
}

/// Scaling numerator and denominator by the same nonzero factor leaves a
/// truncating quotient unchanged.
proof fn lemma_tdiv_scale(cf: int, a: int, d: int)
    requires
        cf != 0,
        d != 0,
    ensures
        tdiv(cf * a, cf * d) == tdiv(a, d),
{
    lemma_absi_mul(cf, a);
    lemma_absi_mul(cf, d);
    assert(cf * d != 0) by (nonlinear_arith)
        requires
            cf != 0 && d != 0,
    ;
    lemma_div_multiples_vanish_quotient(absi(cf), absi(a), absi(d));
    assert(absi(cf * a) / absi(cf * d) == absi(a) / absi(d));
    if a == 0 {
        assert(cf * a == 0) by (nonlinear_arith)
            requires
                a == 0,
        ;
        assert(absi(a) / absi(d) == 0) by {
            assert(absi(a) == 0);
        }
    } else {
        if cf > 0 {
            assert(((cf * a < 0) == (a < 0)) && ((cf * d < 0) == (d < 0))) by (nonlinear_arith)
                requires
                    cf > 0 && a != 0 && d != 0,
            ;
        } else {
            assert(((cf * a < 0) == (a > 0)) && ((cf * d < 0) == (d > 0))) by (nonlinear_arith)
                requires
                    cf < 0 && a != 0 && d != 0,
            ;
        }
    }
}

/// Scaling every weight scales a partial row sum by the same factor.
proof fn lemma_row_acc_scale(inst1: ConvInst, inst2: ConvInst, cf: int, y: int, x: int, c: int, i: int, j: int)
    requires
        inst2.k == inst1.k,
        inst2.cont == inst1.cont,
        inst2.w == inst1.w,
        inst1.wts.len() == inst1.k * inst1.k,
        inst2.wts.len() == inst1.wts.len(),
        forall|t: int| 0 <= t < inst1.wts.len() ==> inst2.wts[t] == cf * inst1.wts[t],
        0 <= i < inst1.k,
        0 <= j <= inst1.k,
    ensures
        row_acc(inst2, y, x, c, i, j) == cf * row_acc(inst1, y, x, c, i, j),
    decreases j,
{
    let k = inst1.k;
    if j <= 0 {
        assert(cf * 0 == 0) by (nonlinear_arith);
    } else {
        lemma_row_acc_scale(inst1, inst2, cf, y, x, c, i, j - 1);
        assert(0 <= i * k + (j - 1) < k * k) by (nonlinear_arith)
            requires
                0 <= i < k && 0 < j <= k,
        ;
        let p = crate::model::px(inst1, y - k / 2 + i, x - k / 2 + (j - 1), c);
        let w1 = crate::model::wt(inst1, i, j - 1);
        assert(crate::model::wt(inst2, i, j - 1) == cf * w1);
        assert(tap(inst2, y, x, c, i, j - 1) == p * (cf * w1));
        assert(p * (cf * w1) == cf * (p * w1)) by (nonlinear_arith);
        assert(cf * (row_acc(inst1, y, x, c, i, j - 1) + p * w1) == cf * row_acc(
            inst1,
            y,
            x,
            c,
            i,
            j - 1,
        ) + cf * (p * w1)) by (nonlinear_arith);
    }
}

/// Scaling every weight scales a partial accumulator by the same factor.
proof fn lemma_acc_rows_scale(inst1: ConvInst, inst2: ConvInst, cf: int, y: int, x: int, c: int, i: int)
    requires
        inst2.k == inst1.k,
        inst2.cont == inst1.cont,
        inst2.w == inst1.w,
        inst1.wts.len() == inst1.k * inst1.k,
        inst2.wts.len() == inst1.wts.len(),
        forall|t: int| 0 <= t < inst1.wts.len() ==> inst2.wts[t] == cf * inst1.wts[t],
        0 <= i <= inst1.k,
    ensures
        acc_rows(inst2, y, x, c, i) == cf * acc_rows(inst1, y, x, c, i),
    decreases i,
{
    if i <= 0 {
        assert(cf * 0 == 0) by (nonlinear_arith);
    } else {
        lemma_acc_rows_scale(inst1, inst2, cf, y, x, c, i - 1);
        lemma_row_acc_scale(inst1, inst2, cf, y, x, c, i - 1, inst1.k);
        assert(cf * (acc_rows(inst1, y, x, c, i - 1) + row_acc(inst1, y, x, c, i - 1, inst1.k))
            == cf * acc_rows(inst1, y, x, c, i - 1) + cf * row_acc(
            inst1,
            y,
            x,
            c,
            i - 1,
            inst1.k,
        )) by (nonlinear_arith);
    }
}

/// Scaling every weight scales the weight sum by the same factor.
proof fn lemma_wsum_scale(s1: Seq<int>, s2: Seq<int>, cf: int, n: int)
    requires
        s2.len() == s1.len(),
        forall|t: int| 0 <= t < s1.len() ==> s2[t] == cf * s1[t],
        n <= s1.len(),
    ensures
        wsum(s2, n) == cf * wsum(s1, n),
    decreases n,
{
    if n <= 0 {
        assert(cf * 0 == 0) by (nonlinear_arith);
    } else {
        lemma_wsum_scale(s1, s2, cf, n - 1);
        assert(cf * (wsum(s1, n - 1) + s1[n - 1]) == cf * wsum(s1, n - 1) + cf * s1[n - 1])
            by (nonlinear_arith);
    }
}

/// Normalization invariance: scaling every weight of an averaging kernel by
/// one nonzero factor leaves the output unchanged — accumulator and
/// normalizer scale together and the factor cancels in the division. Hence
/// every destination raster that satisfies the shared contract for the scaled
/// instance also satisfies it for the original one.
pub proof fn lemma_normalization(inst1: ConvInst, inst2: ConvInst, cf: int)
    requires
        inst_wf(inst1),
        inst_wf(inst2),
        inst1.div is Some,
        inst2.div is Some,
        cf != 0,
        inst2.k == inst1.k,
        inst2.h == inst1.h,
        inst2.w == inst1.w,
        inst2.cont == inst1.cont,
        inst2.wts.len() == inst1.wts.len(),
        forall|t: int| 0 <= t < inst1.wts.len() ==> inst2.wts[t] == cf * inst1.wts[t],
    ensures
        forall|y: int, x: int, c: int| #[trigger] out_byte(inst2, y, x, c) == out_byte(
            inst1,
            y,
            x,
            c,
        ),
        forall|out: Seq<u8>| #[trigger] conv_ok(inst2, out) <==> conv_ok(inst1, out),
{
    let n = inst1.wts.len() as int;
    let d1 = inst1.div->Some_0;
    let d2 = inst2.div->Some_0;
    lemma_wsum_scale(inst1.wts, inst2.wts, cf, n);
    assert(d2 == cf * d1);
    assert forall|y: int, x: int, c: int| #[trigger] out_byte(inst2, y, x, c) == out_byte(
        inst1,
        y,
        x,
        c,
    ) by {
        if interior(inst1, y, x) {
            lemma_acc_rows_scale(inst1, inst2, cf, y, x, c, inst1.k);
            lemma_tdiv_scale(cf, acc(inst1, y, x, c), d1);
        }
    }
    assert forall|out: Seq<u8>| #[trigger] conv_ok(inst2, out) <==> conv_ok(inst1, out) by {
        if conv_ok(inst2, out) {
            assert forall|y: int, x: int, c: int|
                0 <= y < inst1.h && 0 <= x < inst1.w && 0 <= c < 3 implies out[idx3(
                inst1.w,
                y,
                x,
                c,
            )] == #[trigger] out_byte(inst1, y, x, c) by {
                assert(out[idx3(inst2.w, y, x, c)] == out_byte(inst2, y, x, c));
            }
        }
        if conv_ok(inst1, out) {
            assert forall|y: int, x: int, c: int|
                0 <= y < inst2.h && 0 <= x < inst2.w && 0 <= c < 3 implies out[idx3(
                inst2.w,
                y,
                x,
                c,
            )] == #[trigger] out_byte(inst2, y, x, c) by {
                assert(out[idx3(inst1.w, y, x, c)] == out_byte(inst1, y, x, c));
            }
        }
    }
}

} // verus!
