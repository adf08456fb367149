//! The convolution processor: five interchangeable strategies that all
//! compute the byte-identical result pinned by [`crate::model::conv_ok`].
//!
//! The strategies differ only in their memory-access plan:
//! - [`ConvProcessor::naive1`]: channel-outer scalar reference;
//! - [`ConvProcessor::naive2`]: channel-inner scalar, one window pass per pixel;
//! - [`ConvProcessor::simd1`]: 4 output columns per iteration, gathering each
//!   tap's 4 samples per channel anew;
//! - [`ConvProcessor::simd2`]: 4 output columns per iteration with a row cache
//!   loaded once per source row and re-read at a sliding offset per tap;
//! - [`ConvProcessor::simd3`]: 16 output columns per iteration over
//!   deinterleaved per-channel row caches.

use vstd::prelude::*;
use crate::image::RgbImage;
use crate::kernel::{ConvKernel, KernelError};
use crate::model::{
    acc, acc_rows, conv_ok, idx3, inst_wf, interior, lemma_acc_fits, lemma_idx3_bounds,
    lemma_idx3_inj, lemma_partial_acc_fits, lemma_wsum_bound, out_byte, out_of_acc, row_acc, tap,
    tdiv, term_bound, wbound, ConvInst,
};
use vstd::arithmetic::div_mod::lemma_div_nonincreasing;
use vstd::arithmetic::mul::lemma_mul_inequality;

verus! {

/// Owns one validated kernel and applies it to images; stateless across
/// calls, so every strategy is a pure function of `(kernel, source)`.
#[derive(Debug)]
pub struct ConvProcessor {
    /// The kernel every strategy applies.
    pub kernel: ConvKernel,
}

impl ConvProcessor {
    /// The processor is usable exactly when its kernel is validated.
    pub open spec fn wf(&self) -> bool {
        self.kernel.wf()
    }

    /// The mathematical instance one application computes.
    pub open spec fn inst(&self, src: &RgbImage) -> ConvInst {
        ConvInst {
            wts: self.kernel.wts_int(),
            k: self.kernel.side as int,
            div: self.kernel.div_int(),
            cont: src.bytes(),
            h: src.height as int,
            w: src.width as int,
        }
    }

    /// Validates the kernel and wraps it; the error cases are exactly those
    /// of [`ConvKernel::new`].
    pub fn new(filter: Vec<i32>, side: usize, avg: bool) -> (r: Result<
        ConvProcessor,
        KernelError,
    >)
        ensures
            ({
                let n = filter@.len() as int;
                let k = side as int;
                let s = crate::model::wsum(crate::kernel::weights_ints(filter@), n);
                &&& (n != k * k ==> r == Err::<ConvProcessor, KernelError>(
                    KernelError::InvalidKernelShape,
                ))
                &&& (n == k * k && (k % 2 == 0 || k < 3) ==> r == Err::<ConvProcessor, KernelError>(
                    KernelError::InvalidKernelSize,
                ))
                &&& (n == k * k && k % 2 == 1 && k >= 3 && avg && s == 0 ==> r == Err::<
                    ConvProcessor,
                    KernelError,
                >(KernelError::ZeroNormalizer))
                &&& (n == k * k && k % 2 == 1 && k >= 3 && (!avg || s != 0) ==> (r matches Ok(p)
                    && p.wf() && p.kernel.side == side && p.kernel.weights@ == filter@ && (
                    p.kernel.div is Some <==> avg)))
            }),
    {
        match ConvKernel::new(filter, side, avg) {
            Ok(kern) => Ok(ConvProcessor { kernel: kern }),
            Err(e) => Err(e),
        }
    }

    /// The instance of a well-formed processor over a well-formed image is
    /// well formed.
    pub proof fn lemma_inst_wf(&self, src: &RgbImage)
        requires
            self.wf(),
            src.wf(),
        ensures
            inst_wf(self.inst(src)),
    {
        let inst = self.inst(src);
        assert forall|t: int| 0 <= t < inst.wts.len() implies -0x8000_0000 <= #[trigger] inst.wts[t]
            < 0x8000_0000 by {
            assert(inst.wts[t] == self.kernel.weights@[t] as int);
        }
    }

    /// One output sample, channel-outer: sweeps the kernel for a single
    /// `(y, x, c)` cell, as the reference strategy does.
    #[verifier::loop_isolation(false)]
    fn conv_at(&self, src: &RgbImage, y: usize, x: usize, c: usize) -> (v: u8)
        requires
            self.wf(),
            src.wf(),
            interior(self.inst(src), y as int, x as int),
            c < 3,
        ensures
            v == out_byte(self.inst(src), y as int, x as int, c as int),
    {
        proof {
            self.lemma_inst_wf(src);
        }
        let ghost inst = self.inst(src);
        let k: usize = self.kernel.side;
        let half: usize = k / 2;
        let mut t: i128 = 0;
        let mut i: usize = 0;
        while i < k
            invariant
                0 <= i <= k,
                t as int == acc_rows(inst, y as int, x as int, c as int, i as int),
            decreases k - i,
        {
            let mut j: usize = 0;
            while j < k
                invariant
                    0 <= j <= k,
                    0 <= i < k,
                    t as int == acc_rows(inst, y as int, x as int, c as int, i as int) + row_acc(
                        inst,
                        y as int,
                        x as int,
                        c as int,
                        i as int,
                        j as int,
                    ),
                decreases k - j,
            {
                let p: u8 = src.pixel(y - half + i, x - half + j, c);
                let wv: i32 = self.kernel.at(i, j);
                proof {
                    crate::model::lemma_tap_bound(
                        inst,
                        y as int,
                        x as int,
                        c as int,
                        i as int,
                        j as int,
                    );
                    assert(p as int * wv as int == tap(
                        inst,
                        y as int,
                        x as int,
                        c as int,
                        i as int,
                        j as int,
                    ));
                    lemma_partial_acc_fits(inst, y as int, x as int, c as int, i as int, j as int);
                    lemma_partial_acc_fits(
                        inst,
                        y as int,
                        x as int,
                        c as int,
                        i as int,
                        j as int + 1,
                    );
                }
                t = t + (p as i128) * (wv as i128);
                j += 1;
            }
            i += 1;
        }
        proof {
            lemma_acc_fits(inst, y as int, x as int, c as int);
        }
        self.finalize(t)
    }

    /// One output pixel, channel-inner: a single pass over the source window
    /// feeds all three channel accumulators, which are then normalized,
    /// saturated and written. Also the peeling path of the lane strategies.
    #[verifier::loop_isolation(false)]
    fn conv_px_into(&self, src: &RgbImage, dst: &mut Vec<u8>, y: usize, x: usize)
        requires
            self.wf(),
            src.wf(),
            interior(self.inst(src), y as int, x as int),
            old(dst)@.len() == src.height * src.width * 3,
        ensures
            final(dst)@.len() == old(dst)@.len(),
            forall|yy: int, xx: int, cc: int| #![trigger idx3(src.width as int, yy, xx, cc)]
                0 <= yy < src.height && 0 <= xx < src.width && 0 <= cc < 3 ==> final(dst)@[idx3(
                    src.width as int,
                    yy,
                    xx,
                    cc,
                )] == (if yy == y && xx == x {
                    out_byte(self.inst(src), yy, xx, cc)
                } else {
                    old(dst)@[idx3(src.width as int, yy, xx, cc)]
                }),
    {
        proof {
            self.lemma_inst_wf(src);
        }
        let ghost inst = self.inst(src);
        let h: usize = src.height;
        let w: usize = src.width;
        let k: usize = self.kernel.side;
        let half: usize = k / 2;
        let mut rgb: Vec<i128> = init_acc(3);
        let mut i: usize = 0;
        while i < k
            invariant
                0 <= i <= k,
                rgb@.len() == 3,
                forall|ch: int|
                    0 <= ch < 3 ==> #[trigger] rgb@[ch] as int == acc_rows(
                        inst,
                        y as int,
                        x as int,
                        ch,
                        i as int,
                    ),
            decreases k - i,
        {
            let mut j: usize = 0;
            while j < k
                invariant
                    0 <= i < k,
                    0 <= j <= k,
                    rgb@.len() == 3,
                    forall|ch: int|
                        0 <= ch < 3 ==> #[trigger] rgb@[ch] as int == acc_rows(
                            inst,
                            y as int,
                            x as int,
                            ch,
                            i as int,
                        ) + row_acc(inst, y as int, x as int, ch, i as int, j as int),
                decreases k - j,
            {
                let wv: i32 = self.kernel.at(i, j);
                let mut ch: usize = 0;
                while ch < 3
                    invariant
                        0 <= i < k,
                        0 <= j < k,
                        0 <= ch <= 3,
                        rgb@.len() == 3,
                        forall|cx: int|
                            0 <= cx < 3 ==> #[trigger] rgb@[cx] as int == acc_rows(
                                inst,
                                y as int,
                                x as int,
                                cx,
                                i as int,
                            ) + row_acc(inst, y as int, x as int, cx, i as int, j as int) + (if cx
                                < ch {
                                tap(inst, y as int, x as int, cx, i as int, j as int)
                            } else {
                                0
                            }),
                    decreases 3 - ch,
                {
                    let p: u8 = src.pixel(y - half + i, x - half + j, ch);
                    proof {
                        crate::model::lemma_tap_bound(
                            inst,
                            y as int,
                            x as int,
                            ch as int,
                            i as int,
                            j as int,
                        );
                        assert(p as int * wv as int == tap(
                            inst,
                            y as int,
                            x as int,
                            ch as int,
                            i as int,
                            j as int,
                        ));
                        lemma_partial_acc_fits(
                            inst,
                            y as int,
                            x as int,
                            ch as int,
                            i as int,
                            j as int,
                        );
                        lemma_partial_acc_fits(
                            inst,
                            y as int,
                            x as int,
                            ch as int,
                            i as int,
                            j as int + 1,
                        );
                    }
                    let t: i128 = rgb[ch];
                    rgb[ch] = t + (p as i128) * (wv as i128);
                    ch += 1;
                }
                j += 1;
            }
            i += 1;
        }
        let mut ch: usize = 0;
        while ch < 3
            invariant
                0 <= ch <= 3,
                rgb@.len() == 3,
                forall|cx: int|
                    0 <= cx < 3 ==> #[trigger] rgb@[cx] as int == acc(inst, y as int, x as int, cx),
                dst@.len() == old(dst)@.len(),
                forall|yy: int, xx: int, cc: int| #![trigger idx3(w as int, yy, xx, cc)]
                    0 <= yy < h && 0 <= xx < w && 0 <= cc < 3 ==> dst@[idx3(w as int, yy, xx, cc)]
                        == (if yy == y && xx == x && cc < ch {
                        out_byte(inst, yy, xx, cc)
                    } else {
                        old(dst)@[idx3(w as int, yy, xx, cc)]
                    }),
            decreases 3 - ch,
        {
            proof {
                lemma_acc_fits(inst, y as int, x as int, ch as int);
            }
            let v: u8 = self.finalize(rgb[ch]);
            store_px(dst, h, w, y, x, ch, v);
            ch += 1;
        }
    }

    /// Four output columns at once, as a bank of 12 accumulators (3 channels
    /// of 4 lanes, lane `z` of channel `c` at index `c * 4 + z`): each tap
    /// broadcasts its weight and gathers 4 samples per channel anew.
    #[verifier::loop_isolation(false)]
    fn conv_quad_into(&self, src: &RgbImage, dst: &mut Vec<u8>, y: usize, x: usize)
        requires
            self.wf(),
            src.wf(),
            self.inst(src).k / 2 <= y as int,
            (y as int) < src.height - self.inst(src).k / 2,
            self.inst(src).k / 2 <= x as int,
            x as int + 4 <= src.width - self.inst(src).k / 2,
            old(dst)@.len() == src.height * src.width * 3,
        ensures
            final(dst)@.len() == old(dst)@.len(),
            forall|yy: int, xx: int, cc: int| #![trigger idx3(src.width as int, yy, xx, cc)]
                0 <= yy < src.height && 0 <= xx < src.width && 0 <= cc < 3 ==> final(dst)@[idx3(
                    src.width as int,
                    yy,
                    xx,
                    cc,
                )] == (if yy == y && x <= xx < x + 4 {
                    out_byte(self.inst(src), yy, xx, cc)
                } else {
                    old(dst)@[idx3(src.width as int, yy, xx, cc)]
                }),
    {
        proof {
            self.lemma_inst_wf(src);
        }
        let ghost inst = self.inst(src);
        let h: usize = src.height;
        let w: usize = src.width;
        let k: usize = self.kernel.side;
        let half: usize = k / 2;
        let mut acc4: Vec<i128> = init_acc(12);
        let mut i: usize = 0;
        while i < k
            invariant
                0 <= i <= k,
                acc4@.len() == 12,
                forall|t: int|
                    0 <= t < 12 ==> #[trigger] acc4@[t] as int == acc_rows(
                        inst,
                        y as int,
                        x as int + t % 4,
                        t / 4,
                        i as int,
                    ),
            decreases k - i,
        {
            let mut j: usize = 0;
            while j < k
                invariant
                    0 <= i < k,
                    0 <= j <= k,
                    acc4@.len() == 12,
                    forall|t: int|
                        0 <= t < 12 ==> #[trigger] acc4@[t] as int == acc_rows(
                            inst,
                            y as int,
                            x as int + t % 4,
                            t / 4,
                            i as int,
                        ) + row_acc(inst, y as int, x as int + t % 4, t / 4, i as int, j as int),
                decreases k - j,
            {
                let wv: i32 = self.kernel.at(i, j);
                let mut c: usize = 0;
                while c < 3
                    invariant
                        0 <= i < k,
                        0 <= j < k,
                        0 <= c <= 3,
                        acc4@.len() == 12,
                        forall|t: int|
                            0 <= t < 12 ==> #[trigger] acc4@[t] as int == acc_rows(
                                inst,
                                y as int,
                                x as int + t % 4,
                                t / 4,
                                i as int,
                            ) + row_acc(inst, y as int, x as int + t % 4, t / 4, i as int, j as int)
                                + (if t / 4 < c {
                                tap(inst, y as int, x as int + t % 4, t / 4, i as int, j as int)
                            } else {
                                0
                            }),
                    decreases 3 - c,
                {
                    let mut z: usize = 0;
                    while z < 4
                        invariant
                            0 <= i < k,
                            0 <= j < k,
                            0 <= c < 3,
                            0 <= z <= 4,
                            acc4@.len() == 12,
                            forall|t: int|
                                0 <= t < 12 ==> #[trigger] acc4@[t] as int == acc_rows(
                                    inst,
                                    y as int,
                                    x as int + t % 4,
                                    t / 4,
                                    i as int,
                                ) + row_acc(
                                    inst,
                                    y as int,
                                    x as int + t % 4,
                                    t / 4,
                                    i as int,
                                    j as int,
                                ) + (if t / 4 < c || (t / 4 == c && t % 4 < z) {
                                    tap(inst, y as int, x as int + t % 4, t / 4, i as int, j as int)
                                } else {
                                    0
                                }),
                        decreases 4 - z,
                    {
                        let p: u8 = src.pixel(y - half + i, x - half + j + z, c);
                        proof {
                            crate::model::lemma_tap_bound(
                                inst,
                                y as int,
                                x as int + z,
                                c as int,
                                i as int,
                                j as int,
                            );
                            assert(p as int * wv as int == tap(
                                inst,
                                y as int,
                                x as int + z,
                                c as int,
                                i as int,
                                j as int,
                            ));
                            lemma_partial_acc_fits(
                                inst,
                                y as int,
                                x as int + z,
                                c as int,
                                i as int,
                                j as int,
                            );
                            lemma_partial_acc_fits(
                                inst,
                                y as int,
                                x as int + z,
                                c as int,
                                i as int,
                                j as int + 1,
                            );
                        }
                        let u: usize = c * 4 + z;
                        let t0: i128 = acc4[u];
                        acc4[u] = t0 + (p as i128) * (wv as i128);
                        z += 1;
                    }
                    c += 1;
                }
                j += 1;
            }
            i += 1;
        }
        let mut c: usize = 0;
        while c < 3
            invariant
                0 <= c <= 3,
                acc4@.len() == 12,
                forall|t: int|
                    0 <= t < 12 ==> #[trigger] acc4@[t] as int == acc(
                        inst,
                        y as int,
                        x as int + t % 4,
                        t / 4,
                    ),
                dst@.len() == old(dst)@.len(),
                forall|yy: int, xx: int, cc: int| #![trigger idx3(w as int, yy, xx, cc)]
                    0 <= yy < h && 0 <= xx < w && 0 <= cc < 3 ==> dst@[idx3(w as int, yy, xx, cc)]
                        == (if yy == y && x <= xx < x + 4 && cc < c {
                        out_byte(inst, yy, xx, cc)
                    } else {
                        old(dst)@[idx3(w as int, yy, xx, cc)]
                    }),
            decreases 3 - c,
        {
            let mut z: usize = 0;
            while z < 4
                invariant
                    0 <= c < 3,
                    0 <= z <= 4,
                    acc4@.len() == 12,
                    forall|t: int|
                        0 <= t < 12 ==> #[trigger] acc4@[t] as int == acc(
                            inst,
                            y as int,
                            x as int + t % 4,
                            t / 4,
                        ),
                    dst@.len() == old(dst)@.len(),
                    forall|yy: int, xx: int, cc: int| #![trigger idx3(w as int, yy, xx, cc)]
                        0 <= yy < h && 0 <= xx < w && 0 <= cc < 3 ==> dst@[idx3(
                            w as int,
                            yy,
                            xx,
                            cc,
                        )] == (if yy == y && x <= xx < x + 4 && (cc < c || (cc == c && xx < x
                            + z)) {
                            out_byte(inst, yy, xx, cc)
                        } else {
                            old(dst)@[idx3(w as int, yy, xx, cc)]
                        }),
                decreases 4 - z,
            {
                proof {
                    lemma_acc_fits(inst, y as int, x as int + z, c as int);
                }
                let v: u8 = self.finalize(acc4[c * 4 + z]);
                store_px(dst, h, w, y, x + z, c, v);
                z += 1;
            }
            c += 1;
        }
    }

    /// Four output columns at once with row-cache reuse: for each source row
    /// touched by the current output row, the contiguous run of `2*half + 4`
    /// samples per channel is loaded into a cache once (interleaved triples,
    /// channel `c` of offset `m` at index `m * 3 + c`); each tap `(i, j)` then
    /// reads its 4-lane window from the cache at sliding offset `j` instead of
    /// re-reading memory.
    #[verifier::loop_isolation(false)]
    fn conv_quad_cached_into(&self, src: &RgbImage, dst: &mut Vec<u8>, y: usize, x: usize)
        requires
            self.wf(),
            src.wf(),
            self.inst(src).k / 2 <= y as int,
            (y as int) < src.height - self.inst(src).k / 2,
            self.inst(src).k / 2 <= x as int,
            x as int + 4 <= src.width - self.inst(src).k / 2,
            old(dst)@.len() == src.height * src.width * 3,
        ensures
            final(dst)@.len() == old(dst)@.len(),
            forall|yy: int, xx: int, cc: int| #![trigger idx3(src.width as int, yy, xx, cc)]
                0 <= yy < src.height && 0 <= xx < src.width && 0 <= cc < 3 ==> final(dst)@[idx3(
                    src.width as int,
                    yy,
                    xx,
                    cc,
                )] == (if yy == y && x <= xx < x + 4 {
                    out_byte(self.inst(src), yy, xx, cc)
                } else {
                    old(dst)@[idx3(src.width as int, yy, xx, cc)]
                }),
    {
        proof {
            self.lemma_inst_wf(src);
        }
        let ghost inst = self.inst(src);
        let h: usize = src.height;
        let w: usize = src.width;
        let k: usize = self.kernel.side;
        let half: usize = k / 2;
        proof {
            assert(k as int <= h as int && k as int <= w as int);
            assert(3 * (k as int + 3) <= 3 * (k as int * k as int)) by (nonlinear_arith)
                requires
                    3 <= k as int,
            ;
            assert(k as int * k as int <= h as int * w as int) by (nonlinear_arith)
                requires
                    k as int <= h as int,
                    k as int <= w as int,
                    0 <= k as int,
            ;
            assert(h as int * w as int * 3 == 3 * (h as int * w as int)) by (nonlinear_arith);
        }
        let cl: usize = k + 3;
        let mut acc4: Vec<i128> = init_acc(12);
        let mut i: usize = 0;
        while i < k
            invariant
                0 <= i <= k,
                acc4@.len() == 12,
                forall|t: int|
                    0 <= t < 12 ==> #[trigger] acc4@[t] as int == acc_rows(
                        inst,
                        y as int,
                        x as int + t % 4,
                        t / 4,
                        i as int,
                    ),
            decreases k - i,
        {
            let row: usize = y - half + i;
            let mut cache: Vec<i128> = init_acc(cl * 3);
            let mut m: usize = 0;
            while m < cl
                invariant
                    0 <= m <= cl,
                    cache@.len() == cl * 3,
                    forall|t: int|
                        0 <= t < m * 3 ==> #[trigger] cache@[t] as int == crate::model::px(
                            inst,
                            row as int,
                            x as int - inst.k / 2 + t / 3,
                            t % 3,
                        ),
                decreases cl - m,
            {
                let mut ch: usize = 0;
                while ch < 3
                    invariant
                        0 <= m < cl,
                        0 <= ch <= 3,
                        cache@.len() == cl * 3,
                        forall|t: int|
                            0 <= t < m * 3 + ch ==> #[trigger] cache@[t] as int == crate::model::px(
                                inst,
                                row as int,
                                x as int - inst.k / 2 + t / 3,
                                t % 3,
                            ),
                    decreases 3 - ch,
                {
                    let p: u8 = src.pixel(row, x - half + m, ch);
                    cache[m * 3 + ch] = p as i128;
                    ch += 1;
                }
                m += 1;
            }
            let mut j: usize = 0;
            while j < k
                invariant
                    0 <= i < k,
                    0 <= j <= k,
                    acc4@.len() == 12,
                    cache@.len() == cl * 3,
                    forall|t: int|
                        0 <= t < cl * 3 ==> #[trigger] cache@[t] as int == crate::model::px(
                            inst,
                            row as int,
                            x as int - inst.k / 2 + t / 3,
                            t % 3,
                        ),
                    forall|t: int|
                        0 <= t < 12 ==> #[trigger] acc4@[t] as int == acc_rows(
                            inst,
                            y as int,
                            x as int + t % 4,
                            t / 4,
                            i as int,
                        ) + row_acc(inst, y as int, x as int + t % 4, t / 4, i as int, j as int),
                decreases k - j,
            {
                let wv: i32 = self.kernel.at(i, j);
                let mut c: usize = 0;
                while c < 3
                    invariant
                        0 <= i < k,
                        0 <= j < k,
                        0 <= c <= 3,
                        acc4@.len() == 12,
                        cache@.len() == cl * 3,
                        forall|t: int|
                            0 <= t < cl * 3 ==> #[trigger] cache@[t] as int == crate::model::px(
                                inst,
                                row as int,
                                x as int - inst.k / 2 + t / 3,
                                t % 3,
                            ),
                        forall|t: int|
                            0 <= t < 12 ==> #[trigger] acc4@[t] as int == acc_rows(
                                inst,
                                y as int,
                                x as int + t % 4,
                                t / 4,
                                i as int,
                            ) + row_acc(inst, y as int, x as int + t % 4, t / 4, i as int, j as int)
                                + (if t / 4 < c {
                                tap(inst, y as int, x as int + t % 4, t / 4, i as int, j as int)
                            } else {
                                0
                            }),
                    decreases 3 - c,
                {
                    let mut z: usize = 0;
                    while z < 4
                        invariant
                            0 <= i < k,
                            0 <= j < k,
                            0 <= c < 3,
                            0 <= z <= 4,
                            acc4@.len() == 12,
                            cache@.len() == cl * 3,
                            forall|t: int|
                                0 <= t < cl * 3 ==> #[trigger] cache@[t] as int == crate::model::px(
                                    inst,
                                    row as int,
                                    x as int - inst.k / 2 + t / 3,
                                    t % 3,
                                ),
                            forall|t: int|
                                0 <= t < 12 ==> #[trigger] acc4@[t] as int == acc_rows(
                                    inst,
                                    y as int,
                                    x as int + t % 4,
                                    t / 4,
                                    i as int,
                                ) + row_acc(
                                    inst,
                                    y as int,
                                    x as int + t % 4,
                                    t / 4,
                                    i as int,
                                    j as int,
                                ) + (if t / 4 < c || (t / 4 == c && t % 4 < z) {
                                    tap(inst, y as int, x as int + t % 4, t / 4, i as int, j as int)
                                } else {
                                    0
                                }),
                        decreases 4 - z,
                    {
                        let p: i128 = cache[(j + z) * 3 + c];
                        proof {
                            crate::model::lemma_tap_bound(
                                inst,
                                y as int,
                                x as int + z,
                                c as int,
                                i as int,
                                j as int,
                            );
                            assert(p as int == crate::model::px(
                                inst,
                                row as int,
                                x as int - inst.k / 2 + (j + z),
                                c as int,
                            ));
                            assert(p as int * wv as int == tap(
                                inst,
                                y as int,
                                x as int + z,
                                c as int,
                                i as int,
                                j as int,
                            ));
                            lemma_partial_acc_fits(
                                inst,
                                y as int,
                                x as int + z,
                                c as int,
                                i as int,
                                j as int,
                            );
                            lemma_partial_acc_fits(
                                inst,
                                y as int,
                                x as int + z,
                                c as int,
                                i as int,
                                j as int + 1,
                            );
                        }
                        let u: usize = c * 4 + z;
                        let t0: i128 = acc4[u];
                        acc4[u] = t0 + p * (wv as i128);
                        z += 1;
                    }
                    c += 1;
                }
                j += 1;
            }
            i += 1;
        }
        let mut c: usize = 0;
        while c < 3
            invariant
                0 <= c <= 3,
                acc4@.len() == 12,
                forall|t: int|
                    0 <= t < 12 ==> #[trigger] acc4@[t] as int == acc(
                        inst,
                        y as int,
                        x as int + t % 4,
                        t / 4,
                    ),
                dst@.len() == old(dst)@.len(),
                forall|yy: int, xx: int, cc: int| #![trigger idx3(w as int, yy, xx, cc)]
                    0 <= yy < h && 0 <= xx < w && 0 <= cc < 3 ==> dst@[idx3(w as int, yy, xx, cc)]
                        == (if yy == y && x <= xx < x + 4 && cc < c {
                        out_byte(inst, yy, xx, cc)
                    } else {
                        old(dst)@[idx3(w as int, yy, xx, cc)]
                    }),
            decreases 3 - c,
        {
            let mut z: usize = 0;
            while z < 4
                invariant
                    0 <= c < 3,
                    0 <= z <= 4,
                    acc4@.len() == 12,
                    forall|t: int|
                        0 <= t < 12 ==> #[trigger] acc4@[t] as int == acc(
                            inst,
                            y as int,
                            x as int + t % 4,
                            t / 4,
                        ),
                    dst@.len() == old(dst)@.len(),
                    forall|yy: int, xx: int, cc: int| #![trigger idx3(w as int, yy, xx, cc)]
                        0 <= yy < h && 0 <= xx < w && 0 <= cc < 3 ==> dst@[idx3(
                            w as int,
                            yy,
                            xx,
                            cc,
                        )] == (if yy == y && x <= xx < x + 4 && (cc < c || (cc == c && xx < x
                            + z)) {
                            out_byte(inst, yy, xx, cc)
                        } else {
                            old(dst)@[idx3(w as int, yy, xx, cc)]
                        }),
                decreases 4 - z,
            {
                proof {
                    lemma_acc_fits(inst, y as int, x as int + z, c as int);
                }
                let v: u8 = self.finalize(acc4[c * 4 + z]);
                store_px(dst, h, w, y, x + z, c, v);
                z += 1;
            }
            c += 1;
        }
    }

    /// Sixteen output columns at once over deinterleaved row caches: for each
    /// source row touched, one pass splits the interleaved byte run of
    /// `2*half + 16` pixels into three per-channel runs; each tap then reads
    /// its windows from the per-channel runs at sliding offset `j`, feeding 48
    /// accumulators (16 lanes per channel).
    #[verifier::loop_isolation(false)]
    fn conv_wide_into(&self, src: &RgbImage, dst: &mut Vec<u8>, y: usize, x: usize)
        requires
            self.wf(),
            src.wf(),
            self.inst(src).k / 2 <= y as int,
            (y as int) < src.height - self.inst(src).k / 2,
            self.inst(src).k / 2 <= x as int,
            x as int + 16 <= src.width - self.inst(src).k / 2,
            old(dst)@.len() == src.height * src.width * 3,
        ensures
            final(dst)@.len() == old(dst)@.len(),
            forall|yy: int, xx: int, cc: int| #![trigger idx3(src.width as int, yy, xx, cc)]
                0 <= yy < src.height && 0 <= xx < src.width && 0 <= cc < 3 ==> final(dst)@[idx3(
                    src.width as int,
                    yy,
                    xx,
                    cc,
                )] == (if yy == y && x <= xx < x + 16 {
                    out_byte(self.inst(src), yy, xx, cc)
                } else {
                    old(dst)@[idx3(src.width as int, yy, xx, cc)]
                }),
    {
        proof {
            self.lemma_inst_wf(src);
        }
        let ghost inst = self.inst(src);
        let h: usize = src.height;
        let w: usize = src.width;
        let k: usize = self.kernel.side;
        let half: usize = k / 2;
        let cl: usize = k + 15;
        let mut acc_r: Vec<i128> = init_acc(16);
        let mut acc_g: Vec<i128> = init_acc(16);
        let mut acc_b: Vec<i128> = init_acc(16);
        let mut i: usize = 0;
        while i < k
            invariant
                0 <= i <= k,
                acc_r@.len() == 16,
                acc_g@.len() == 16,
                acc_b@.len() == 16,
                forall|t: int|
                    0 <= t < 16 ==> #[trigger] acc_r@[t] as int == acc_rows(
                        inst,
                        y as int,
                        x as int + t,
                        0,
                        i as int,
                    ),
                forall|t: int|
                    0 <= t < 16 ==> #[trigger] acc_g@[t] as int == acc_rows(
                        inst,
                        y as int,
                        x as int + t,
                        1,
                        i as int,
                    ),
                forall|t: int|
                    0 <= t < 16 ==> #[trigger] acc_b@[t] as int == acc_rows(
                        inst,
                        y as int,
                        x as int + t,
                        2,
                        i as int,
                    ),
            decreases k - i,
        {
            let row: usize = y - half + i;
            let mut cache_r: Vec<i128> = init_acc(cl);
            let mut cache_g: Vec<i128> = init_acc(cl);
            let mut cache_b: Vec<i128> = init_acc(cl);
            let mut m: usize = 0;
            while m < cl
                invariant
                    0 <= m <= cl,
                    cache_r@.len() == cl,
                    cache_g@.len() == cl,
                    cache_b@.len() == cl,
                    forall|t: int|
                        0 <= t < m ==> #[trigger] cache_r@[t] as int == crate::model::px(
                            inst,
                            row as int,
                            x as int - inst.k / 2 + t,
                            0,
                        ),
                    forall|t: int|
                        0 <= t < m ==> #[trigger] cache_g@[t] as int == crate::model::px(
                            inst,
                            row as int,
                            x as int - inst.k / 2 + t,
                            1,
                        ),
                    forall|t: int|
                        0 <= t < m ==> #[trigger] cache_b@[t] as int == crate::model::px(
                            inst,
                            row as int,
                            x as int - inst.k / 2 + t,
                            2,
                        ),
                decreases cl - m,
            {
                let p0: u8 = src.pixel(row, x - half + m, 0);
                let p1: u8 = src.pixel(row, x - half + m, 1);
                let p2: u8 = src.pixel(row, x - half + m, 2);
                cache_r[m] = p0 as i128;
                cache_g[m] = p1 as i128;
                cache_b[m] = p2 as i128;
                m += 1;
            }
            let mut j: usize = 0;
            while j < k
                invariant
                    0 <= i < k,
                    0 <= j <= k,
                    acc_r@.len() == 16,
                    acc_g@.len() == 16,
                    acc_b@.len() == 16,
                    cache_r@.len() == cl,
                    cache_g@.len() == cl,
                    cache_b@.len() == cl,
                    forall|t: int|
                        0 <= t < cl ==> #[trigger] cache_r@[t] as int == crate::model::px(
                            inst,
                            row as int,
                            x as int - inst.k / 2 + t,
                            0,
                        ),
                    forall|t: int|
                        0 <= t < cl ==> #[trigger] cache_g@[t] as int == crate::model::px(
                            inst,
                            row as int,
                            x as int - inst.k / 2 + t,
                            1,
                        ),
                    forall|t: int|
                        0 <= t < cl ==> #[trigger] cache_b@[t] as int == crate::model::px(
                            inst,
                            row as int,
                            x as int - inst.k / 2 + t,
                            2,
                        ),
                    forall|t: int|
                        0 <= t < 16 ==> #[trigger] acc_r@[t] as int == acc_rows(
                            inst,
                            y as int,
                            x as int + t,
                            0,
                            i as int,
                        ) + row_acc(inst, y as int, x as int + t, 0, i as int, j as int),
                    forall|t: int|
                        0 <= t < 16 ==> #[trigger] acc_g@[t] as int == acc_rows(
                            inst,
                            y as int,
                            x as int + t,
                            1,
                            i as int,
                        ) + row_acc(inst, y as int, x as int + t, 1, i as int, j as int),
                    forall|t: int|
                        0 <= t < 16 ==> #[trigger] acc_b@[t] as int == acc_rows(
                            inst,
                            y as int,
                            x as int + t,
                            2,
                            i as int,
                        ) + row_acc(inst, y as int, x as int + t, 2, i as int, j as int),
                decreases k - j,
            {
                let wv: i32 = self.kernel.at(i, j);
                let mut z: usize = 0;
                while z < 16
                    invariant
                        0 <= i < k,
                        0 <= j < k,
                        0 <= z <= 16,
                        acc_r@.len() == 16,
                        acc_g@.len() == 16,
                        acc_b@.len() == 16,
                        cache_r@.len() == cl,
                        cache_g@.len() == cl,
                        cache_b@.len() == cl,
                        forall|t: int|
                            0 <= t < cl ==> #[trigger] cache_r@[t] as int == crate::model::px(
                                inst,
                                row as int,
                                x as int - inst.k / 2 + t,
                                0,
                            ),
                        forall|t: int|
                            0 <= t < cl ==> #[trigger] cache_g@[t] as int == crate::model::px(
                                inst,
                                row as int,
                                x as int - inst.k / 2 + t,
                                1,
                            ),
                        forall|t: int|
                            0 <= t < cl ==> #[trigger] cache_b@[t] as int == crate::model::px(
                                inst,
                                row as int,
                                x as int - inst.k / 2 + t,
                                2,
                            ),
                        forall|t: int|
                            0 <= t < 16 ==> #[trigger] acc_r@[t] as int == acc_rows(
                                inst,
                                y as int,
                                x as int + t,
                                0,
                                i as int,
                            ) + row_acc(inst, y as int, x as int + t, 0, i as int, j as int) + (
                            if t < z {
                                tap(inst, y as int, x as int + t, 0, i as int, j as int)
                            } else {
                                0
                            }),
                        forall|t: int|
                            0 <= t < 16 ==> #[trigger] acc_g@[t] as int == acc_rows(
                                inst,
                                y as int,
                                x as int + t,
                                1,
                                i as int,
                            ) + row_acc(inst, y as int, x as int + t, 1, i as int, j as int) + (
                            if t < z {
                                tap(inst, y as int, x as int + t, 1, i as int, j as int)
                            } else {
                                0
                            }),
                        forall|t: int|
                            0 <= t < 16 ==> #[trigger] acc_b@[t] as int == acc_rows(
                                inst,
                                y as int,
                                x as int + t,
                                2,
                                i as int,
                            ) + row_acc(inst, y as int, x as int + t, 2, i as int, j as int) + (
                            if t < z {
                                tap(inst, y as int, x as int + t, 2, i as int, j as int)
                            } else {
                                0
                            }),
                    decreases 16 - z,
                {
                    let pr: i128 = cache_r[j + z];
                    let pg: i128 = cache_g[j + z];
                    let pb: i128 = cache_b[j + z];
                    proof {
                        crate::model::lemma_tap_bound(
                            inst,
                            y as int,
                            x as int + z,
                            0,
                            i as int,
                            j as int,
                        );
                        crate::model::lemma_tap_bound(
                            inst,
                            y as int,
                            x as int + z,
                            1,
                            i as int,
                            j as int,
                        );
                        crate::model::lemma_tap_bound(
                            inst,
                            y as int,
                            x as int + z,
                            2,
                            i as int,
                            j as int,
                        );
                        assert(pr as int * wv as int == tap(
                            inst,
                            y as int,
                            x as int + z,
                            0,
                            i as int,
                            j as int,
                        ));
                        assert(pg as int * wv as int == tap(
                            inst,
                            y as int,
                            x as int + z,
                            1,
                            i as int,
                            j as int,
                        ));
                        assert(pb as int * wv as int == tap(
                            inst,
                            y as int,
                            x as int + z,
                            2,
                            i as int,
                            j as int,
                        ));
                        lemma_partial_acc_fits(inst, y as int, x as int + z, 0, i as int, j as int);
                        lemma_partial_acc_fits(
                            inst,
                            y as int,
                            x as int + z,
                            0,
                            i as int,
                            j as int + 1,
                        );
                        lemma_partial_acc_fits(inst, y as int, x as int + z, 1, i as int, j as int);
                        lemma_partial_acc_fits(
                            inst,
                            y as int,
                            x as int + z,
                            1,
                            i as int,
                            j as int + 1,
                        );
                        lemma_partial_acc_fits(inst, y as int, x as int + z, 2, i as int, j as int);
                        lemma_partial_acc_fits(
                            inst,
                            y as int,
                            x as int + z,
                            2,
                            i as int,
                            j as int + 1,
                        );
                    }
                    let t0: i128 = acc_r[z];
                    acc_r[z] = t0 + pr * (wv as i128);
                    let t1: i128 = acc_g[z];
                    acc_g[z] = t1 + pg * (wv as i128);
                    let t2: i128 = acc_b[z];
                    acc_b[z] = t2 + pb * (wv as i128);
                    z += 1;
                }
                j += 1;
            }
            i += 1;
        }
        let mut z: usize = 0;
        while z < 16
            invariant
                0 <= z <= 16,
                acc_r@.len() == 16,
                acc_g@.len() == 16,
                acc_b@.len() == 16,
                forall|t: int|
                    0 <= t < 16 ==> #[trigger] acc_r@[t] as int == acc(
                        inst,
                        y as int,
                        x as int + t,
                        0,
                    ),
                forall|t: int|
                    0 <= t < 16 ==> #[trigger] acc_g@[t] as int == acc(
                        inst,
                        y as int,
                        x as int + t,
                        1,
                    ),
                forall|t: int|
                    0 <= t < 16 ==> #[trigger] acc_b@[t] as int == acc(
                        inst,
                        y as int,
                        x as int + t,
                        2,
                    ),
                dst@.len() == old(dst)@.len(),
                forall|yy: int, xx: int, cc: int| #![trigger idx3(w as int, yy, xx, cc)]
                    0 <= yy < h && 0 <= xx < w && 0 <= cc < 3 ==> dst@[idx3(w as int, yy, xx, cc)]
                        == (if yy == y && x <= xx < x + z {
                        out_byte(inst, yy, xx, cc)
                    } else {
                        old(dst)@[idx3(w as int, yy, xx, cc)]
                    }),
            decreases 16 - z,
        {
            proof {
                lemma_acc_fits(inst, y as int, x as int + z, 0);
                lemma_acc_fits(inst, y as int, x as int + z, 1);
                lemma_acc_fits(inst, y as int, x as int + z, 2);
            }
            let vr: u8 = self.finalize(acc_r[z]);
            store_px(dst, h, w, y, x + z, 0, vr);
            let vg: u8 = self.finalize(acc_g[z]);
            store_px(dst, h, w, y, x + z, 1, vg);
            let vb: u8 = self.finalize(acc_b[z]);
            store_px(dst, h, w, y, x + z, 2, vb);
            z += 1;
        }
    }

    /// Normalizes (for an averaging kernel) and saturates one accumulator to
    /// an output byte.
    fn finalize(&self, t: i128) -> (v: u8)
        requires
            self.wf(),
            -(self.kernel.side as int * self.kernel.side as int * term_bound()) <= t as int
                <= self.kernel.side as int * self.kernel.side as int * term_bound(),
            self.kernel.side as int * self.kernel.side as int * term_bound() < i128::MAX,
        ensures
            v as int == out_of_acc(self.kernel.div_int(), t as int),
    {
        let q: i128 = match self.kernel.div {
            Some(d) => {
                proof {
                    lemma_wsum_bound(self.kernel.wts_int(), self.kernel.weights@.len() as int);
                    lemma_mul_inequality(
                        self.kernel.weights@.len() as int,
                        usize::MAX as int,
                        wbound(),
                    );
                }
                tdiv_exec(t, d)
            },
            None => t,
        };
        if q < 0 {
            0u8
        } else if q > 255 {
            255u8
        } else {
            q as u8
        }
    }

    /// Channel-outer scalar reference strategy: for each interior output
    /// pixel, each channel accumulates its own full kernel sweep.
    #[verifier::loop_isolation(false)]
    pub fn naive1(&self, src: &RgbImage) -> (r: RgbImage)
        requires
            self.wf(),
            src.wf(),
        ensures
            r.wf(),
            r.height == src.height,
            r.width == src.width,
            conv_ok(self.inst(src), r.bytes()),
    {
        proof {
            self.lemma_inst_wf(src);
        }
        let ghost inst = self.inst(src);
        let h: usize = src.height;
        let w: usize = src.width;
        let half: usize = self.kernel.side / 2;
        let n: usize = src.content.len();
        let mut dst: Vec<u8> = zero_buf(n);
        proof {
            assert forall|yy: int, xx: int, cc: int|
                0 <= yy < h && 0 <= xx < w && 0 <= cc < 3 implies dst@[#[trigger] idx3(
                w as int,
                yy,
                xx,
                cc,
            )] == 0u8 by {
                lemma_idx3_bounds(h as int, w as int, yy, xx, cc);
            }
        }
        if h < 2 * half + 1 || w < 2 * half + 1 {
            return RgbImage::from_raw(dst, h, w);
        }
        let yend: usize = h - half;
        let xend: usize = w - half;
        let mut y: usize = half;
        while y < yend
            invariant
                half <= y <= yend,
                dst@.len() == n,
                forall|yy: int, xx: int, cc: int| #![trigger idx3(w as int, yy, xx, cc)]
                    0 <= yy < h && 0 <= xx < w && 0 <= cc < 3 ==> dst@[idx3(w as int, yy, xx, cc)]
                        == (if yy < y {
                        out_byte(inst, yy, xx, cc)
                    } else {
                        0u8
                    }),
            decreases yend - y,
        {
            let mut x: usize = half;
            while x < xend
                invariant
                    half <= y < yend,
                    half <= x <= xend,
                    dst@.len() == n,
                    forall|yy: int, xx: int, cc: int| #![trigger idx3(w as int, yy, xx, cc)]
                        0 <= yy < h && 0 <= xx < w && 0 <= cc < 3 ==> dst@[idx3(
                            w as int,
                            yy,
                            xx,
                            cc,
                        )] == (if yy < y || (yy == y && xx < x) {
                            out_byte(inst, yy, xx, cc)
                        } else {
                            0u8
                        }),
                decreases xend - x,
            {
                let mut c: usize = 0;
                while c < 3
                    invariant
                        half <= y < yend,
                        half <= x < xend,
                        0 <= c <= 3,
                        dst@.len() == n,
                        forall|yy: int, xx: int, cc: int| #![trigger idx3(w as int, yy, xx, cc)]
                            0 <= yy < h && 0 <= xx < w && 0 <= cc < 3 ==> dst@[idx3(
                                w as int,
                                yy,
                                xx,
                                cc,
                            )] == (if yy < y || (yy == y && (xx < x || (xx == x && cc < c))) {
                                out_byte(inst, yy, xx, cc)
                            } else {
                                0u8
                            }),
                    decreases 3 - c,
                {
                    let v: u8 = self.conv_at(src, y, x, c);
                    store_px(&mut dst, h, w, y, x, c, v);
                    c += 1;
                }
                x += 1;
            }
            y += 1;
        }
        RgbImage::from_raw(dst, h, w)
    }

    /// Channel-inner scalar strategy: one pass over each source window feeds
    /// all three channels, improving locality over the reference.
    #[verifier::loop_isolation(false)]
    pub fn naive2(&self, src: &RgbImage) -> (r: RgbImage)
        requires
            self.wf(),
            src.wf(),
        ensures
            r.wf(),
            r.height == src.height,
            r.width == src.width,
            conv_ok(self.inst(src), r.bytes()),
    {
        proof {
            self.lemma_inst_wf(src);
        }
        let ghost inst = self.inst(src);
        let h: usize = src.height;
        let w: usize = src.width;
        let half: usize = self.kernel.side / 2;
        let n: usize = src.content.len();
        let mut dst: Vec<u8> = zero_buf(n);
        proof {
            assert forall|yy: int, xx: int, cc: int|
                0 <= yy < h && 0 <= xx < w && 0 <= cc < 3 implies dst@[#[trigger] idx3(
                w as int,
                yy,
                xx,
                cc,
            )] == 0u8 by {
                lemma_idx3_bounds(h as int, w as int, yy, xx, cc);
            }
        }
        if h < 2 * half + 1 || w < 2 * half + 1 {
            return RgbImage::from_raw(dst, h, w);
        }
        let yend: usize = h - half;
        let xend: usize = w - half;
        let mut y: usize = half;
        while y < yend
            invariant
                half <= y <= yend,
                dst@.len() == n,
                forall|yy: int, xx: int, cc: int| #![trigger idx3(w as int, yy, xx, cc)]
                    0 <= yy < h && 0 <= xx < w && 0 <= cc < 3 ==> dst@[idx3(w as int, yy, xx, cc)]
                        == (if yy < y {
                        out_byte(inst, yy, xx, cc)
                    } else {
                        0u8
                    }),
            decreases yend - y,
        {
            let mut x: usize = half;
            while x < xend
                invariant
                    half <= y < yend,
                    half <= x <= xend,
                    dst@.len() == n,
                    forall|yy: int, xx: int, cc: int| #![trigger idx3(w as int, yy, xx, cc)]
                        0 <= yy < h && 0 <= xx < w && 0 <= cc < 3 ==> dst@[idx3(
                            w as int,
                            yy,
                            xx,
                            cc,
                        )] == (if yy < y || (yy == y && xx < x) {
                            out_byte(inst, yy, xx, cc)
                        } else {
                            0u8
                        }),
                decreases xend - x,
            {
                self.conv_px_into(src, &mut dst, y, x);
                x += 1;
            }
            y += 1;
        }
        RgbImage::from_raw(dst, h, w)
    }

    /// 4-wide lane-parallel strategy: groups of 4 adjacent output columns are
    /// computed together by [`Self::conv_quad_into`]; trailing columns that do
    /// not fill a group of 4 are peeled through the channel-inner path.
    #[verifier::loop_isolation(false)]
    pub fn simd1(&self, src: &RgbImage) -> (r: RgbImage)
        requires
            self.wf(),
            src.wf(),
        ensures
            r.wf(),
            r.height == src.height,
            r.width == src.width,
            conv_ok(self.inst(src), r.bytes()),
    {
        proof {
            self.lemma_inst_wf(src);
        }
        let ghost inst = self.inst(src);
        let h: usize = src.height;
        let w: usize = src.width;
        let half: usize = self.kernel.side / 2;
        let n: usize = src.content.len();
        let mut dst: Vec<u8> = zero_buf(n);
        proof {
            assert forall|yy: int, xx: int, cc: int|
                0 <= yy < h && 0 <= xx < w && 0 <= cc < 3 implies dst@[#[trigger] idx3(
                w as int,
                yy,
                xx,
                cc,
            )] == 0u8 by {
                lemma_idx3_bounds(h as int, w as int, yy, xx, cc);
            }
        }
        if h < 2 * half + 1 || w < 2 * half + 1 {
            return RgbImage::from_raw(dst, h, w);
        }
        let yend: usize = h - half;
        let xend: usize = w - half;
        let rem4: usize = (w - 2 * half) % 4;
        let simd_end: usize = w - half - rem4;
        proof {
            vstd::arithmetic::div_mod::lemma_fundamental_div_mod(w as int - 2 * half, 4);
            vstd::arithmetic::div_mod::lemma_mod_multiples_basic((w as int - 2 * half) / 4, 4);
        }
        let mut y: usize = half;
        while y < yend
            invariant
                half <= y <= yend,
                dst@.len() == n,
                forall|yy: int, xx: int, cc: int| #![trigger idx3(w as int, yy, xx, cc)]
                    0 <= yy < h && 0 <= xx < w && 0 <= cc < 3 ==> dst@[idx3(w as int, yy, xx, cc)]
                        == (if yy < y {
                        out_byte(inst, yy, xx, cc)
                    } else {
                        0u8
                    }),
            decreases yend - y,
        {
            let mut x: usize = half;
            while x < simd_end
                invariant
                    half <= y < yend,
                    half <= x <= simd_end,
                    (simd_end - x) % 4 == 0,
                    dst@.len() == n,
                    forall|yy: int, xx: int, cc: int| #![trigger idx3(w as int, yy, xx, cc)]
                        0 <= yy < h && 0 <= xx < w && 0 <= cc < 3 ==> dst@[idx3(
                            w as int,
                            yy,
                            xx,
                            cc,
                        )] == (if yy < y || (yy == y && xx < x) {
                            out_byte(inst, yy, xx, cc)
                        } else {
                            0u8
                        }),
                decreases simd_end - x,
            {
                self.conv_quad_into(src, &mut dst, y, x);
                x += 4;
            }
            while x < xend
                invariant
                    half <= y < yend,
                    half <= x <= xend,
                    dst@.len() == n,
                    forall|yy: int, xx: int, cc: int| #![trigger idx3(w as int, yy, xx, cc)]
                        0 <= yy < h && 0 <= xx < w && 0 <= cc < 3 ==> dst@[idx3(
                            w as int,
                            yy,
                            xx,
                            cc,
                        )] == (if yy < y || (yy == y && xx < x) {
                            out_byte(inst, yy, xx, cc)
                        } else {
                            0u8
                        }),
                decreases xend - x,
            {
                self.conv_px_into(src, &mut dst, y, x);
                x += 1;
            }
            y += 1;
        }
        RgbImage::from_raw(dst, h, w)
    }

    /// 4-wide strategy with row-cache reuse: groups of 4 output columns are
    /// computed by [`Self::conv_quad_cached_into`], which loads each source
    /// row's span once and slides a window over it per tap; trailing columns
    /// are peeled through the channel-inner path.
    #[verifier::loop_isolation(false)]
    pub fn simd2(&self, src: &RgbImage) -> (r: RgbImage)
        requires
            self.wf(),
            src.wf(),
        ensures
            r.wf(),
            r.height == src.height,
            r.width == src.width,
            conv_ok(self.inst(src), r.bytes()),
    {
        proof {
            self.lemma_inst_wf(src);
        }
        let ghost inst = self.inst(src);
        let h: usize = src.height;
        let w: usize = src.width;
        let half: usize = self.kernel.side / 2;
        let n: usize = src.content.len();
        let mut dst: Vec<u8> = zero_buf(n);
        proof {
            assert forall|yy: int, xx: int, cc: int|
                0 <= yy < h && 0 <= xx < w && 0 <= cc < 3 implies dst@[#[trigger] idx3(
                w as int,
                yy,
                xx,
                cc,
            )] == 0u8 by {
                lemma_idx3_bounds(h as int, w as int, yy, xx, cc);
            }
        }
        if h < 2 * half + 1 || w < 2 * half + 1 {
            return RgbImage::from_raw(dst, h, w);
        }
        let yend: usize = h - half;
        let xend: usize = w - half;
        let rem4: usize = (w - 2 * half) % 4;
        let simd_end: usize = w - half - rem4;
        proof {
            vstd::arithmetic::div_mod::lemma_fundamental_div_mod(w as int - 2 * half, 4);
            vstd::arithmetic::div_mod::lemma_mod_multiples_basic((w as int - 2 * half) / 4, 4);
        }
        let mut y: usize = half;
        while y < yend
            invariant
                half <= y <= yend,
                dst@.len() == n,
                forall|yy: int, xx: int, cc: int| #![trigger idx3(w as int, yy, xx, cc)]
                    0 <= yy < h && 0 <= xx < w && 0 <= cc < 3 ==> dst@[idx3(w as int, yy, xx, cc)]
                        == (if yy < y {
                        out_byte(inst, yy, xx, cc)
                    } else {
                        0u8
                    }),
            decreases yend - y,
        {
            let mut x: usize = half;
            while x < simd_end
                invariant
                    half <= y < yend,
                    half <= x <= simd_end,
                    (simd_end - x) % 4 == 0,
                    dst@.len() == n,
                    forall|yy: int, xx: int, cc: int| #![trigger idx3(w as int, yy, xx, cc)]
                        0 <= yy < h && 0 <= xx < w && 0 <= cc < 3 ==> dst@[idx3(
                            w as int,
                            yy,
                            xx,
                            cc,
                        )] == (if yy < y || (yy == y && xx < x) {
                            out_byte(inst, yy, xx, cc)
                        } else {
                            0u8
                        }),
                decreases simd_end - x,
            {
                self.conv_quad_cached_into(src, &mut dst, y, x);
                x += 4;
            }
            while x < xend
                invariant
                    half <= y < yend,
                    half <= x <= xend,
                    dst@.len() == n,
                    forall|yy: int, xx: int, cc: int| #![trigger idx3(w as int, yy, xx, cc)]
                        0 <= yy < h && 0 <= xx < w && 0 <= cc < 3 ==> dst@[idx3(
                            w as int,
                            yy,
                            xx,
                            cc,
                        )] == (if yy < y || (yy == y && xx < x) {
                            out_byte(inst, yy, xx, cc)
                        } else {
                            0u8
                        }),
                decreases xend - x,
            {
                self.conv_px_into(src, &mut dst, y, x);
                x += 1;
            }
            y += 1;
        }
        RgbImage::from_raw(dst, h, w)
    }

    /// 16-wide deinterleaved strategy: groups of 16 output columns are
    /// computed by [`Self::conv_wide_into`] over per-channel row runs;
    /// trailing columns are peeled through the channel-inner path.
    #[verifier::loop_isolation(false)]
    pub fn simd3(&self, src: &RgbImage) -> (r: RgbImage)
        requires
            self.wf(),
            src.wf(),
        ensures
            r.wf(),
            r.height == src.height,
            r.width == src.width,
            conv_ok(self.inst(src), r.bytes()),
    {
        proof {
            self.lemma_inst_wf(src);
        }
        let ghost inst = self.inst(src);
        let h: usize = src.height;
        let w: usize = src.width;
        let half: usize = self.kernel.side / 2;
        let n: usize = src.content.len();
        let mut dst: Vec<u8> = zero_buf(n);
        proof {
            assert forall|yy: int, xx: int, cc: int|
                0 <= yy < h && 0 <= xx < w && 0 <= cc < 3 implies dst@[#[trigger] idx3(
                w as int,
                yy,
                xx,
                cc,
            )] == 0u8 by {
                lemma_idx3_bounds(h as int, w as int, yy, xx, cc);
            }
        }
        if h < 2 * half + 1 || w < 2 * half + 1 {
            return RgbImage::from_raw(dst, h, w);
        }
        let yend: usize = h - half;
        let xend: usize = w - half;
        let rem16: usize = (w - 2 * half) % 16;
        let simd_end: usize = w - half - rem16;
        proof {
            vstd::arithmetic::div_mod::lemma_fundamental_div_mod(w as int - 2 * half, 16);
            vstd::arithmetic::div_mod::lemma_mod_multiples_basic((w as int - 2 * half) / 16, 16);
        }
        let mut y: usize = half;
        while y < yend
            invariant
                half <= y <= yend,
                dst@.len() == n,
                forall|yy: int, xx: int, cc: int| #![trigger idx3(w as int, yy, xx, cc)]
                    0 <= yy < h && 0 <= xx < w && 0 <= cc < 3 ==> dst@[idx3(w as int, yy, xx, cc)]
                        == (if yy < y {
                        out_byte(inst, yy, xx, cc)
                    } else {
                        0u8
                    }),
            decreases yend - y,
        {
            let mut x: usize = half;
            while x < simd_end
                invariant
                    half <= y < yend,
                    half <= x <= simd_end,
                    (simd_end - x) % 16 == 0,
                    dst@.len() == n,
                    forall|yy: int, xx: int, cc: int| #![trigger idx3(w as int, yy, xx, cc)]
                        0 <= yy < h && 0 <= xx < w && 0 <= cc < 3 ==> dst@[idx3(
                            w as int,
                            yy,
                            xx,
                            cc,
                        )] == (if yy < y || (yy == y && xx < x) {
                            out_byte(inst, yy, xx, cc)
                        } else {
                            0u8
                        }),
                decreases simd_end - x,
            {
                self.conv_wide_into(src, &mut dst, y, x);
                x += 16;
            }
            while x < xend
                invariant
                    half <= y < yend,
                    half <= x <= xend,
                    dst@.len() == n,
                    forall|yy: int, xx: int, cc: int| #![trigger idx3(w as int, yy, xx, cc)]
                        0 <= yy < h && 0 <= xx < w && 0 <= cc < 3 ==> dst@[idx3(
                            w as int,
                            yy,
                            xx,
                            cc,
                        )] == (if yy < y || (yy == y && xx < x) {
                            out_byte(inst, yy, xx, cc)
                        } else {
                            0u8
                        }),
                decreases xend - x,
            {
                self.conv_px_into(src, &mut dst, y, x);
                x += 1;
            }
            y += 1;
        }
        RgbImage::from_raw(dst, h, w)
    }
}

/// Quotient truncated toward zero, the division the strategies apply to an
/// averaging kernel's accumulator.
fn tdiv_exec(a: i128, b: i128) -> (q: i128)
    requires
        b != 0,
        i128::MIN < a,
        i128::MIN < b,
    ensures
        q as int == tdiv(a as int, b as int),
{
    let neg: bool = (a < 0) != (b < 0);
    let ua: u128 = if a < 0 {
        (-a) as u128
    } else {
        a as u128
    };
    let ub: u128 = if b < 0 {
        (-b) as u128
    } else {
        b as u128
    };
    proof {
        lemma_div_nonincreasing(ua as int, ub as int);
    }
    let uq: u128 = ua / ub;
    let q: i128 = uq as i128;
    if neg {
        -q
    } else {
        q
    }
}

/// A bank of accumulators, all zero: the counterpart of clearing a group of
/// lane registers before a sweep.
fn init_acc(n: usize) -> (v: Vec<i128>)
    ensures
        v@.len() == n,
        forall|t: int| 0 <= t < n ==> v@[t] == 0i128,
{
    let mut v: Vec<i128> = Vec::new();
    while v.len() < n
        invariant
            v@.len() <= n,
            forall|t: int| 0 <= t < v@.len() ==> v@[t] == 0i128,
        decreases n - v@.len(),
    {
        v.push(0);
    }
    v
}

/// A zero-initialized destination buffer: the black canvas whose border the
/// strategies never touch.
fn zero_buf(n: usize) -> (v: Vec<u8>)
    ensures
        v@.len() == n,
        forall|t: int| 0 <= t < n ==> v@[t] == 0u8,
{
    let mut v: Vec<u8> = Vec::new();
    while v.len() < n
        invariant
            v@.len() <= n,
            forall|t: int| 0 <= t < v@.len() ==> v@[t] == 0u8,
        decreases n - v@.len(),
    {
        v.push(0);
    }
    v
}

/// Writes one output byte, leaving every other cell unchanged.
fn store_px(dst: &mut Vec<u8>, h: usize, w: usize, y: usize, x: usize, c: usize, v: u8)
    requires
        old(dst)@.len() == h * w * 3,
        y < h,
        x < w,
        c < 3,
    ensures
        final(dst)@.len() == old(dst)@.len(),
        forall|yy: int, xx: int, cc: int| #![trigger idx3(w as int, yy, xx, cc)]
            0 <= yy < h && 0 <= xx < w && 0 <= cc < 3 ==> final(dst)@[idx3(w as int, yy, xx, cc)]
                == (if yy == y && xx == x && cc == c {
                v
            } else {
                old(dst)@[idx3(w as int, yy, xx, cc)]
            }),
{
    let n: usize = dst.len();
    proof {
        lemma_idx3_bounds(h as int, w as int, y as int, x as int, c as int);
    }
    let i: usize = (y * w + x) * 3 + c;
    dst[i] = v;
    proof {
        assert forall|yy: int, xx: int, cc: int|
            0 <= yy < h && 0 <= xx < w && 0 <= cc < 3 && !(yy == y && xx == x && cc
                == c) implies dst@[#[trigger] idx3(w as int, yy, xx, cc)] == old(dst)@[idx3(
            w as int,
            yy,
            xx,
            cc,
        )] by {
            lemma_idx3_bounds(h as int, w as int, yy, xx, cc);
            if idx3(w as int, yy, xx, cc) == idx3(w as int, y as int, x as int, c as int) {
                lemma_idx3_inj(w as int, yy, xx, cc, y as int, x as int, c as int);
            }
        }
    }
}

} // verus!
