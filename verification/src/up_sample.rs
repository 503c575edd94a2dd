//! Rate increase by a polyphase interpolator: for each input sample, one
//! output per phase of the reversed, ratio-decomposed prototype.
use vstd::prelude::*;

verus! {

use num::complex::Complex64;
use crate::cpx::cdiv_re;
use crate::cpx::cfromu;
use crate::cpx::cx_add;
use crate::cpx::cx_div_re;
use crate::cpx::cx_from_usize;
use crate::cpx::cx_scale;
use crate::down_sample::csum_pre;
use crate::down_sample::win_dot;
use crate::utils::copy_within;
use vstd::arithmetic::div_mod::lemma_fundamental_div_mod;
use vstd::arithmetic::div_mod::lemma_fundamental_div_mod_converse;

/// Spread a signal by `up_sample_ratio`: each sample is followed by
/// `up_sample_ratio - 1` zero samples.
pub fn insert_zeros(input: &[Complex64], up_sample_ratio: usize) -> (r: Vec<Complex64>)
    requires
        up_sample_ratio >= 1,
        input@.len() * up_sample_ratio <= usize::MAX,
    ensures
        r@.len() == input@.len() * up_sample_ratio,
        forall|j: int|
            0 <= j < r@.len() ==> r@[j] == (if j % (up_sample_ratio as int) == 0 {
                input@[j / (up_sample_ratio as int)]
            } else {
                cfromu(0)
            }),
{
    let ratio = up_sample_ratio;
    let n = input.len();
    let mut out: Vec<Complex64> = Vec::new();
    proof {
        assert(0 * (ratio as int) == 0) by (nonlinear_arith);
    }
    for t in 0..n
        invariant
            ratio >= 1,
            n == input@.len(),
            n * ratio <= usize::MAX,
            out@.len() == t * ratio,
            forall|j: int|
                0 <= j < t * ratio ==> out@[j] == (if j % (ratio as int) == 0 {
                    input@[j / (ratio as int)]
                } else {
                    cfromu(0)
                }),
    {
        proof {
            assert((t + 1) * ratio <= n * ratio && t * ratio + ratio == (t + 1) * ratio) by (nonlinear_arith)
                requires
                    0 <= t < n,
                    ratio >= 1,
            ;
        }
        for ph in 0..ratio
            invariant
                ratio >= 1,
                t < n,
                n == input@.len(),
                t * ratio + ratio <= n * ratio <= usize::MAX,
                out@.len() == t * ratio + ph,
                forall|j: int|
                    0 <= j < t * ratio + ph ==> out@[j] == (if j % (ratio as int) == 0 {
                        input@[j / (ratio as int)]
                    } else {
                        cfromu(0)
                    }),
        {
            if ph == 0 {
                out.push(input[t]);
            } else {
                out.push(cx_from_usize(0));
            }
            proof {
                lemma_fundamental_div_mod_converse(
                    t as int * ratio + ph,
                    ratio as int,
                    t as int,
                    ph as int,
                );
            }
        }
    }
    out
}

/// A polyphase interpolator: the prototype is cut into `up_sample_ratio`
/// phases, and each input sample yields one output per phase — the dot
/// product of a `tap_per_ch`-wide input window with that phase's reversed
/// coefficients.
pub struct UpSampler {
    /// The phase table: `up_sample_ratio` rows of `tap_per_ch` reversed
    /// coefficients; row `r`, tap `t` holds prototype sample
    /// `t * ratio + (ratio - 1 - r)`.
    pub coeffs: Vec<Vec<Complex64>>,
    /// The carried tail of the input stream: the last `tap_per_ch - 1`
    /// samples.
    pub init_state: Vec<Complex64>,
    /// Outputs per input sample.
    pub up_sample_ratio: usize,
}

impl UpSampler {
    /// Taps per phase.
    pub open spec fn tap_spec(self) -> int {
        self.coeffs@[0]@.len() as int
    }

    /// A full phase table and a carried tail one sample short of a window.
    pub open spec fn wf(self) -> bool {
        &&& self.up_sample_ratio >= 1
        &&& self.coeffs@.len() == self.up_sample_ratio
        &&& self.tap_spec() >= 1
        &&& forall|r: int|
            0 <= r < self.coeffs@.len() ==> (#[trigger] self.coeffs@[r])@.len() == self.tap_spec()
        &&& self.init_state@.len() == self.tap_spec() - 1
    }

    /// Build from an unnormalised prototype of `tap_per_ch * ratio`
    /// coefficients: every coefficient is divided by the coefficient sum
    /// over the ratio, so the interpolated stream keeps the input's scale.
    pub fn new(c: &[Complex64], up_sample_ratio: usize) -> (r: UpSampler)
        requires
            up_sample_ratio >= 1,
            c@.len() >= up_sample_ratio,
            c@.len() as int % (up_sample_ratio as int) == 0,
        ensures
            r.wf(),
            r.up_sample_ratio == up_sample_ratio,
            r.tap_spec() == c@.len() as int / up_sample_ratio as int,
            forall|ph: int, t: int|
                0 <= ph < up_sample_ratio && 0 <= t < r.tap_spec() ==> r.coeffs@[ph]@[t]
                    == cdiv_re(
                    c@[t * up_sample_ratio + (up_sample_ratio - 1 - ph)],
                    cdiv_re(csum_pre(c@, c@.len() as int), cfromu(up_sample_ratio as int)),
                ),
            r.init_state@ == Seq::new((r.tap_spec() - 1) as nat, |i: int| cfromu(0)),
    {
        let tap = c.len();
        let mut norm = cx_from_usize(0);
        for i in 0..tap
            invariant
                tap == c@.len(),
                norm == csum_pre(c@, i as int),
        {
            norm = cx_add(norm, c[i]);
        }
        let norm = cx_div_re(norm, cx_from_usize(up_sample_ratio));
        let mut scaled: Vec<Complex64> = Vec::new();
        for i in 0..tap
            invariant
                tap == c@.len(),
                norm == cdiv_re(csum_pre(c@, c@.len() as int), cfromu(up_sample_ratio as int)),
                scaled@.len() == i,
                forall|j: int|
                    0 <= j < i ==> scaled@[j] == cdiv_re(
                        c@[j],
                        cdiv_re(csum_pre(c@, c@.len() as int), cfromu(up_sample_ratio as int)),
                    ),
        {
            scaled.push(cx_div_re(c[i], norm));
        }
        let r = UpSampler::from_coeffs(scaled.as_slice(), up_sample_ratio);
        proof {
            lemma_fundamental_div_mod(tap as int, up_sample_ratio as int);
            assert((up_sample_ratio as int) * r.tap_spec() == tap);
            assert forall|ph: int, t: int|
                0 <= ph < up_sample_ratio && 0 <= t < r.tap_spec() implies r.coeffs@[ph]@[t]
                == cdiv_re(
                c@[t * up_sample_ratio + (up_sample_ratio - 1 - ph)],
                cdiv_re(csum_pre(c@, c@.len() as int), cfromu(up_sample_ratio as int)),
            ) by {
                assert(t * (up_sample_ratio as int) + (up_sample_ratio - 1 - ph) < (
                up_sample_ratio as int) * r.tap_spec()) by (nonlinear_arith)
                    requires
                        0 <= t < r.tap_spec(),
                        0 <= ph < up_sample_ratio,
                ;
            }
        }
        r
    }

    /// Build from ready coefficients of length `tap_per_ch * ratio`: phase
    /// `r` gets every `ratio`-th coefficient starting at `ratio - 1 - r`,
    /// and the carried tail starts as zero samples.
    pub fn from_coeffs(c: &[Complex64], up_sample_ratio: usize) -> (r: UpSampler)
        requires
            up_sample_ratio >= 1,
            c@.len() >= up_sample_ratio,
            c@.len() as int % (up_sample_ratio as int) == 0,
        ensures
            r.wf(),
            r.up_sample_ratio == up_sample_ratio,
            r.tap_spec() == c@.len() as int / up_sample_ratio as int,
            forall|ph: int, t: int|
                0 <= ph < up_sample_ratio && 0 <= t < r.tap_spec() ==> r.coeffs@[ph]@[t]
                    == c@[t * up_sample_ratio + (up_sample_ratio - 1 - ph)],
            r.init_state@ == Seq::new((r.tap_spec() - 1) as nat, |i: int| cfromu(0)),
    {
        let ratio = up_sample_ratio;
        let len = c.len();
        let tap_per_ch = len / ratio;
        proof {
            lemma_fundamental_div_mod(len as int, ratio as int);
            assert(tap_per_ch >= 1) by (nonlinear_arith)
                requires
                    ratio * tap_per_ch == len,
                    len >= ratio,
                    ratio >= 1,
            ;
        }
        assert(ratio * tap_per_ch == len);
        let mut coeffs: Vec<Vec<Complex64>> = Vec::new();
        for ph in 0..ratio
            invariant
                ratio >= 1,
                tap_per_ch >= 1,
                len == c@.len(),
                ratio * tap_per_ch == len,
                coeffs@.len() == ph,
                forall|r2: int| 0 <= r2 < ph ==> (#[trigger] coeffs@[r2])@.len() == tap_per_ch,
                forall|r2: int, t: int|
                    0 <= r2 < ph && 0 <= t < tap_per_ch ==> coeffs@[r2]@[t] == c@[t * ratio + (
                    ratio - 1 - r2)],
        {
            let mut row: Vec<Complex64> = Vec::new();
            for t in 0..tap_per_ch
                invariant
                    ratio >= 1,
                    tap_per_ch >= 1,
                    ph < ratio,
                    len == c@.len(),
                    ratio * tap_per_ch == len,
                    row@.len() == t,
                    forall|t2: int|
                        0 <= t2 < t ==> row@[t2] == c@[t2 * ratio + (ratio - 1 - ph)],
            {
                proof {
                    assert(t * ratio + (ratio - 1 - ph) < ratio * tap_per_ch) by (nonlinear_arith)
                        requires
                            0 <= t < tap_per_ch,
                            0 <= ph < ratio,
                    ;
                }
                row.push(c[t * ratio + (ratio - 1 - ph)]);
            }
            coeffs.push(row);
        }
        let mut init_state: Vec<Complex64> = Vec::new();
        for i in 0..tap_per_ch - 1
            invariant
                init_state@.len() == i,
                forall|j: int| 0 <= j < i ==> init_state@[j] == cfromu(0),
        {
            init_state.push(cx_from_usize(0));
        }
        let r = UpSampler { coeffs, init_state, up_sample_ratio };
        assert(r.init_state@ =~= Seq::new((r.tap_spec() - 1) as nat, |i: int| cfromu(0)));
        r
    }

    /// Interpolate: append `input` to the carried tail; output
    /// `j = t * ratio + ph` is the dot product of the window starting at
    /// sample `t` with phase `ph`'s coefficients; the tail carries the last
    /// `tap_per_ch - 1` samples forward.
    pub fn up_sample(&mut self, input: &[Complex64]) -> (r: Vec<Complex64>)
        requires
            old(self).wf(),
            old(self).init_state@.len() + input@.len() <= usize::MAX,
            input@.len() * old(self).up_sample_ratio <= usize::MAX,
        ensures
            final(self).wf(),
            final(self).coeffs == old(self).coeffs,
            final(self).up_sample_ratio == old(self).up_sample_ratio,
            ({
                let ext = old(self).init_state@ + input@;
                let ratio = old(self).up_sample_ratio as int;
                let tap = old(self).tap_spec();
                &&& r@.len() == input@.len() * ratio
                &&& forall|j: int|
                    0 <= j < r@.len() ==> r@[j] == win_dot(
                        ext,
                        old(self).coeffs@[j % ratio]@,
                        j / ratio,
                        tap - 1,
                    )
                &&& final(self).init_state@ == ext.skip(input@.len() as int)
            }),
    {
        let ratio = self.up_sample_ratio;
        let tap = self.coeffs[0].len();
        let len0 = input.len();
        let mut ext = copy_within(&self.init_state, 0, self.init_state.len());
        for i in 0..len0
            invariant
                len0 == input@.len(),
                ext@.len() == self.init_state@.len() + i,
                self == old(self),
                self.init_state@.len() + input@.len() <= usize::MAX,
                forall|j: int|
                    0 <= j < ext@.len() ==> ext@[j] == (self.init_state@ + input@)[j],
        {
            ext.push(input[i]);
        }
        let ghost extg = old(self).init_state@ + input@;
        assert(ext@ =~= extg);
        let mut out: Vec<Complex64> = Vec::new();
        proof {
            assert(0 * (ratio as int) == 0) by (nonlinear_arith);
        }
        for t in 0..len0
            invariant
                self == old(self),
                self.wf(),
                ratio == self.up_sample_ratio,
                tap == self.tap_spec(),
                len0 == input@.len(),
                len0 * ratio <= usize::MAX,
                ext@ == extg,
                ext@.len() == tap - 1 + len0,
                out@.len() == t * ratio,
                forall|j: int|
                    0 <= j < t * ratio ==> out@[j] == win_dot(
                        extg,
                        self.coeffs@[j % (ratio as int)]@,
                        j / (ratio as int),
                        tap - 1,
                    ),
        {
            proof {
                assert((t + 1) * ratio <= len0 * ratio && t * ratio + ratio == (t + 1)
                    * ratio) by (nonlinear_arith)
                    requires
                        0 <= t < len0,
                        ratio >= 1,
                ;
            }
            for ph in 0..ratio
                invariant
                    self == old(self),
                    self.wf(),
                    ratio == self.up_sample_ratio,
                    tap == self.tap_spec(),
                    len0 == input@.len(),
                    t < len0,
                    t * ratio + ratio <= len0 * ratio <= usize::MAX,
                    ext@ == extg,
                    ext@.len() == tap - 1 + len0,
                    out@.len() == t * ratio + ph,
                    forall|j: int|
                        0 <= j < t * ratio + ph ==> out@[j] == win_dot(
                            extg,
                            self.coeffs@[j % (ratio as int)]@,
                            j / (ratio as int),
                            tap - 1,
                        ),
            {
                let mut acc = cx_from_usize(0);
                acc = cx_add(acc, cx_scale(ext[t], self.coeffs[ph][0]));
                assert(acc == win_dot(extg, self.coeffs@[ph as int]@, t as int, 0));
                for k in 1..tap
                    invariant
                        self == old(self),
                        self.wf(),
                        tap == self.tap_spec(),
                        ph < ratio,
                        ratio == self.up_sample_ratio,
                        t < len0,
                        len0 == input@.len(),
                        ext@ == extg,
                        ext@.len() == tap - 1 + len0,
                        acc == win_dot(extg, self.coeffs@[ph as int]@, t as int, k - 1),
                {
                    acc = cx_add(acc, cx_scale(ext[t + k], self.coeffs[ph][k]));
                }
                out.push(acc);
                proof {
                    lemma_fundamental_div_mod_converse(
                        t as int * ratio + ph,
                        ratio as int,
                        t as int,
                        ph as int,
                    );
                }
            }
        }
        let tail = copy_within(&ext, len0, ext.len());
        self.init_state = tail;
        proof {
            assert(self.init_state@ =~= extg.skip(input@.len() as int));
        }
        out
    }
}

} // verus!
