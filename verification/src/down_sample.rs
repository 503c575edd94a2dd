//! Rate reduction helpers: a FIR low-pass followed by decimation, and plain
//! decimation without filtering.  Both keep a tail of state so that calls
//! may carry any number of samples.
use vstd::prelude::*;

verus! {

use num::complex::Complex64;
use crate::cpx::cadd;
use crate::cpx::cdiv_re;
use crate::cpx::cfromu;
use crate::cpx::cscale;
use crate::cpx::cx_add;
use crate::cpx::cx_div_re;
use crate::cpx::cx_from_usize;
use crate::cpx::cx_scale;
use crate::utils::copy_within;
use vstd::arithmetic::div_mod::lemma_fundamental_div_mod;
use vstd::arithmetic::div_mod::lemma_fundamental_div_mod_converse;
use vstd::arithmetic::div_mod::lemma_mod_division_less_than_divisor;

/// The sum of the first `n` elements of `s`, accumulated left to right from
/// the zero sample.
pub open spec fn csum_pre(s: Seq<Complex64>, n: int) -> Complex64
    decreases n,
{
    if n <= 0 {
        cfromu(0)
    } else {
        cadd(csum_pre(s, n - 1), s[n - 1])
    }
}

/// The dot product of `ext[start .. start + t + 1]` with coefficient rows
/// `0 ..= t`, accumulated left to right from the zero sample.
pub open spec fn win_dot(ext: Seq<Complex64>, coeff: Seq<Complex64>, start: int, t: int) -> Complex64
    decreases t,
{
    if t <= 0 {
        cadd(cfromu(0), cscale(ext[start], coeff[0]))
    } else {
        cadd(win_dot(ext, coeff, start, t - 1), cscale(ext[start + t], coeff[t]))
    }
}

/// A decimating FIR filter: each output is the dot product of a `tap`-wide
/// window of the input stream with the reversed coefficients, and windows
/// advance by the down-sampling ratio.
pub struct DownSampler {
    /// The coefficients, stored reversed.
    pub coeff_rev: Vec<Complex64>,
    /// The carried tail of the stream; at least `tap - 1` samples.
    pub initial_state: Vec<Complex64>,
    /// Windows advance by this many samples.
    pub down_sample_ratio: usize,
}

impl DownSampler {
    /// Number of taps.
    pub open spec fn tap_spec(self) -> int {
        self.coeff_rev@.len() as int
    }

    /// Non-empty coefficients, a positive ratio, and enough carried state
    /// to fill a window with one fresh sample.
    pub open spec fn wf(self) -> bool {
        &&& self.coeff_rev@.len() >= 1
        &&& self.down_sample_ratio >= 1
        &&& self.initial_state@.len() >= self.tap_spec() - 1
    }

    /// Build from an unnormalised low-pass prototype: every coefficient is
    /// divided by the coefficient sum, so the filter has unit gain at zero
    /// frequency.
    pub fn new(c: &[Complex64], down_sample_ratio: usize) -> (r: DownSampler)
        requires
            c@.len() >= 1,
            down_sample_ratio >= 1,
        ensures
            r.wf(),
            r.tap_spec() == c@.len(),
            r.down_sample_ratio == down_sample_ratio,
            forall|i: int|
                0 <= i < c@.len() ==> r.coeff_rev@[i] == cdiv_re(
                    c@[c@.len() - 1 - i],
                    csum_pre(c@, c@.len() as int),
                ),
            r.initial_state@ == Seq::new((c@.len() - 1) as nat, |i: int| cfromu(0)),
    {
        let tap = c.len();
        let mut norm = cx_from_usize(0);
        for i in 0..tap
            invariant
                tap == c@.len(),
                norm == csum_pre(c@, i as int),
        {
            norm = cx_add(norm, c[i]);
        }
        let mut scaled: Vec<Complex64> = Vec::new();
        for i in 0..tap
            invariant
                tap == c@.len(),
                norm == csum_pre(c@, tap as int),
                scaled@.len() == i,
                forall|j: int|
                    0 <= j < i ==> scaled@[j] == cdiv_re(c@[j], csum_pre(c@, c@.len() as int)),
        {
            scaled.push(cx_div_re(c[i], norm));
        }
        let r = DownSampler::from_coeffs(scaled.as_slice(), down_sample_ratio);
        r
    }

    /// Build from ready coefficients: they are stored reversed, and the
    /// carried state starts as `tap - 1` zero samples.
    pub fn from_coeffs(c: &[Complex64], down_sample_ratio: usize) -> (r: DownSampler)
        requires
            c@.len() >= 1,
            down_sample_ratio >= 1,
        ensures
            r.wf(),
            r.tap_spec() == c@.len(),
            r.down_sample_ratio == down_sample_ratio,
            forall|i: int| 0 <= i < c@.len() ==> r.coeff_rev@[i] == c@[c@.len() - 1 - i],
            r.initial_state@ == Seq::new((c@.len() - 1) as nat, |i: int| cfromu(0)),
    {
        let tap = c.len();
        let mut coeff_rev: Vec<Complex64> = Vec::new();
        for i in 0..tap
            invariant
                tap == c@.len(),
                coeff_rev@.len() == i,
                forall|j: int| 0 <= j < i ==> coeff_rev@[j] == c@[tap - 1 - j],
        {
            coeff_rev.push(c[tap - 1 - i]);
        }
        let mut initial_state: Vec<Complex64> = Vec::new();
        for i in 0..tap - 1
            invariant
                initial_state@.len() == i,
                forall|j: int| 0 <= j < i ==> initial_state@[j] == cfromu(0),
        {
            initial_state.push(cx_from_usize(0));
        }
        let r = DownSampler { coeff_rev, initial_state, down_sample_ratio };
        assert(r.initial_state@ =~= Seq::new((c@.len() - 1) as nat, |i: int| cfromu(0)));
        r
    }

    /// Filter and decimate: append `input` to the carried state, emit the
    /// dot product of every `tap`-wide window that starts at a multiple of
    /// the ratio, and carry the unconsumed tail forward.
    pub fn downsample(&mut self, input: &[Complex64]) -> (r: Vec<Complex64>)
        requires
            old(self).wf(),
            old(self).initial_state@.len() + input@.len() <= usize::MAX,
        ensures
            final(self).wf(),
            final(self).coeff_rev == old(self).coeff_rev,
            final(self).down_sample_ratio == old(self).down_sample_ratio,
            ({
                let ext = old(self).initial_state@ + input@;
                let tap = old(self).tap_spec();
                let ratio = old(self).down_sample_ratio as int;
                let noutput = (ext.len() - (tap - 1)) as int / ratio;
                &&& r@.len() == noutput
                &&& forall|j: int|
                    0 <= j < noutput ==> r@[j] == win_dot(
                        ext,
                        old(self).coeff_rev@,
                        j * ratio,
                        tap - 1,
                    )
                &&& final(self).initial_state@ == ext.skip(noutput * ratio)
            }),
    {
        let tap = self.coeff_rev.len();
        let ratio = self.down_sample_ratio;
        let mut ext = copy_within(&self.initial_state, 0, self.initial_state.len());
        for i in 0..input.len()
            invariant
                ext@.len() == self.initial_state@.len() + i,
                self == old(self),
                i <= input@.len(),
                self.initial_state@.len() + input@.len() <= usize::MAX,
                forall|j: int|
                    0 <= j < ext@.len() ==> ext@[j] == (self.initial_state@ + input@)[j],
        {
            ext.push(input[i]);
        }
        let ghost extg = old(self).initial_state@ + input@;
        assert(ext@ =~= extg);
        let avail = ext.len() - (tap - 1);
        let noutput = avail / ratio;
        proof {
            lemma_fundamental_div_mod(avail as int, ratio as int);
            lemma_mod_division_less_than_divisor(avail as int, ratio as int);
            assert(noutput * ratio == ratio * noutput) by (nonlinear_arith);
            assert(0 <= noutput * ratio <= avail);
        }
        let mut out: Vec<Complex64> = Vec::new();
        for j in 0..noutput
            invariant
                tap == self.coeff_rev@.len(),
                tap >= 1,
                ratio == self.down_sample_ratio,
                ratio >= 1,
                self == old(self),
                ext@ == extg,
                avail == ext@.len() - (tap - 1),
                ext@.len() <= usize::MAX,
                noutput == avail as int / ratio as int,
                noutput * ratio <= avail,
                out@.len() == j,
                forall|j2: int|
                    0 <= j2 < j ==> out@[j2] == win_dot(
                        extg,
                        self.coeff_rev@,
                        j2 * (ratio as int),
                        tap - 1,
                    ),
        {
            proof {
                assert((j + 1) * ratio <= noutput * ratio) by (nonlinear_arith)
                    requires
                        0 <= j < noutput,
                        ratio >= 1,
                ;
                assert(j * ratio + ratio == (j + 1) * ratio) by (nonlinear_arith);
            }
            let start = j * ratio;
            let mut acc = cx_from_usize(0);
            acc = cx_add(acc, cx_scale(ext[start], self.coeff_rev[0]));
            assert(acc == win_dot(extg, self.coeff_rev@, start as int, 0));
            for t in 1..tap
                invariant
                    tap == self.coeff_rev@.len(),
                    self == old(self),
                    ext@ == extg,
                    avail == ext@.len() - (tap - 1),
                    ext@.len() <= usize::MAX,
                    start + tap - 1 < ext@.len(),
                    acc == win_dot(extg, self.coeff_rev@, start as int, t - 1),
            {
                acc = cx_add(acc, cx_scale(ext[start + t], self.coeff_rev[t]));
            }
            out.push(acc);
        }
        let consumed = noutput * ratio;
        let tail = copy_within(&ext, consumed, ext.len());
        self.initial_state = tail;
        proof {
            assert(self.initial_state@ =~= extg.skip((noutput * ratio) as int));
        }
        out
    }
}

/// Plain decimation: keep every `ratio`-th sample of the carried stream.
pub struct DirectDownSampler {
    /// The carried tail of the stream.
    pub initial_state: Vec<Complex64>,
    /// Keep one sample out of this many.
    pub down_sample_ratio: usize,
}

impl DirectDownSampler {
    /// A positive ratio.
    pub open spec fn wf(self) -> bool {
        self.down_sample_ratio >= 1
    }

    /// Build a decimator that keeps every `down_sample_ratio`-th sample.
    pub fn new(down_sample_ratio: usize) -> (r: DirectDownSampler)
        requires
            down_sample_ratio >= 1,
        ensures
            r.wf(),
            r.down_sample_ratio == down_sample_ratio,
            r.initial_state@ == Seq::<Complex64>::empty(),
    {
        let r = DirectDownSampler { initial_state: Vec::new(), down_sample_ratio };
        assert(r.initial_state@ =~= Seq::<Complex64>::empty());
        r
    }

    /// Append `input` to the carried stream, emit the samples at indices
    /// `0, ratio, 2*ratio, ...`, and carry forward what follows the last
    /// whole stride.
    pub fn down_sample(&mut self, input: &[Complex64]) -> (r: Vec<Complex64>)
        requires
            old(self).wf(),
            old(self).initial_state@.len() + input@.len() + old(self).down_sample_ratio
                <= usize::MAX,
        ensures
            final(self).wf(),
            final(self).down_sample_ratio == old(self).down_sample_ratio,
            ({
                let ext = old(self).initial_state@ + input@;
                let ratio = old(self).down_sample_ratio as int;
                &&& r@.len() == (ext.len() + ratio - 1) as int / ratio
                &&& forall|j: int| 0 <= j < r@.len() ==> r@[j] == ext[j * ratio]
                &&& final(self).initial_state@ == ext.skip((ext.len() as int / ratio) * ratio)
            }),
    {
        let ratio = self.down_sample_ratio;
        let mut ext = copy_within(&self.initial_state, 0, self.initial_state.len());
        for i in 0..input.len()
            invariant
                ext@.len() == self.initial_state@.len() + i,
                self == old(self),
                i <= input@.len(),
                self.initial_state@.len() + input@.len() + self.down_sample_ratio <= usize::MAX,
                forall|j: int|
                    0 <= j < ext@.len() ==> ext@[j] == (self.initial_state@ + input@)[j],
        {
            ext.push(input[i]);
        }
        let ghost extg = old(self).initial_state@ + input@;
        assert(ext@ =~= extg);
        let len = ext.len();
        let mut out: Vec<Complex64> = Vec::new();
        let mut idx: usize = 0;
        proof {
            assert(out@.len() * ratio == 0) by (nonlinear_arith)
                requires
                    out@.len() == 0,
            ;
        }
        while idx < len
            invariant
                ratio == self.down_sample_ratio,
                ratio >= 1,
                self == old(self),
                ext@ == extg,
                len == ext@.len(),
                len + ratio <= usize::MAX,
                idx == out@.len() * ratio,
                out@.len() >= 1 ==> (out@.len() - 1) * ratio < len,
                forall|j: int| 0 <= j < out@.len() ==> out@[j] == extg[j * (ratio as int)],
            decreases len + ratio - idx,
        {
            out.push(ext[idx]);
            proof {
                assert((out@.len() - 1) * ratio + ratio == out@.len() * ratio) by (nonlinear_arith);
            }
            idx = idx + ratio;
        }
        proof {
            let n = out@.len() as int;
            let rt = ratio as int;
            assert(idx == n * rt);
            if n >= 1 {
                assert((n - 1) * rt < len);
                assert(len + rt - 1 == n * rt + (len + rt - 1 - n * rt));
                assert(0 <= len + rt - 1 - n * rt < rt) by (nonlinear_arith)
                    requires
                        (n - 1) * rt < len,
                        len <= n * rt,
                        rt >= 1,
                ;
                lemma_fundamental_div_mod_converse(len + rt - 1, rt, n, len + rt - 1 - n * rt);
            } else {
                assert(len == 0);
                assert(len + rt - 1 == 0 * rt + (rt - 1)) by (nonlinear_arith)
                    requires
                        len == 0,
                ;
                lemma_fundamental_div_mod_converse(len + rt - 1, rt, 0, rt - 1);
            }
            assert(n == (extg.len() + rt - 1) as int / rt);
        }
        let noutput = len / ratio;
        proof {
            lemma_fundamental_div_mod(len as int, ratio as int);
            lemma_mod_division_less_than_divisor(len as int, ratio as int);
            assert(noutput * ratio == ratio * noutput) by (nonlinear_arith);
            assert(0 <= noutput * ratio <= len);
        }
        let consumed = noutput * ratio;
        let tail = copy_within(&ext, consumed, len);
        self.initial_state = tail;
        proof {
            assert(self.initial_state@ =~= extg.skip(((len / ratio) * ratio) as int));
        }
        out
    }
}

} // verus!
