//! The oversampled polyphase filter bank analyzer, oversampling factor 2.
//!
//! Two identical branch banks of width `N = nch_total / 2` run side by side:
//! the even bank sees the raw input, the odd bank sees the input multiplied
//! by a *downward* half-bin shifter (`e^{-i pi n / N}`, period `2N`).  After
//! an `N`-point FFT over each bank's filtered stripes, the odd outputs fill
//! the half-integer channel centres between the even ones.  The interleaved
//! points are rotated by half the channel axis, so the output channels run
//! in centre-frequency order with channel `N` at frequency zero.  The even
//! bank is primed with one zero stripe, giving the half-stripe delay that
//! aligns the two banks' phases.
use vstd::prelude::*;

verus! {

use num::complex::Complex64;
use crate::batch_filter::BatchFilterFixed;
use crate::batch_filter::hist_after;
use crate::batch_filter::time_row;
use crate::cpx::cfromu;
use crate::cpx::cmul;
use crate::cpx::cx_from_usize;
use crate::cpx::cx_mul;
use crate::cspfb::blocks;
use crate::oscillator::HalfChShifter;
use crate::oscillator::half_shift_base;
use crate::utils::copy_within;
use crate::utils::dft_of;
use crate::utils::fft;
use vstd::arithmetic::div_mod::lemma_fundamental_div_mod;
use vstd::arithmetic::div_mod::lemma_mod_division_less_than_divisor;


/// The oversampled analyzer: even and odd branch banks over one leftover
/// buffer, plus the persistent half-bin shifter feeding the odd bank.
pub struct Analyzer {
    /// The bank for the even channels; sees the raw input.
    pub filter_even: BatchFilterFixed,
    /// The bank for the odd channels; sees the half-bin-shifted input.
    pub filter_odd: BatchFilterFixed,
    /// Samples that did not fill a whole stripe on the last call.
    pub buffer: Vec<Complex64>,
    /// The downward half-bin shifter; advances once per input sample.
    pub shifter: HalfChShifter,
}

impl Analyzer {
    /// Branch width `N`: half the channel count.
    pub open spec fn nch_each(self) -> int {
        self.filter_even.nch_spec()
    }

    /// Total number of output channels.
    pub open spec fn nch_total_spec(self) -> int {
        2 * self.nch_each()
    }

    /// The banks' shared coefficient table.
    pub open spec fn coeffs(self) -> Seq<Seq<Complex64>> {
        self.filter_even.coeffs()
    }

    /// The buffered leftover samples.
    pub open spec fn leftover(self) -> Seq<Complex64> {
        self.buffer@
    }

    /// Two equal-shaped banks with one coefficient table, a leftover shorter
    /// than a stripe, and a shifter of period `2N`.
    pub open spec fn wf(self) -> bool {
        &&& self.filter_even.wf()
        &&& self.filter_odd.wf()
        &&& self.filter_odd.coeffs() == self.filter_even.coeffs()
        &&& self.filter_odd.nch_spec() == self.filter_even.nch_spec()
        &&& self.filter_odd.tap_spec() == self.filter_even.tap_spec()
        &&& self.buffer@.len() < self.nch_each()
        &&& self.shifter.wf()
        &&& self.shifter.nch == self.nch_each()
    }

    /// The stream a call on `sig` works through: leftover first.
    pub open spec fn stream(self, sig: Seq<Complex64>) -> Seq<Complex64> {
        self.leftover() + sig
    }

    /// Number of output columns a call on `sig` produces.
    pub open spec fn out_len(self, sig: Seq<Complex64>) -> int {
        blocks(self.stream(sig), self.nch_each())
    }

    /// The shifter factor applied to the `i`-th sample of a call's stream.
    pub open spec fn factor_at(self, i: int) -> Complex64 {
        self.shifter.factor@[(self.shifter.idx + i) % self.shifter.period()]
    }

    /// The call's stream as the odd bank sees it: each sample multiplied by
    /// the next shifter factor.
    pub open spec fn shifted_stream(self, sig: Seq<Complex64>) -> Seq<Complex64> {
        Seq::new(self.stream(sig).len(), |i: int| cmul(self.stream(sig)[i], self.factor_at(i)))
    }

    /// The leftover after a call on `sig`.
    pub open spec fn after_leftover(self, sig: Seq<Complex64>) -> Seq<Complex64> {
        self.stream(sig).skip(self.out_len(sig) * self.nch_each())
    }

    /// The even bank's delay line after a call on `sig`.
    pub open spec fn after_history_even(self, sig: Seq<Complex64>) -> Seq<Seq<Complex64>> {
        hist_after(self.filter_even.history(), self.stream(sig), self.nch_each(), self.out_len(sig))
    }

    /// The odd bank's delay line after a call on `sig`.
    pub open spec fn after_history_odd(self, sig: Seq<Complex64>) -> Seq<Seq<Complex64>> {
        hist_after(
            self.filter_odd.history(),
            self.shifted_stream(sig),
            self.nch_each(),
            self.out_len(sig),
        )
    }

    /// The interleaved bank point that output channel `ch` shows.  Channels
    /// are in centre-frequency order — channel `N` sits at frequency zero —
    /// so the interleaved bank points are rotated by half the channel axis.
    pub open spec fn plain_ch(self, ch: int) -> int {
        if ch + self.nch_each() < self.nch_total_spec() {
            ch + self.nch_each()
        } else {
            ch + self.nch_each() - self.nch_total_spec()
        }
    }

    /// Output entry at channel `ch`, column `i`: even interleaved points
    /// come from the even bank's DFT, odd ones from the odd bank's.
    pub open spec fn out_entry(self, sig: Seq<Complex64>, ch_out: int, i: int) -> Complex64 {
        let ch = self.plain_ch(ch_out);
        if ch % 2 == 0 {
            dft_of(
                time_row(
                    self.filter_even.history(),
                    self.coeffs(),
                    self.stream(sig),
                    self.nch_each(),
                    i,
                ),
            )[ch / 2]
        } else {
            dft_of(
                time_row(
                    self.filter_odd.history(),
                    self.coeffs(),
                    self.shifted_stream(sig),
                    self.nch_each(),
                    i,
                ),
            )[ch / 2]
        }
    }

    /// Build an analyzer with `nch_total` channels from a prototype filter
    /// of `(nch_total / 2) * tap` coefficients.  Both banks get the same
    /// table; the even bank is primed with one zero stripe; the shifter
    /// shifts downward.
    pub fn new(nch_total: usize, coeff: &[Complex64]) -> (r: Analyzer)
        requires
            nch_total % 2 == 0,
            nch_total >= 2,
            nch_total <= 0x8000_0000,
            coeff@.len() >= nch_total / 2,
            coeff@.len() as int % (nch_total as int / 2) == 0,
        ensures
            r.wf(),
            r.nch_each() == nch_total / 2,
            r.nch_total_spec() == nch_total,
            r.filter_even.tap_spec() == coeff@.len() as int / (nch_total as int / 2),
            r.leftover() == Seq::<Complex64>::empty(),
            forall|t: int|
                0 <= t < r.filter_even.tap_spec() ==> r.filter_even.history()[t] == Seq::new(
                    (nch_total / 2) as nat,
                    |b: int| cfromu(0),
                ),
            forall|t: int|
                0 <= t < r.filter_odd.tap_spec() ==> r.filter_odd.history()[t] == Seq::new(
                    (nch_total / 2) as nat,
                    |b: int| cfromu(0),
                ),
            forall|t: int, b: int|
                0 <= t < r.filter_even.tap_spec() && 0 <= b < nch_total / 2 ==> r.coeffs()[t][b]
                    == coeff@[(r.filter_even.tap_spec() - 1 - t) * (nch_total as int / 2) + b],
            r.shifter.idx == 0,
            r.shifter.nch == nch_total / 2,
            forall|i: int|
                0 <= i < 2 * (nch_total / 2) ==> r.shifter.factor@[i] == crate::cpx::cpow(
                    half_shift_base(nch_total as int / 2, false),
                    i,
                ),
    {
        let n = nch_total / 2;
        let filter_even = BatchFilterFixed::from_prototype(n, coeff);
        let filter_odd = BatchFilterFixed::from_prototype(n, coeff);
        let shifter = HalfChShifter::new(n, false);
        let mut r = Analyzer { filter_even, filter_odd, buffer: Vec::new(), shifter };
        let mut zeros: Vec<Complex64> = Vec::new();
        for b in 0..n
            invariant
                zeros@.len() == b,
                forall|j: int| 0 <= j < b ==> zeros@[j] == cfromu(0),
        {
            zeros.push(cx_from_usize(0));
        }
        let ghost pre = r.filter_even.history();
        r.filter_even.feed(zeros.as_slice());
        proof {
            let zrow = Seq::new(n as nat, |b: int| cfromu(0));
            assert(zeros@ =~= zrow);
            assert forall|t: int| 0 <= t < r.filter_even.tap_spec() implies r.filter_even.history()[
                t
            ] == zrow by {
                if t < r.filter_even.tap_spec() - 1 {
                    assert(r.filter_even.history()[t] == pre[t + 1]);
                }
            }
            assert(r.leftover() =~= Seq::<Complex64>::empty());
            assert forall|t: int|
                0 <= t < r.filter_odd.coeffs().len() implies r.filter_odd.coeffs()[t]
                =~= r.filter_even.coeffs()[t] by {}
            assert(r.filter_odd.coeffs() =~= r.filter_even.coeffs());
        }
        r
    }

    /// Total number of channels, as a run-time value.
    pub fn nch_total(&self) -> (r: usize)
        requires
            self.wf(),
            self.nch_total_spec() <= usize::MAX,
        ensures
            r == self.nch_total_spec(),
    {
        self.filter_even.coeff[0].len() * 2
    }

    /// How many output columns a call with `input_len` samples would produce.
    pub fn predict_output_length(&self, input_len: usize) -> (r: usize)
        requires
            self.wf(),
            self.leftover().len() + input_len <= usize::MAX,
        ensures
            r == (self.leftover().len() + input_len) as int / self.nch_each(),
    {
        (self.buffer.len() + input_len) / self.filter_even.coeff[0].len()
    }

    /// Prepend the leftover to `input_signal`, return all full stripes, and
    /// keep what is left as the new leftover.  Banks and shifter untouched.
    pub fn buffer_input(&mut self, input_signal: &[Complex64]) -> (r: Vec<Complex64>)
        requires
            old(self).wf(),
            old(self).leftover().len() + input_signal@.len() <= usize::MAX,
        ensures
            final(self).wf(),
            final(self).filter_even == old(self).filter_even,
            final(self).filter_odd == old(self).filter_odd,
            final(self).shifter == old(self).shifter,
            r@ == old(self).stream(input_signal@).take(
                old(self).out_len(input_signal@) * old(self).nch_each(),
            ),
            final(self).leftover() == old(self).after_leftover(input_signal@),
    {
        let nch = self.filter_even.coeff[0].len();
        let buf_len = self.buffer.len();
        let total_len = buf_len + input_signal.len();
        let batch = total_len / nch;
        proof {
            lemma_fundamental_div_mod(total_len as int, nch as int);
            lemma_mod_division_less_than_divisor(total_len as int, nch as int);
            assert(batch * nch == nch * batch) by (nonlinear_arith);
        }
        let consumed = batch * nch;
        let ghost total = old(self).stream(input_signal@);
        assert(total.len() == total_len);
        let mut signal: Vec<Complex64> = Vec::new();
        for i in 0..consumed
            invariant
                consumed <= total_len,
                buf_len == self.buffer@.len(),
                total_len == buf_len + input_signal@.len(),
                total == self.buffer@ + input_signal@,
                signal@.len() == i,
                forall|j: int| 0 <= j < i ==> signal@[j] == total[j],
        {
            let x = if i < buf_len {
                self.buffer[i]
            } else {
                input_signal[i - buf_len]
            };
            signal.push(x);
        }
        let mut newbuf: Vec<Complex64> = Vec::new();
        let mut i = consumed;
        while i < total_len
            invariant
                consumed <= i <= total_len,
                buf_len == self.buffer@.len(),
                total_len == buf_len + input_signal@.len(),
                total == self.buffer@ + input_signal@,
                newbuf@.len() == i - consumed,
                forall|j: int| consumed <= j < i ==> newbuf@[j - consumed] == total[j],
            decreases total_len - i,
        {
            let x = if i < buf_len {
                self.buffer[i]
            } else {
                input_signal[i - buf_len]
            };
            newbuf.push(x);
            i = i + 1;
        }
        self.buffer = newbuf;
        proof {
            assert(signal@ =~= total.take(consumed as int));
            assert(self.buffer@ =~= total.skip(consumed as int));
        }
        signal
    }

    /// Channelize: consume every full stripe of `leftover ++ input_signal`;
    /// feed each raw stripe to the even bank and each shifted stripe to the
    /// odd bank; take each bank's `N`-point DFT per stripe; interleave the
    /// two banks' points into `2N` channel rows, one column per stripe.
    pub fn analyze(&mut self, input_signal: &[Complex64]) -> (r: Vec<Vec<Complex64>>)
        requires
            old(self).wf(),
            old(self).leftover().len() + input_signal@.len() <= usize::MAX,
        ensures
            final(self).wf(),
            final(self).coeffs() == old(self).coeffs(),
            final(self).nch_each() == old(self).nch_each(),
            final(self).filter_even.history() == old(self).after_history_even(input_signal@),
            final(self).filter_odd.history() == old(self).after_history_odd(input_signal@),
            final(self).leftover() == old(self).after_leftover(input_signal@),
            final(self).shifter.factor == old(self).shifter.factor,
            final(self).shifter.nch == old(self).shifter.nch,
            final(self).shifter.idx == (old(self).shifter.idx + old(self).out_len(input_signal@)
                * old(self).nch_each()) % old(self).shifter.period(),
            r@.len() == old(self).nch_total_spec(),
            forall|ch: int|
                0 <= ch < r@.len() ==> (#[trigger] r@[ch])@.len() == old(self).out_len(
                    input_signal@,
                ),
            forall|ch: int, i: int|
                0 <= ch < old(self).nch_total_spec() && 0 <= i < old(self).out_len(input_signal@)
                    ==> r@[ch]@[i] == old(self).out_entry(input_signal@, ch, i),
    {
        let ghost total = old(self).stream(input_signal@);
        let ghost shifted_full = old(self).shifted_stream(input_signal@);
        let ghost he0 = old(self).filter_even.history();
        let ghost ho0 = old(self).filter_odd.history();
        let ghost c0 = old(self).coeffs();
        let ghost factor0 = old(self).shifter.factor@;
        let ghost idx0 = old(self).shifter.idx as int;
        let ghost p = old(self).shifter.period();

        let n = self.filter_even.coeff[0].len();
        let signal = self.buffer_input(input_signal);
        let l = signal.len() / n;
        proof {
            let lg = old(self).out_len(input_signal@);
            lemma_fundamental_div_mod(total.len() as int, n as int);
            lemma_mod_division_less_than_divisor(total.len() as int, n as int);
            assert(lg * n == n * lg) by (nonlinear_arith);
            assert(0 <= lg * n <= total.len());
            assert(signal@.len() == lg * n);
            vstd::arithmetic::div_mod::lemma_div_by_multiple(lg, n as int);
            assert(l == lg);
        }
        let consumed = signal.len();
        let ghost fe1 = self.filter_even;
        let ghost fo1 = self.filter_odd;
        let ghost buf1 = self.buffer@;

        proof {
            vstd::arithmetic::div_mod::lemma_small_mod(idx0 as nat, p as nat);
        }
        let mut shifted: Vec<Complex64> = Vec::new();
        for i in 0..consumed
            invariant
                self.wf(),
                self.filter_even == fe1,
                self.filter_odd == fo1,
                self.buffer@ == buf1,
                self.shifter.factor == old(self).shifter.factor,
                self.shifter.factor@ == factor0,
                self.shifter.nch == old(self).shifter.nch,
                p == self.shifter.period(),
                0 <= idx0 < p,
                self.shifter.idx == (idx0 + i) % p,
                consumed == signal@.len(),
                consumed <= total.len(),
                signal@ == total.take(consumed as int),
                shifted_full.len() == total.len(),
                forall|j: int|
                    0 <= j < total.len() ==> shifted_full[j] == cmul(
                        total[j],
                        factor0[(idx0 + j) % p],
                    ),
                shifted@.len() == i,
                forall|j: int| 0 <= j < i ==> shifted@[j] == shifted_full[j],
        {
            proof {
                lemma_mod_division_less_than_divisor(idx0 + i, p);
                crate::utils::lemma_cyclic_step(idx0 + i, p);
            }
            let f = self.shifter.get();
            shifted.push(cx_mul(signal[i], f));
        }
        let ghost sh1 = self.shifter;

        let mut freq_e: Vec<Vec<Complex64>> = Vec::new();
        let mut freq_o: Vec<Vec<Complex64>> = Vec::new();
        for i in 0..l
            invariant
                self.wf(),
                n == self.nch_each(),
                self.buffer@ == buf1,
                self.shifter == sh1,
                self.filter_even.coeffs() == c0,
                self.filter_odd.coeffs() == c0,
                self.filter_even.tap_spec() == fe1.tap_spec(),
                self.filter_odd.tap_spec() == fo1.tap_spec(),
                l * n == signal@.len(),
                l * n <= usize::MAX,
                l * n <= total.len(),
                consumed == signal@.len(),
                signal@ == total.take((l * n) as int),
                shifted@.len() == consumed,
                shifted_full.len() == total.len(),
                forall|j: int| 0 <= j < consumed ==> shifted@[j] == shifted_full[j],
                self.filter_even.history() == hist_after(he0, total, n as int, i as int),
                self.filter_odd.history() == hist_after(ho0, shifted_full, n as int, i as int),
                freq_e@.len() == i,
                freq_o@.len() == i,
                forall|j: int| 0 <= j < i ==> (#[trigger] freq_e@[j])@.len() == n,
                forall|j: int| 0 <= j < i ==> (#[trigger] freq_o@[j])@.len() == n,
                forall|j: int|
                    0 <= j < i ==> (#[trigger] freq_e@[j])@ == dft_of(
                        time_row(he0, c0, total, n as int, j),
                    ),
                forall|j: int|
                    0 <= j < i ==> (#[trigger] freq_o@[j])@ == dft_of(
                        time_row(ho0, c0, shifted_full, n as int, j),
                    ),
        {
            proof {
                assert((i + 1) * n <= l * n) by (nonlinear_arith)
                    requires
                        0 <= i < l,
                        n >= 1,
                ;
                assert(i * n + n == (i + 1) * n) by (nonlinear_arith);
            }
            let start = i * n;
            let stripe_e = copy_within(&signal, start, start + n);
            let stripe_o = copy_within(&shifted, start, start + n);
            proof {
                assert forall|k: int| 0 <= k < n implies stripe_e@[k] == total[start + k] by {
                    assert(stripe_e@[k] == signal@[start + k]);
                    assert(total.take(((l * n) as usize) as int)[start + k] == total[start + k]);
                }
                assert(stripe_e@ =~= total.subrange(i as int * n, (i + 1) * n));
                assert forall|k: int| 0 <= k < n implies stripe_o@[k] == shifted_full[start
                    + k] by {
                    assert(stripe_o@[k] == shifted@[start + k]);
                }
                assert(stripe_o@ =~= shifted_full.subrange(i as int * n, (i + 1) * n));
            }
            let ye = self.filter_even.filter(stripe_e.as_slice());
            let yo = self.filter_odd.filter(stripe_o.as_slice());
            proof {
                assert(self.filter_even.history() == hist_after(he0, total, n as int, i + 1));
                assert(self.filter_odd.history() == hist_after(
                    ho0,
                    shifted_full,
                    n as int,
                    i + 1,
                ));
                assert(ye@ == time_row(he0, c0, total, n as int, i as int));
                assert(yo@ == time_row(ho0, c0, shifted_full, n as int, i as int));
            }
            let ze = fft(ye.as_slice());
            let zo = fft(yo.as_slice());
            freq_e.push(ze);
            freq_o.push(zo);
        }

        let nch_total = 2 * n;
        let mut result: Vec<Vec<Complex64>> = Vec::new();
        for ch_out in 0..nch_total
            invariant
                nch_total == 2 * n,
                l == old(self).out_len(input_signal@),
                freq_e@.len() == l,
                freq_o@.len() == l,
                forall|j: int| 0 <= j < l ==> (#[trigger] freq_e@[j])@.len() == n,
                forall|j: int| 0 <= j < l ==> (#[trigger] freq_o@[j])@.len() == n,
                forall|j: int|
                    0 <= j < l ==> (#[trigger] freq_e@[j])@ == dft_of(
                        time_row(he0, c0, total, n as int, j),
                    ),
                forall|j: int|
                    0 <= j < l ==> (#[trigger] freq_o@[j])@ == dft_of(
                        time_row(ho0, c0, shifted_full, n as int, j),
                    ),
                result@.len() == ch_out,
                forall|c: int| 0 <= c < ch_out ==> (#[trigger] result@[c])@.len() == l,
                forall|c: int, j: int|
                    0 <= c < ch_out && 0 <= j < l && old(self).plain_ch(c) % 2 == 0
                        ==> result@[c]@[j] == dft_of(
                        time_row(he0, c0, total, n as int, j),
                    )[old(self).plain_ch(c) / 2],
                forall|c: int, j: int|
                    0 <= c < ch_out && 0 <= j < l && old(self).plain_ch(c) % 2 == 1
                        ==> result@[c]@[j] == dft_of(
                        time_row(ho0, c0, shifted_full, n as int, j),
                    )[old(self).plain_ch(c) / 2],
                old(self).nch_each() == n,
                old(self).nch_total_spec() == nch_total,
                n <= 0x4000_0000,
        {
            let ch = if ch_out + n < nch_total {
                ch_out + n
            } else {
                ch_out + n - nch_total
            };
            assert(ch == old(self).plain_ch(ch_out as int));
            let k = ch / 2;
            let even = ch % 2 == 0;
            let mut rowv: Vec<Complex64> = Vec::new();
            for i in 0..l
                invariant
                    nch_total == 2 * n,
                    ch < nch_total,
                    k == ch / 2,
                    k < n,
                    even == (ch % 2 == 0),
                    freq_e@.len() == l,
                    freq_o@.len() == l,
                    forall|j: int| 0 <= j < l ==> (#[trigger] freq_e@[j])@.len() == n,
                    forall|j: int| 0 <= j < l ==> (#[trigger] freq_o@[j])@.len() == n,
                    forall|j: int|
                        0 <= j < l ==> (#[trigger] freq_e@[j])@ == dft_of(
                            time_row(he0, c0, total, n as int, j),
                        ),
                    forall|j: int|
                        0 <= j < l ==> (#[trigger] freq_o@[j])@ == dft_of(
                            time_row(ho0, c0, shifted_full, n as int, j),
                        ),
                    rowv@.len() == i,
                    even ==> forall|j: int|
                        0 <= j < i ==> rowv@[j] == dft_of(
                            time_row(he0, c0, total, n as int, j),
                        )[k as int],
                    !even ==> forall|j: int|
                        0 <= j < i ==> rowv@[j] == dft_of(
                            time_row(ho0, c0, shifted_full, n as int, j),
                        )[k as int],
            {
                if even {
                    rowv.push(freq_e[i][k]);
                } else {
                    rowv.push(freq_o[i][k]);
                }
            }
            result.push(rowv);
        }
        result
    }

    /// `analyze`, kept under the name the parallel evaluation goes by: the
    /// contract fixes the serial order, so this computes sequentially.
    pub fn analyze_par(&mut self, input_signal: &[Complex64]) -> (r: Vec<Vec<Complex64>>)
        requires
            old(self).wf(),
            old(self).leftover().len() + input_signal@.len() <= usize::MAX,
        ensures
            final(self).wf(),
            final(self).coeffs() == old(self).coeffs(),
            final(self).nch_each() == old(self).nch_each(),
            final(self).filter_even.history() == old(self).after_history_even(input_signal@),
            final(self).filter_odd.history() == old(self).after_history_odd(input_signal@),
            final(self).leftover() == old(self).after_leftover(input_signal@),
            final(self).shifter.factor == old(self).shifter.factor,
            final(self).shifter.nch == old(self).shifter.nch,
            final(self).shifter.idx == (old(self).shifter.idx + old(self).out_len(input_signal@)
                * old(self).nch_each()) % old(self).shifter.period(),
            r@.len() == old(self).nch_total_spec(),
            forall|ch: int|
                0 <= ch < r@.len() ==> (#[trigger] r@[ch])@.len() == old(self).out_len(
                    input_signal@,
                ),
            forall|ch: int, i: int|
                0 <= ch < old(self).nch_total_spec() && 0 <= i < old(self).out_len(input_signal@)
                    ==> r@[ch]@[i] == old(self).out_entry(input_signal@, ch, i),
    {
        self.analyze(input_signal)
    }

    /// Streaming law helper: see [`lemma_os_analyze_streaming`].
    pub open spec fn is_state_after(self, pre: Analyzer, sig: Seq<Complex64>) -> bool {
        &&& self.nch_each() == pre.nch_each()
        &&& self.coeffs() == pre.coeffs()
        &&& self.filter_even.history() == pre.after_history_even(sig)
        &&& self.filter_odd.history() == pre.after_history_odd(sig)
        &&& self.leftover() == pre.after_leftover(sig)
        &&& self.shifter.factor@ == pre.shifter.factor@
        &&& self.shifter.nch == pre.shifter.nch
        &&& self.shifter.idx == (pre.shifter.idx + pre.out_len(sig) * pre.nch_each())
            % pre.shifter.period()
    }
}

/// **Streaming equivalence**, oversampled stage.  Analyzing a stream in two
/// calls yields, column for column, exactly what one call on the whole
/// stream yields, and leaves the analyzer in exactly the same state — for
/// *any* split of the stream.
///
/// `pre` is an analyzer about to receive `s1 ++ s2`; `mid` stands for the
/// state `analyze` promises after a first call on `s1` (see
/// [`Analyzer::is_state_after`]).  The first `pre.out_len(s1)` columns of
/// the one-call result equal the first call's columns; the remaining
/// `mid.out_len(s2)` columns equal the second call's columns; and the state
/// after one call on the whole stream is the state after the two calls.
pub proof fn lemma_os_analyze_streaming(pre: Analyzer, mid: Analyzer, s1: Seq<Complex64>, s2: Seq<
    Complex64,
>)
    requires
        pre.wf(),
        mid.is_state_after(pre, s1),
    ensures
        pre.out_len(s1 + s2) == pre.out_len(s1) + mid.out_len(s2),
        forall|ch: int, i: int|
            0 <= ch && 0 <= i < pre.out_len(s1) ==> pre.out_entry(s1 + s2, ch, i)
                == pre.out_entry(s1, ch, i),
        forall|ch: int, i: int|
            0 <= ch && 0 <= i < mid.out_len(s2) ==> pre.out_entry(s1 + s2, ch, pre.out_len(s1)
                + i) == mid.out_entry(s2, ch, i),
        pre.after_history_even(s1 + s2) == mid.after_history_even(s2),
        pre.after_history_odd(s1 + s2) == mid.after_history_odd(s2),
        pre.after_leftover(s1 + s2) == mid.after_leftover(s2),
        (pre.shifter.idx + pre.out_len(s1 + s2) * pre.nch_each()) % pre.shifter.period() == (
        mid.shifter.idx + mid.out_len(s2) * mid.nch_each()) % mid.shifter.period(),
{
    let n = pre.nch_each();
    let p = pre.shifter.period();
    let he0 = pre.filter_even.history();
    let ho0 = pre.filter_odd.history();
    let t1 = pre.stream(s1);
    let l1 = crate::cspfb::blocks(t1, n);
    let t2 = mid.stream(s2);
    let l2 = crate::cspfb::blocks(t2, n);
    let t = pre.stream(s1 + s2);
    let l = crate::cspfb::blocks(t, n);
    let u1 = pre.shifted_stream(s1);
    let u = pre.shifted_stream(s1 + s2);
    let u2 = mid.shifted_stream(s2);
    let idx0 = pre.shifter.idx as int;

    lemma_fundamental_div_mod(t1.len() as int, n);
    lemma_mod_division_less_than_divisor(t1.len() as int, n);
    assert(l1 * n == n * l1) by (nonlinear_arith);
    assert(0 <= l1 * n <= t1.len());
    lemma_fundamental_div_mod(t2.len() as int, n);
    lemma_mod_division_less_than_divisor(t2.len() as int, n);
    assert(l2 * n == n * l2) by (nonlinear_arith);
    assert(0 <= l2 * n <= t2.len());

    assert(t =~= t1 + s2);
    assert(t2 =~= t.skip(l1 * n));
    assert(t2.len() + l1 * n == t.len());
    assert(l == l1 + l2) by {
        vstd::arithmetic::div_mod::lemma_hoist_over_denominator(t2.len() as int, l1, n as nat);
        assert(t2.len() as int / n + l1 == (t2.len() + l1 * n) as int / n);
    }
    assert((l1 + l2) * n == l1 * n + l2 * n) by (nonlinear_arith);
    assert(0 <= l * n <= t.len());

    // The shifted streams agree: `u` starts like `u1` and continues, from
    // sample `l1 * n` on, like `u2` read with the advanced cursor.
    assert forall|i: int| 0 <= i < t1.len() implies u[i] == u1[i] by {}
    assert forall|j: int| 0 <= j < t2.len() implies u[l1 * n + j] == u2[j] by {
        vstd::arithmetic::div_mod::lemma_add_mod_noop_right(j, idx0 + l1 * n, p);
        assert((mid.shifter.idx + j) % p == (idx0 + l1 * n + j) % p);
        assert(t[l1 * n + j] == t2[j]);
    }
    assert(u =~= u1.take(l1 * n) + u.skip(l1 * n));
    assert(u.skip(l1 * n) =~= u2.take(t2.len() as int));

    // Even bank: same stripes as the one-call stream.
    assert forall|k: int| 1 <= k <= l1 implies #[trigger] hist_after(he0, t, n, k)
        == hist_after(he0, t1, n, k) by {
        assert(k * n <= l1 * n) by (nonlinear_arith)
            requires
                1 <= k <= l1,
                n >= 1,
        ;
        crate::cspfb::lemma_hist_after_prefix(he0, t1, s2, n, k);
    }
    // Odd bank: same, over the shifted stream.
    assert forall|k: int| 1 <= k <= l1 implies #[trigger] hist_after(ho0, u, n, k)
        == hist_after(ho0, u1, n, k) by {
        assert(k * n <= l1 * n) by (nonlinear_arith)
            requires
                1 <= k <= l1,
                n >= 1,
        ;
        assert(u =~= u1 + u.skip(t1.len() as int));
        crate::cspfb::lemma_hist_after_prefix(ho0, u1, u.skip(t1.len() as int), n, k);
    }

    // First-call columns agree.
    assert forall|ch: int, i: int| 0 <= ch && 0 <= i < l1 implies pre.out_entry(s1 + s2, ch, i)
        == pre.out_entry(s1, ch, i) by {
        assert(hist_after(he0, t, n, i + 1) == hist_after(he0, t1, n, i + 1));
        assert(hist_after(ho0, u, n, i + 1) == hist_after(ho0, u1, n, i + 1));
    }

    assert(hist_after(he0, t, n, l1) == mid.filter_even.history());
    assert(hist_after(ho0, u, n, l1) == mid.filter_odd.history());

    // Second-call columns agree.
    assert forall|ch: int, i: int| 0 <= ch && 0 <= i < l2 implies pre.out_entry(
        s1 + s2,
        ch,
        l1 + i,
    ) == mid.out_entry(s2, ch, i) by {
        assert((l1 + i + 1) * n <= (l1 + l2) * n) by (nonlinear_arith)
            requires
                0 <= i < l2,
                0 <= l1,
                n >= 1,
        ;
        crate::cspfb::lemma_hist_after_chain(he0, t, n, l1, i + 1);
        crate::cspfb::lemma_hist_after_chain(ho0, u, n, l1, i + 1);
        assert(hist_after(hist_after(ho0, u, n, l1), u.skip(l1 * n), n, i + 1) == hist_after(
            mid.filter_odd.history(),
            u2,
            n,
            i + 1,
        )) by {
            assert((i + 1) * n <= l2 * n) by (nonlinear_arith)
                requires
                    0 <= i < l2,
                    n >= 1,
            ;
            assert(u2 =~= u2.take(t2.len() as int) + u2.skip(t2.len() as int));
            crate::cspfb::lemma_hist_after_prefix(
                mid.filter_odd.history(),
                u2.take(t2.len() as int),
                u2.skip(t2.len() as int),
                n,
                i + 1,
            );
        }
    }

    // The final delay lines, leftover and cursor agree.
    crate::cspfb::lemma_hist_after_chain(he0, t, n, l1, l2);
    crate::cspfb::lemma_hist_after_chain(ho0, u, n, l1, l2);
    assert(hist_after(hist_after(ho0, u, n, l1), u.skip(l1 * n), n, l2) == hist_after(
        mid.filter_odd.history(),
        u2,
        n,
        l2,
    )) by {
        assert(u2 =~= u2.take(t2.len() as int) + u2.skip(t2.len() as int));
        crate::cspfb::lemma_hist_after_prefix(
            mid.filter_odd.history(),
            u2.take(t2.len() as int),
            u2.skip(t2.len() as int),
            n,
            l2,
        );
    }
    assert(pre.after_leftover(s1 + s2) =~= mid.after_leftover(s2));
    assert((mid.shifter.idx + l2 * n) % p == (idx0 + l * n) % p) by {
        vstd::arithmetic::div_mod::lemma_add_mod_noop_right(l2 * n, idx0 + l1 * n, p);
        assert((mid.shifter.idx + l2 * n) % p == (idx0 + l1 * n + l2 * n) % p);
    }
}

} // verus!
