//! The critically sampled polyphase filter bank analyzer: input samples are
//! buffered into stripes of width `nch`, each stripe runs through the branch
//! FIR bank, and an `nch`-point forward FFT across the branches turns each
//! filtered stripe into one output column.  Channels are rows of the result.
use vstd::prelude::*;

verus! {

use num::complex::Complex64;
use crate::batch_filter::BatchFilterFixed;
use crate::batch_filter::hist_after;
use crate::batch_filter::time_row;
use crate::cpx::cfromu;
use crate::utils::copy_within;
use crate::utils::dft_of;
use crate::utils::fft;
use vstd::arithmetic::div_mod::lemma_fundamental_div_mod;
use vstd::arithmetic::div_mod::lemma_mod_division_less_than_divisor;

/// How many full stripes of width `nch` the stream `total` holds.
pub open spec fn blocks(total: Seq<Complex64>, nch: int) -> int {
    total.len() as int / nch
}

/// A critically sampled analyzer: one branch FIR bank plus a leftover buffer
/// so that calls may carry any number of samples.
pub struct Analyzer {
    /// The shared-delay-line FIR bank, one branch per channel.
    pub batch_filter: BatchFilterFixed,
    /// Samples that did not fill a whole stripe on the last call; always
    /// shorter than a stripe.
    pub buffer: Vec<Complex64>,
}

impl Analyzer {
    /// Number of channels.
    pub open spec fn nch_spec(self) -> int {
        self.batch_filter.nch_spec()
    }

    /// Taps per branch.
    pub open spec fn tap_spec(self) -> int {
        self.batch_filter.tap_spec()
    }

    /// The bank's coefficient table.
    pub open spec fn coeffs(self) -> Seq<Seq<Complex64>> {
        self.batch_filter.coeffs()
    }

    /// The bank's delay-line history, oldest stripe first.
    pub open spec fn history(self) -> Seq<Seq<Complex64>> {
        self.batch_filter.history()
    }

    /// The buffered leftover samples.
    pub open spec fn leftover(self) -> Seq<Complex64> {
        self.buffer@
    }

    /// A well-formed bank with a leftover shorter than a stripe.
    pub open spec fn wf(self) -> bool {
        &&& self.batch_filter.wf()
        &&& self.buffer@.len() < self.nch_spec()
    }

    /// The stream a call on `sig` works through: leftover first.
    pub open spec fn stream(self, sig: Seq<Complex64>) -> Seq<Complex64> {
        self.leftover() + sig
    }

    /// Number of output columns a call on `sig` produces.
    pub open spec fn out_len(self, sig: Seq<Complex64>) -> int {
        blocks(self.stream(sig), self.nch_spec())
    }

    /// The leftover after a call on `sig`: what follows the last full stripe.
    pub open spec fn after_leftover(self, sig: Seq<Complex64>) -> Seq<Complex64> {
        self.stream(sig).skip(self.out_len(sig) * self.nch_spec())
    }

    /// The delay-line history after a call on `sig`.
    pub open spec fn after_history(self, sig: Seq<Complex64>) -> Seq<Seq<Complex64>> {
        hist_after(self.history(), self.stream(sig), self.nch_spec(), self.out_len(sig))
    }

    /// Output entry at channel `ch`, column `i`, of a call on `sig`: the
    /// `ch`-th point of the DFT of the bank's `i`-th filtered stripe.
    pub open spec fn out_entry(self, sig: Seq<Complex64>, ch: int, i: int) -> Complex64 {
        dft_of(time_row(self.history(), self.coeffs(), self.stream(sig), self.nch_spec(), i))[ch]
    }

    /// Build an analyzer for `nch` channels from a prototype filter of
    /// `nch * tap` coefficients.  The prototype is reshaped row-major into
    /// `tap` stripes of `nch` coefficients; branch `b` gets the reversed
    /// column `b`.
    pub fn new(nch: usize, coeff: &[Complex64]) -> (r: Analyzer)
        requires
            nch >= 1,
            coeff@.len() >= nch,
            coeff@.len() as int % (nch as int) == 0,
        ensures
            r.wf(),
            r.nch_spec() == nch,
            r.tap_spec() == coeff@.len() as int / nch as int,
            r.leftover() == Seq::<Complex64>::empty(),
            forall|t: int|
                0 <= t < r.tap_spec() ==> r.history()[t] == Seq::new(
                    nch as nat,
                    |b: int| cfromu(0),
                ),
            forall|t: int, b: int|
                0 <= t < r.tap_spec() && 0 <= b < nch ==> r.coeffs()[t][b] == coeff@[(r.tap_spec()
                    - 1 - t) * nch + b],
    {
        let batch_filter = BatchFilterFixed::from_prototype(nch, coeff);
        let r = Analyzer { batch_filter, buffer: Vec::new() };
        proof {
            assert(r.leftover() =~= Seq::<Complex64>::empty());
        }
        r
    }

    /// Number of channels, as a run-time value.
    pub fn nch(&self) -> (r: usize)
        requires
            self.wf(),
        ensures
            r == self.nch_spec(),
    {
        self.batch_filter.coeff[0].len()
    }

    /// How many output columns a call with `input_len` samples would produce.
    pub fn predict_output_length(&self, input_len: usize) -> (r: usize)
        requires
            self.wf(),
            self.leftover().len() + input_len <= usize::MAX,
        ensures
            r == (self.leftover().len() + input_len) as int / self.nch_spec(),
    {
        (self.buffer.len() + input_len) / self.batch_filter.coeff[0].len()
    }

    /// Prepend the leftover to `input_signal`, return all full stripes, and
    /// keep what is left as the new leftover.  The bank itself is untouched.
    pub fn buffer_input(&mut self, input_signal: &[Complex64]) -> (r: Vec<Complex64>)
        requires
            old(self).wf(),
            old(self).leftover().len() + input_signal@.len() <= usize::MAX,
        ensures
            final(self).wf(),
            final(self).batch_filter == old(self).batch_filter,
            r@ == old(self).stream(input_signal@).take(
                old(self).out_len(input_signal@) * old(self).nch_spec(),
            ),
            final(self).leftover() == old(self).after_leftover(input_signal@),
    {
        let nch = self.batch_filter.coeff[0].len();
        let buf_len = self.buffer.len();
        let total_len = buf_len + input_signal.len();
        let batch = total_len / nch;
        proof {
            lemma_fundamental_div_mod(total_len as int, nch as int);
            lemma_mod_division_less_than_divisor(total_len as int, nch as int);
            assert(batch * nch == nch * batch) by (nonlinear_arith);
        }
        let consumed = batch * nch;
        let ghost total = old(self).stream(input_signal@);
        assert(total.len() == total_len);
        let mut signal: Vec<Complex64> = Vec::new();
        for i in 0..consumed
            invariant
                consumed <= total_len,
                buf_len == self.buffer@.len(),
                total_len == buf_len + input_signal@.len(),
                total == self.buffer@ + input_signal@,
                signal@.len() == i,
                forall|j: int| 0 <= j < i ==> signal@[j] == total[j],
        {
            let x = if i < buf_len {
                self.buffer[i]
            } else {
                input_signal[i - buf_len]
            };
            signal.push(x);
        }
        let mut newbuf: Vec<Complex64> = Vec::new();
        let mut i = consumed;
        while i < total_len
            invariant
                consumed <= i <= total_len,
                buf_len == self.buffer@.len(),
                total_len == buf_len + input_signal@.len(),
                total == self.buffer@ + input_signal@,
                newbuf@.len() == i - consumed,
                forall|j: int| consumed <= j < i ==> newbuf@[j - consumed] == total[j],
            decreases total_len - i,
        {
            let x = if i < buf_len {
                self.buffer[i]
            } else {
                input_signal[i - buf_len]
            };
            newbuf.push(x);
            i = i + 1;
        }
        self.buffer = newbuf;
        proof {
            assert(signal@ =~= total.take(consumed as int));
            assert(self.buffer@ =~= total.skip(consumed as int));
        }
        signal
    }

    /// Channelize: consume every full stripe of `leftover ++ input_signal`,
    /// feed each through the bank, take the `nch`-point DFT of each filtered
    /// stripe, and return the transpose — `nch` channel rows, one column per
    /// stripe.  The leftover and the delay line persist across calls.
    pub fn analyze(&mut self, input_signal: &[Complex64]) -> (r: Vec<Vec<Complex64>>)
        requires
            old(self).wf(),
            old(self).leftover().len() + input_signal@.len() <= usize::MAX,
        ensures
            final(self).wf(),
            final(self).coeffs() == old(self).coeffs(),
            final(self).nch_spec() == old(self).nch_spec(),
            final(self).tap_spec() == old(self).tap_spec(),
            final(self).leftover() == old(self).after_leftover(input_signal@),
            final(self).history() == old(self).after_history(input_signal@),
            r@.len() == old(self).nch_spec(),
            forall|ch: int|
                0 <= ch < r@.len() ==> (#[trigger] r@[ch])@.len() == old(self).out_len(
                    input_signal@,
                ),
            forall|ch: int, i: int|
                0 <= ch < old(self).nch_spec() && 0 <= i < old(self).out_len(input_signal@)
                    ==> r@[ch]@[i] == old(self).out_entry(input_signal@, ch, i),
    {
        let ghost total = old(self).stream(input_signal@);
        let ghost h0 = old(self).history();
        let ghost coeff0 = old(self).coeffs();
        let nch = self.batch_filter.coeff[0].len();
        let signal = self.buffer_input(input_signal);
        let l = signal.len() / nch;
        proof {
            let lg = old(self).out_len(input_signal@);
            lemma_fundamental_div_mod(total.len() as int, nch as int);
            lemma_mod_division_less_than_divisor(total.len() as int, nch as int);
            assert(lg * nch == nch * lg) by (nonlinear_arith);
            assert(0 <= lg * nch <= total.len());
            assert(signal@.len() == lg * nch);
            vstd::arithmetic::div_mod::lemma_div_by_multiple(lg, nch as int);
            assert(l == lg);
        }
        assert(l * nch == signal@.len());
        assert(l == old(self).out_len(input_signal@));
        let mut freq: Vec<Vec<Complex64>> = Vec::new();
        for i in 0..l
            invariant
                self.wf(),
                nch == self.nch_spec(),
                l * nch == signal@.len(),
                l * nch <= usize::MAX,
                l * nch <= total.len(),
                l == old(self).out_len(input_signal@),
                signal@ == total.take(l * nch),
                self.buffer@ == old(self).after_leftover(input_signal@),
                self.coeffs() == coeff0,
                self.batch_filter.history() == hist_after(h0, total, nch as int, i as int),
                freq@.len() == i,
                forall|j: int| 0 <= j < i ==> (#[trigger] freq@[j])@.len() == nch,
                forall|j: int|
                    0 <= j < i ==> (#[trigger] freq@[j])@ == dft_of(
                        time_row(h0, coeff0, total, nch as int, j),
                    ),
        {
            proof {
                assert((i + 1) * nch <= l * nch) by (nonlinear_arith)
                    requires
                        0 <= i < l,
                        nch >= 1,
                ;
                assert(i * nch + nch == (i + 1) * nch) by (nonlinear_arith);
            }
            let start = i * nch;
            let stripe = copy_within(&signal, start, start + nch);
            proof {
                assert(stripe@ == signal@.subrange(start as int, start as int + nch));
                assert(stripe@.len() == nch);
                assert(start + nch <= l * nch);
                assert forall|k: int| 0 <= k < nch implies stripe@[k] == total[start + k] by {
                    assert(stripe@[k] == signal@[start + k]);
                    assert(total.take((l * nch) as int)[start + k] == total[start + k]);
                }
                assert(start as int == i as int * nch);
                assert(start as int + nch == (i + 1) * nch);
                assert(stripe@ =~= total.subrange(i as int * nch, (i + 1) * nch));
            }
            let y = self.batch_filter.filter(stripe.as_slice());
            let z = fft(y.as_slice());
            proof {
                assert(self.batch_filter.history() == hist_after(
                    h0,
                    total,
                    nch as int,
                    i + 1,
                ));
                assert(y@ == time_row(h0, coeff0, total, nch as int, i as int));
            }
            freq.push(z);
        }
        let mut result: Vec<Vec<Complex64>> = Vec::new();
        for ch in 0..nch
            invariant
                l == old(self).out_len(input_signal@),
                freq@.len() == l,
                forall|j: int| 0 <= j < l ==> (#[trigger] freq@[j])@.len() == nch,
                forall|j: int|
                    0 <= j < l ==> (#[trigger] freq@[j])@ == dft_of(
                        time_row(h0, coeff0, total, nch as int, j),
                    ),
                result@.len() == ch,
                forall|c: int| 0 <= c < ch ==> (#[trigger] result@[c])@.len() == l,
                forall|c: int, j: int|
                    0 <= c < ch && 0 <= j < l ==> result@[c]@[j] == dft_of(
                        time_row(h0, coeff0, total, nch as int, j),
                    )[c],
        {
            let mut rowv: Vec<Complex64> = Vec::new();
            for i in 0..l
                invariant
                    ch < nch,
                    freq@.len() == l,
                    forall|j: int| 0 <= j < l ==> (#[trigger] freq@[j])@.len() == nch,
                    forall|j: int|
                        0 <= j < l ==> (#[trigger] freq@[j])@ == dft_of(
                            time_row(h0, coeff0, total, nch as int, j),
                        ),
                    rowv@.len() == i,
                    forall|j: int|
                        0 <= j < i ==> rowv@[j] == dft_of(
                            time_row(h0, coeff0, total, nch as int, j),
                        )[ch as int],
            {
                rowv.push(freq[i][ch]);
            }
            result.push(rowv);
        }
        result
    }

    /// `analyze`, kept under the name the parallel evaluation goes by: the
    /// contract fixes the serial order, so this computes sequentially.
    pub fn analyze_par(&mut self, input_signal: &[Complex64]) -> (r: Vec<Vec<Complex64>>)
        requires
            old(self).wf(),
            old(self).leftover().len() + input_signal@.len() <= usize::MAX,
        ensures
            final(self).wf(),
            final(self).coeffs() == old(self).coeffs(),
            final(self).nch_spec() == old(self).nch_spec(),
            final(self).tap_spec() == old(self).tap_spec(),
            final(self).leftover() == old(self).after_leftover(input_signal@),
            final(self).history() == old(self).after_history(input_signal@),
            r@.len() == old(self).nch_spec(),
            forall|ch: int|
                0 <= ch < r@.len() ==> (#[trigger] r@[ch])@.len() == old(self).out_len(
                    input_signal@,
                ),
            forall|ch: int, i: int|
                0 <= ch < old(self).nch_spec() && 0 <= i < old(self).out_len(input_signal@)
                    ==> r@[ch]@[i] == old(self).out_entry(input_signal@, ch, i),
    {
        self.analyze(input_signal)
    }

    /// Streaming law helper: see [`lemma_analyze_streaming`].
    pub open spec fn is_state_after(self, pre: Analyzer, sig: Seq<Complex64>) -> bool {
        &&& self.nch_spec() == pre.nch_spec()
        &&& self.coeffs() == pre.coeffs()
        &&& self.history() == pre.after_history(sig)
        &&& self.leftover() == pre.after_leftover(sig)
    }

    /// A fresh analyzer with the same coefficients, history and leftover.
    pub fn duplicate(&self) -> (r: Analyzer)
        requires
            self.wf(),
        ensures
            r.wf(),
            r.coeffs() == self.coeffs(),
            r.history() == self.history(),
            r.leftover() == self.leftover(),
            r.nch_spec() == self.nch_spec(),
            r.tap_spec() == self.tap_spec(),
    {
        let batch_filter = self.batch_filter.duplicate();
        let buffer = copy_within(&self.buffer, 0, self.buffer.len());
        proof {
            assert(buffer@ =~= self.buffer@);
        }
        Analyzer { batch_filter, buffer }
    }
}

/// Feeding `k` stripes of `xs + ext` is the same as feeding `k` stripes of
/// `xs`, as long as those stripes lie inside `xs`.
pub(crate) proof fn lemma_hist_after_prefix(
    h0: Seq<Seq<Complex64>>,
    xs: Seq<Complex64>,
    ext: Seq<Complex64>,
    nch: int,
    k: int,
)
    requires
        nch >= 1,
        0 <= k,
        k * nch <= xs.len(),
    ensures
        hist_after(h0, xs + ext, nch, k) == hist_after(h0, xs, nch, k),
    decreases k,
{
    if k > 0 {
        assert((k - 1) * nch <= k * nch) by (nonlinear_arith)
            requires
                nch >= 1,
                0 < k,
        ;
        lemma_hist_after_prefix(h0, xs, ext, nch, k - 1);
        assert((xs + ext).subrange((k - 1) * nch, k * nch) =~= xs.subrange(
            (k - 1) * nch,
            k * nch,
        ));
    }
}

/// Feeding `a + b` stripes is feeding `a` stripes and then `b` stripes of
/// the stream with its first `a` stripes dropped.
pub(crate) proof fn lemma_hist_after_chain(
    h0: Seq<Seq<Complex64>>,
    xs: Seq<Complex64>,
    nch: int,
    a: int,
    b: int,
)
    requires
        nch >= 1,
        0 <= a,
        0 <= b,
        (a + b) * nch <= xs.len(),
    ensures
        hist_after(h0, xs, nch, a + b) == hist_after(
            hist_after(h0, xs, nch, a),
            xs.skip(a * nch),
            nch,
            b,
        ),
    decreases b,
{
    assert(a * nch <= (a + b) * nch && a * nch + b * nch == (a + b) * nch) by (nonlinear_arith)
        requires
            nch >= 1,
            0 <= a,
            0 <= b,
    ;
    if b > 0 {
        assert((a + b - 1) * nch <= (a + b) * nch && a * nch + (b - 1) * nch == (a + b - 1)
            * nch) by (nonlinear_arith)
            requires
                nch >= 1,
                0 <= a,
                0 < b,
        ;
        lemma_hist_after_chain(h0, xs, nch, a, b - 1);
        assert(xs.skip(a * nch).subrange((b - 1) * nch, b * nch) =~= xs.subrange(
            (a + b - 1) * nch,
            (a + b) * nch,
        ));
        assert(hist_after(h0, xs, nch, a + b) == hist_after(h0, xs, nch, a + b - 1).skip(1).push(
            xs.subrange((a + b - 1) * nch, (a + b) * nch),
        ));
    }
}

/// **Streaming equivalence.**  Analyzing a stream in two calls yields, column
/// for column, exactly what one call on the whole stream yields, and leaves
/// the analyzer in exactly the same state — for *any* split of the stream,
/// aligned to the branch width or not.
///
/// `pre` is an analyzer about to receive `s1 ++ s2`; `mid` stands for the
/// state `analyze` promises after a first call on `s1` (see
/// [`Analyzer::is_state_after`]).  The first `pre.out_len(s1)` columns of the
/// one-call result equal the first call's columns; the remaining
/// `mid.out_len(s2)` columns equal the second call's columns; and the state
/// after one call on the whole stream is the state after the two calls.
pub proof fn lemma_analyze_streaming(pre: Analyzer, mid: Analyzer, s1: Seq<Complex64>, s2: Seq<
    Complex64,
>)
    requires
        pre.wf(),
        mid.is_state_after(pre, s1),
    ensures
        pre.out_len(s1 + s2) == pre.out_len(s1) + mid.out_len(s2),
        forall|ch: int, i: int|
            0 <= ch && 0 <= i < pre.out_len(s1) ==> pre.out_entry(s1 + s2, ch, i)
                == pre.out_entry(s1, ch, i),
        forall|ch: int, i: int|
            0 <= ch && 0 <= i < mid.out_len(s2) ==> pre.out_entry(s1 + s2, ch, pre.out_len(s1)
                + i) == mid.out_entry(s2, ch, i),
        pre.after_history(s1 + s2) == mid.after_history(s2),
        pre.after_leftover(s1 + s2) == mid.after_leftover(s2),
{
    let n = pre.nch_spec();
    let h0 = pre.history();
    let c = pre.coeffs();
    let t1 = pre.stream(s1);
    let l1 = blocks(t1, n);
    let t2 = mid.stream(s2);
    let l2 = blocks(t2, n);
    let t = pre.stream(s1 + s2);
    let l = blocks(t, n);

    lemma_fundamental_div_mod(t1.len() as int, n);
    lemma_mod_division_less_than_divisor(t1.len() as int, n);
    assert(l1 * n == n * l1) by (nonlinear_arith);
    assert(0 <= l1 * n <= t1.len());
    lemma_fundamental_div_mod(t2.len() as int, n);
    lemma_mod_division_less_than_divisor(t2.len() as int, n);
    assert(l2 * n == n * l2) by (nonlinear_arith);
    assert(0 <= l2 * n <= t2.len());

    assert(t =~= t1 + s2);
    assert(t2 =~= t.skip(l1 * n));
    assert(t2.len() + l1 * n == t.len());
    assert(l == l1 + l2) by {
        vstd::arithmetic::div_mod::lemma_hoist_over_denominator(t2.len() as int, l1, n as nat);
        assert(t2.len() as int / n + l1 == (t2.len() + l1 * n) as int / n);
    }
    assert((l1 + l2) * n == l1 * n + l2 * n) by (nonlinear_arith);
    assert(0 <= l * n <= t.len());

    // The first call's columns and the one-call columns agree.
    assert forall|ch: int, i: int| 0 <= ch && 0 <= i < l1 implies pre.out_entry(s1 + s2, ch, i)
        == pre.out_entry(s1, ch, i) by {
        assert((i + 1) * n <= l1 * n) by (nonlinear_arith)
            requires
                0 <= i < l1,
                n >= 1,
        ;
        lemma_hist_after_prefix(h0, t1, s2, n, i + 1);
        assert(hist_after(h0, t, n, i + 1) == hist_after(h0, t1, n, i + 1));
    }

    lemma_hist_after_prefix(h0, t1, s2, n, l1);
    assert(hist_after(h0, t, n, l1) == mid.history());

    // The second call's columns and the remaining one-call columns agree.
    assert forall|ch: int, i: int| 0 <= ch && 0 <= i < l2 implies pre.out_entry(
        s1 + s2,
        ch,
        l1 + i,
    ) == mid.out_entry(s2, ch, i) by {
        assert((l1 + i + 1) * n <= (l1 + l2) * n) by (nonlinear_arith)
            requires
                0 <= i < l2,
                0 <= l1,
                n >= 1,
        ;
        lemma_hist_after_chain(h0, t, n, l1, i + 1);
        assert(hist_after(h0, t, n, l1 + i + 1) == hist_after(mid.history(), t2, n, i + 1));
    }

    // The final delay line and leftover agree.
    lemma_hist_after_chain(h0, t, n, l1, l2);
    assert(pre.after_history(s1 + s2) == mid.after_history(s2));
    assert(pre.after_leftover(s1 + s2) =~= mid.after_leftover(s2));
}

} // verus!
