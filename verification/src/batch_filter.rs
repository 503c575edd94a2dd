//! The per-branch FIR bank at the heart of every analyzer: `nch` branch
//! filters share one cyclic delay line of depth `tap`.  One call consumes a
//! stripe (one sample per branch) and emits one filtered sample per branch.
use vstd::prelude::*;

verus! {

use num::complex::Complex64;
use crate::cpx::cadd;
use crate::cpx::cfromu;
use crate::cpx::cscale;
use crate::cpx::cx_add;
use crate::cpx::cx_from_usize;
use crate::cpx::cx_scale;
use crate::utils::rows_view;

/// The partial branch output: the dot product of history rows `0..=t` with
/// coefficient rows `0..=t` at branch `b`, accumulated oldest first, exactly
/// as the serial evaluation adds terms up.
pub open spec fn dot_acc(
    hist: Seq<Seq<Complex64>>,
    coeff: Seq<Seq<Complex64>>,
    b: int,
    t: int,
) -> Complex64
    decreases t,
{
    if t <= 0 {
        cscale(hist[0][b], coeff[0][b])
    } else {
        cadd(dot_acc(hist, coeff, b, t - 1), cscale(hist[t][b], coeff[t][b]))
    }
}

/// One output stripe of the bank: for each branch, the full dot product of
/// the (already updated) history with the coefficient table.
pub open spec fn bank_out(hist: Seq<Seq<Complex64>>, coeff: Seq<Seq<Complex64>>) -> Seq<
    Complex64,
> {
    Seq::new(coeff[0].len(), |b: int| dot_acc(hist, coeff, b, coeff.len() - 1))
}

/// The delay-line history after feeding the first `k` stripes of width `nch`
/// cut from the stream `xs`: each stripe evicts the oldest row.
pub open spec fn hist_after(
    h0: Seq<Seq<Complex64>>,
    xs: Seq<Complex64>,
    nch: int,
    k: int,
) -> Seq<Seq<Complex64>>
    decreases k,
{
    if k <= 0 {
        h0
    } else {
        hist_after(h0, xs, nch, k - 1).skip(1).push(xs.subrange((k - 1) * nch, k * nch))
    }
}

/// The delay line's length never changes as stripes are fed in.
pub proof fn lemma_hist_after_len(h0: Seq<Seq<Complex64>>, xs: Seq<Complex64>, nch: int, k: int)
    requires
        h0.len() >= 1,
    ensures
        hist_after(h0, xs, nch, k).len() == h0.len(),
    decreases k,
{
    if k > 0 {
        lemma_hist_after_len(h0, xs, nch, k - 1);
    }
}

/// **Flushing.**  After `k` stripes, every history row from position
/// `tap - k` on holds an input stripe: row `t` is the stripe cut at
/// `(k - tap + t) * nch`.  Once `k` reaches the depth `tap`, the whole
/// delay line is input and the starting state is gone — so two banks that
/// have seen the same last `tap` stripes agree, whatever they held before.
pub proof fn lemma_hist_after_window(h0: Seq<Seq<Complex64>>, xs: Seq<Complex64>, nch: int, k: int)
    requires
        h0.len() >= 1,
        0 <= k,
    ensures
        hist_after(h0, xs, nch, k).len() == h0.len(),
        forall|t: int|
            0 <= t < h0.len() && h0.len() - k <= t ==> hist_after(h0, xs, nch, k)[t]
                == xs.subrange((k - h0.len() + t) * nch, (k - h0.len() + t + 1) * nch),
    decreases k,
{
    lemma_hist_after_len(h0, xs, nch, k);
    if k > 0 {
        lemma_hist_after_window(h0, xs, nch, k - 1);
        let tap = h0.len() as int;
        let prev = hist_after(h0, xs, nch, k - 1);
        assert forall|t: int|
            0 <= t < tap && tap - k <= t implies hist_after(h0, xs, nch, k)[t] == xs.subrange(
            (k - tap + t) * nch,
            (k - tap + t + 1) * nch,
        ) by {
            if t < tap - 1 {
                assert(hist_after(h0, xs, nch, k)[t] == prev[t + 1]);
            }
        }
    }
}

/// The bank's time-domain output row for stripe `i` of the stream `xs`,
/// starting from history `h0`.
pub open spec fn time_row(
    h0: Seq<Seq<Complex64>>,
    coeff: Seq<Seq<Complex64>>,
    xs: Seq<Complex64>,
    nch: int,
    i: int,
) -> Seq<Complex64> {
    bank_out(hist_after(h0, xs, nch, i + 1), coeff)
}

/// A bank of `nch` branch FIR filters over a shared cyclic delay line.
///
/// `coeff` holds the time-reversed polyphase decomposition of the prototype:
/// `tap` rows of `nch` real coefficients (each carried in the real part of a
/// sample).  `state` holds the last `tap` input stripes; row
/// `(head + tap - 1) % tap` is the oldest and the next to be overwritten.
pub struct BatchFilterFixed {
    /// Reversed coefficients: row `t`, branch `b` holds the prototype sample
    /// `(tap - 1 - t) * nch + b`.
    pub coeff: Vec<Vec<Complex64>>,
    /// The cyclic delay line: `tap` rows of `nch` samples.
    pub state: Vec<Vec<Complex64>>,
    /// Cursor into `state`; always below `tap`.
    pub head: usize,
}

impl BatchFilterFixed {
    /// Depth of the delay line.
    pub open spec fn tap_spec(self) -> int {
        self.coeff@.len() as int
    }

    /// Number of branches.
    pub open spec fn nch_spec(self) -> int {
        self.coeff@[0]@.len() as int
    }

    /// Shape invariant: a non-empty rectangular coefficient table, a state
    /// matrix of the same shape, and a cursor inside it.
    pub open spec fn wf(self) -> bool {
        &&& self.coeff@.len() >= 1
        &&& self.nch_spec() >= 1
        &&& forall|t: int|
            0 <= t < self.coeff@.len() ==> (#[trigger] self.coeff@[t])@.len() == self.nch_spec()
        &&& self.state@.len() == self.coeff@.len()
        &&& forall|t: int|
            0 <= t < self.state@.len() ==> (#[trigger] self.state@[t])@.len() == self.nch_spec()
        &&& (self.head as int) < self.coeff@.len()
    }

    /// The coefficient table as a sequence of rows.
    pub open spec fn coeffs(self) -> Seq<Seq<Complex64>> {
        rows_view(self.coeff@)
    }

    /// Index of the oldest row of `state`: `(head + tap - 1) % tap`.
    pub open spec fn oldest(self) -> int {
        if self.head == 0 {
            self.tap_spec() - 1
        } else {
            self.head - 1
        }
    }

    /// The delay line in logical order: the last `tap` stripes fed in,
    /// oldest first.
    pub open spec fn history(self) -> Seq<Seq<Complex64>> {
        let s = rows_view(self.state@);
        s.skip(self.oldest()) + s.take(self.oldest())
    }

    /// Build a bank from the table `c` of `nch` branch rows of `tap`
    /// coefficients each; the rows are stored time-reversed and the delay
    /// line starts holding zero samples.
    pub fn new(c: &Vec<Vec<Complex64>>) -> (r: BatchFilterFixed)
        requires
            c@.len() >= 1,
            c@[0]@.len() >= 1,
            forall|b: int| 0 <= b < c@.len() ==> (#[trigger] c@[b])@.len() == c@[0]@.len(),
        ensures
            r.wf(),
            r.nch_spec() == c@.len(),
            r.tap_spec() == c@[0]@.len(),
            forall|t: int, b: int|
                0 <= t < r.tap_spec() && 0 <= b < r.nch_spec() ==> r.coeffs()[t][b] == c@[b]@[r.tap_spec() - 1 - t],
            forall|t: int|
                0 <= t < r.tap_spec() ==> r.history()[t] == Seq::new(
                    c@.len(),
                    |b: int| cfromu(0),
                ),
    {
        let nch = c.len();
        let tap = c[0].len();
        let mut coeff: Vec<Vec<Complex64>> = Vec::new();
        for t in 0..tap
            invariant
                nch == c@.len(),
                tap == c@[0]@.len(),
                forall|b: int| 0 <= b < c@.len() ==> (#[trigger] c@[b])@.len() == tap,
                coeff@.len() == t,
                forall|u: int|
                    0 <= u < t ==> (#[trigger] coeff@[u])@.len() == nch,
                forall|u: int, b: int|
                    0 <= u < t && 0 <= b < nch ==> coeff@[u]@[b] == c@[b]@[tap - 1 - u],
        {
            let mut row: Vec<Complex64> = Vec::new();
            for b in 0..nch
                invariant
                    nch == c@.len(),
                    tap == c@[0]@.len(),
                    t < tap,
                    forall|b2: int| 0 <= b2 < c@.len() ==> (#[trigger] c@[b2])@.len() == tap,
                    row@.len() == b,
                    forall|b2: int| 0 <= b2 < b ==> row@[b2] == c@[b2]@[tap - 1 - t],
            {
                row.push(c[b][tap - 1 - t]);
            }
            coeff.push(row);
        }
        let mut state: Vec<Vec<Complex64>> = Vec::new();
        for t in 0..tap
            invariant
                state@.len() == t,
                forall|u: int|
                    0 <= u < t ==> (#[trigger] state@[u])@ == Seq::new(
                        nch as nat,
                        |b: int| cfromu(0),
                    ),
        {
            let mut row: Vec<Complex64> = Vec::new();
            for b in 0..nch
                invariant
                    row@.len() == b,
                    forall|b2: int| 0 <= b2 < b ==> row@[b2] == cfromu(0),
            {
                row.push(cx_from_usize(0));
            }
            assert(row@ =~= Seq::new(nch as nat, |b: int| cfromu(0)));
            state.push(row);
        }
        let r = BatchFilterFixed { coeff, state, head: 0 };
        assert forall|t: int| 0 <= t < r.tap_spec() implies r.history()[t] == Seq::new(
            c@.len(),
            |b: int| cfromu(0),
        ) by {
            let s = rows_view(r.state@);
            assert(r.history()[t] == s[if t < 1 { r.oldest() + t } else { t - 1 }]);
        }
        r
    }

    /// Build a bank of `nch` branches from a prototype filter of `nch * tap`
    /// coefficients: the prototype is reshaped row-major into `tap` stripes
    /// of `nch` coefficients, and branch `b` gets column `b`, reversed.
    pub fn from_prototype(nch: usize, coeff: &[Complex64]) -> (r: BatchFilterFixed)
        requires
            nch >= 1,
            coeff@.len() >= nch,
            coeff@.len() as int % (nch as int) == 0,
        ensures
            r.wf(),
            r.nch_spec() == nch,
            r.tap_spec() == coeff@.len() as int / nch as int,
            forall|t: int|
                0 <= t < r.tap_spec() ==> r.history()[t] == Seq::new(
                    nch as nat,
                    |b: int| cfromu(0),
                ),
            forall|t: int, b: int|
                0 <= t < r.tap_spec() && 0 <= b < nch ==> r.coeffs()[t][b] == coeff@[(r.tap_spec()
                    - 1 - t) * nch + b],
    {
        let len = coeff.len();
        let tap = len / nch;
        proof {
            vstd::arithmetic::div_mod::lemma_fundamental_div_mod(len as int, nch as int);
            assert(tap >= 1) by (nonlinear_arith)
                requires
                    nch * tap == len,
                    len >= nch,
                    nch >= 1,
            ;
        }
        assert(nch * tap == len);
        let mut table: Vec<Vec<Complex64>> = Vec::new();
        for b in 0..nch
            invariant
                nch >= 1,
                tap >= 1,
                len == coeff@.len(),
                nch * tap == len,
                table@.len() == b,
                forall|b2: int| 0 <= b2 < b ==> (#[trigger] table@[b2])@.len() == tap,
                forall|b2: int, t: int|
                    0 <= b2 < b && 0 <= t < tap ==> table@[b2]@[t] == coeff@[t * nch + b2],
        {
            let mut row: Vec<Complex64> = Vec::new();
            let mut idx = b;
            proof {
                assert(0 * nch + b == b) by (nonlinear_arith);
            }
            for t in 0..tap
                invariant
                    nch >= 1,
                    tap >= 1,
                    b < nch,
                    len == coeff@.len(),
                    nch * tap == len,
                    t < tap ==> idx == t * nch + b,
                    row@.len() == t,
                    forall|t2: int| 0 <= t2 < t ==> row@[t2] == coeff@[t2 * nch + b],
            {
                proof {
                    assert(t * nch + b < nch * tap) by (nonlinear_arith)
                        requires
                            0 <= t < tap,
                            0 <= b < nch,
                    ;
                }
                row.push(coeff[idx]);
                if t + 1 < tap {
                    proof {
                        assert((t + 1) * nch + b == t * nch + b + nch) by (nonlinear_arith);
                        assert((t + 1) * nch + b < nch * tap) by (nonlinear_arith)
                            requires
                                0 <= t + 1 < tap,
                                0 <= b < nch,
                        ;
                    }
                    idx = idx + nch;
                }
            }
            table.push(row);
        }
        let r = BatchFilterFixed::new(&table);
        proof {
            assert forall|t: int, b: int|
                0 <= t < r.tap_spec() && 0 <= b < nch implies r.coeffs()[t][b] == coeff@[(
            r.tap_spec() - 1 - t) * nch + b] by {
                assert(r.coeffs()[t][b] == table@[b]@[r.tap_spec() - 1 - t]);
            }
        }
        r
    }

    /// Feed one stripe and emit one output stripe: the stripe overwrites the
    /// oldest history row, and each branch's output is the dot product of
    /// the updated history with its coefficient column.
    pub fn filter(&mut self, signal: &[Complex64]) -> (r: Vec<Complex64>)
        requires
            old(self).wf(),
            signal@.len() == old(self).nch_spec(),
        ensures
            final(self).wf(),
            final(self).coeffs() == old(self).coeffs(),
            final(self).tap_spec() == old(self).tap_spec(),
            final(self).nch_spec() == old(self).nch_spec(),
            final(self).history() == old(self).history().skip(1).push(signal@),
            r@ == bank_out(final(self).history(), old(self).coeffs()),
            r@.len() == old(self).nch_spec(),
    {
        let out = self.advance(signal, true);
        out
    }

    /// Feed one stripe without producing output: the same history update as
    /// `filter`, used to prime a bank.
    pub fn feed(&mut self, signal: &[Complex64])
        requires
            old(self).wf(),
            signal@.len() == old(self).nch_spec(),
        ensures
            final(self).wf(),
            final(self).coeffs() == old(self).coeffs(),
            final(self).tap_spec() == old(self).tap_spec(),
            final(self).nch_spec() == old(self).nch_spec(),
            final(self).history() == old(self).history().skip(1).push(signal@),
    {
        let _ = self.advance(signal, false);
    }

    /// `filter`, kept under the name the parallel evaluation goes by: the
    /// contract fixes the serial accumulation order, so this computes
    /// sequentially.
    pub fn filter_par(&mut self, signal: &[Complex64]) -> (r: Vec<Complex64>)
        requires
            old(self).wf(),
            signal@.len() == old(self).nch_spec(),
        ensures
            final(self).wf(),
            final(self).coeffs() == old(self).coeffs(),
            final(self).tap_spec() == old(self).tap_spec(),
            final(self).nch_spec() == old(self).nch_spec(),
            final(self).history() == old(self).history().skip(1).push(signal@),
            r@ == bank_out(final(self).history(), old(self).coeffs()),
            r@.len() == old(self).nch_spec(),
    {
        self.filter(signal)
    }

    /// Shared body of `filter` and `feed`: write the stripe over the oldest
    /// row, compute the output stripe if asked, advance the cursor.
    fn advance(&mut self, signal: &[Complex64], want_out: bool) -> (r: Vec<Complex64>)
        requires
            old(self).wf(),
            signal@.len() == old(self).nch_spec(),
        ensures
            final(self).wf(),
            final(self).coeffs() == old(self).coeffs(),
            final(self).tap_spec() == old(self).tap_spec(),
            final(self).nch_spec() == old(self).nch_spec(),
            final(self).history() == old(self).history().skip(1).push(signal@),
            want_out ==> r@ == bank_out(final(self).history(), old(self).coeffs()),
            want_out ==> r@.len() == old(self).nch_spec(),
    {
        let tap = self.coeff.len();
        let nch = self.coeff[0].len();
        let w = if self.head == 0 {
            tap - 1
        } else {
            self.head - 1
        };
        let mut row: Vec<Complex64> = Vec::new();
        for b in 0..nch
            invariant
                nch <= signal@.len(),
                row@.len() == b,
                forall|j: int| 0 <= j < b ==> row@[j] == signal@[j],
        {
            row.push(signal[b]);
        }
        assert(row@ =~= signal@);
        self.state[w] = row;

        let ghost hist = old(self).history().skip(1).push(signal@);
        proof {
            let s_old = rows_view(old(self).state@);
            let s_new = rows_view(self.state@);
            assert(s_new =~= s_old.update(w as int, signal@));
            if self.head == 0 {
                assert(hist =~= s_new.skip(0) + s_new.take(0));
            } else {
                assert(hist =~= s_new.skip(self.head as int) + s_new.take(self.head as int));
            }
        }
        // After writing, the logical history row `t` sits at state index
        // `head + t`, wrapping past `tap`.
        assert(forall|t: int|
            0 <= t < tap ==> hist[t] == rows_view(self.state@)[
                if self.head + t < tap {
                    self.head + t
                } else {
                    self.head + t - tap
                }
            ]);

        let mut out: Vec<Complex64> = Vec::new();
        if want_out {
            for b in 0..nch
                invariant
                    self.wf(),
                    tap == self.tap_spec(),
                    nch == self.nch_spec(),
                    hist.len() == tap,
                    forall|t: int|
                        0 <= t < tap ==> hist[t] == rows_view(self.state@)[
                            if self.head + t < tap {
                                self.head + t
                            } else {
                                self.head + t - tap
                            }
                        ],
                    forall|t: int| 0 <= t < tap ==> (#[trigger] hist[t]).len() == nch,
                    out@.len() == b,
                    forall|j: int|
                        0 <= j < b ==> out@[j] == dot_acc(hist, self.coeffs(), j, tap - 1),
            {
                let mut idx = self.head;
                let mut acc = cx_scale(self.state[idx][b], self.coeff[0][b]);
                assert(acc == dot_acc(hist, self.coeffs(), b as int, 0));
                for t in 1..tap
                    invariant
                        self.wf(),
                        tap == self.tap_spec(),
                        nch == self.nch_spec(),
                        b < nch,
                        hist.len() == tap,
                        forall|u: int|
                            0 <= u < tap ==> hist[u] == rows_view(self.state@)[
                                if self.head + u < tap {
                                    self.head + u
                                } else {
                                    self.head + u - tap
                                }
                            ],
                        forall|u: int| 0 <= u < tap ==> (#[trigger] hist[u]).len() == nch,
                        idx == if self.head + t - 1 < tap {
                            self.head + t - 1
                        } else {
                            self.head + t - 1 - tap
                        },
                        acc == dot_acc(hist, self.coeffs(), b as int, t - 1),
                {
                    idx = idx + 1;
                    if idx == tap {
                        idx = 0;
                    }
                    acc = cx_add(acc, cx_scale(self.state[idx][b], self.coeff[t][b]));
                }
                out.push(acc);
            }
            assert(out@ =~= bank_out(hist, self.coeffs()));
        }

        self.head = if self.head + 1 == tap {
            0
        } else {
            self.head + 1
        };
        proof {
            let s_new = rows_view(self.state@);
            assert(self.history() =~= hist);
        }
        out
    }

    /// A fresh bank with the same coefficients and the same history.
    pub fn duplicate(&self) -> (r: BatchFilterFixed)
        requires
            self.wf(),
        ensures
            r.wf(),
            r.coeffs() == self.coeffs(),
            r.history() == self.history(),
            r.tap_spec() == self.tap_spec(),
            r.nch_spec() == self.nch_spec(),
    {
        let coeff = copy_matrix(&self.coeff);
        let state = copy_matrix(&self.state);
        let r = BatchFilterFixed { coeff, state, head: self.head };
        assert(r.coeffs() =~~= self.coeffs());
        assert(rows_view(r.state@) =~~= rows_view(self.state@));
        assert(r.history() =~~= self.history());
        r
    }
}

/// Copy a matrix of samples row by row.
pub(crate) fn copy_matrix(m: &Vec<Vec<Complex64>>) -> (r: Vec<Vec<Complex64>>)
    ensures
        r@.len() == m@.len(),
        forall|i: int| 0 <= i < m@.len() ==> r@[i]@ == m@[i]@,
{
    let mut r: Vec<Vec<Complex64>> = Vec::new();
    let n = m.len();
    for i in 0..n
        invariant
            n == m@.len(),
            r@.len() == i,
            forall|j: int| 0 <= j < i ==> r@[j]@ == m@[j]@,
    {
        let row = crate::utils::copy_within(&m[i], 0, m[i].len());
        assert(row@ =~= m@[i as int]@);
        r.push(row);
    }
    r
}

} // verus!
