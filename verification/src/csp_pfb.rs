//! The second channelizer stage: one critically sampled analyzer per
//! selected coarse channel.
//!
//! Each selected coarse channel's time series is multiplied by the cascade's
//! shared *downward* half-bin shifter (period `2M`, advanced once per input
//! column, the same factors for every selected channel), run through that
//! channel's own `M`-channel analyzer, `fftshift`ed across the channel axis,
//! and cut down to the centre half `[M/4, 3M/4)` — the outer quarters fall
//! in the coarse channel's transition band.  The kept blocks are stacked in
//! selection order.
use vstd::prelude::*;

verus! {

use num::complex::Complex64;
use crate::cpx::cmul;
use crate::cpx::cx_mul;
use crate::cspfb;
use crate::oscillator::HalfChShifter;
use crate::oscillator::half_shift_base;
use crate::utils::copy_within;
use crate::utils::fftshift2;
use crate::utils::rows_view;
use vstd::arithmetic::div_mod::lemma_fundamental_div_mod;
use vstd::arithmetic::div_mod::lemma_fundamental_div_mod_converse;
use vstd::arithmetic::div_mod::lemma_mod_division_less_than_divisor;

/// Which analyzer channel the cascade's output row `r` (of `M/2`) shows:
/// row `r` is the `fftshift`ed row `M/4 + r`.
pub open spec fn fine_src(m: int, r: int) -> int {
    let s = m / 4 + r;
    if s < m / 2 {
        s + m / 2
    } else {
        s - m / 2
    }
}


/// The cascade: one analyzer per selected coarse channel, the selection
/// list, and the shared half-bin shifter.
pub struct CspPfb {
    /// One `M`-channel analyzer per selected coarse channel, in selection
    /// order.
    pub pfb: Vec<cspfb::Analyzer>,
    /// The selected coarse channels; duplicates and order are kept.
    pub coarse_ch_selected: Vec<usize>,
    /// The downward half-bin shifter, shared by all selected channels and
    /// advanced once per input column.  Shifting down by half a fine bin
    /// centres the fine grid so that the kept rows mirror exactly about the
    /// coarse channel's centre.
    pub shifter: HalfChShifter,
}

impl CspPfb {
    /// Fine channels per analyzer, `M`.
    pub open spec fn nfine(self) -> int {
        self.pfb@[0].nch_spec()
    }

    /// Number of selected coarse channels.
    pub open spec fn sel_len(self) -> int {
        self.coarse_ch_selected@.len() as int
    }

    /// Equal-shaped analyzers in lockstep, a selection list of the same
    /// length, `M` divisible by four, and a shifter of period `2M`.
    pub open spec fn wf(self) -> bool {
        &&& self.pfb@.len() == self.coarse_ch_selected@.len()
        &&& self.pfb@.len() >= 1
        &&& forall|i: int| 0 <= i < self.pfb@.len() ==> (#[trigger] self.pfb@[i]).wf()
        &&& forall|i: int|
            0 <= i < self.pfb@.len() ==> (#[trigger] self.pfb@[i]).nch_spec() == self.nfine()
        &&& forall|i: int|
            0 <= i < self.pfb@.len() ==> (#[trigger] self.pfb@[i]).leftover().len()
                == self.pfb@[0].leftover().len()
        &&& self.nfine() % 4 == 0
        &&& self.nfine() >= 4
        &&& self.shifter.wf()
        &&& self.shifter.nch == self.nfine()
    }

    /// The shifter factor applied to input column `j` of a call.
    pub open spec fn factor_at(self, j: int) -> Complex64 {
        self.shifter.factor@[(self.shifter.idx + j) % self.shifter.period()]
    }

    /// The time series analyzer `i` receives: the selected coarse row of `x`
    /// multiplied columnwise by the shared shifter factors.
    pub open spec fn sel_row(self, x: Seq<Seq<Complex64>>, i: int) -> Seq<Complex64> {
        let row = x[self.coarse_ch_selected@[i] as int];
        Seq::new(row.len(), |j: int| cmul(row[j], self.factor_at(j)))
    }

    /// Output columns a call with `d` input columns produces.
    pub open spec fn out_cols(self, d: int) -> int {
        (self.pfb@[0].leftover().len() + d) as int / self.nfine()
    }

    /// Output entry of the cascade at block `i`, block row `r`, column `j`:
    /// analyzer `i`'s entry at the `fftshift`ed, centre-sliced channel.
    pub open spec fn fine_entry(self, x: Seq<Seq<Complex64>>, i: int, r: int, j: int) -> Complex64 {
        self.pfb@[i].out_entry(self.sel_row(x, i), fine_src(self.nfine(), r), j)
    }

    /// Build a cascade from the selection list and a template analyzer:
    /// each selected channel gets a fresh copy of the template's
    /// coefficients, history and leftover.  The shifter shifts downward.
    pub fn new(coarse_ch_selected: &[usize], pfb1: &cspfb::Analyzer) -> (r: CspPfb)
        requires
            pfb1.wf(),
            pfb1.nch_spec() % 4 == 0,
            pfb1.nch_spec() >= 4,
            pfb1.nch_spec() <= 0x4000_0000,
            coarse_ch_selected@.len() >= 1,
        ensures
            r.wf(),
            r.coarse_ch_selected@ == coarse_ch_selected@,
            r.nfine() == pfb1.nch_spec(),
            r.pfb@.len() == coarse_ch_selected@.len(),
            forall|i: int|
                0 <= i < r.pfb@.len() ==> {
                    &&& (#[trigger] r.pfb@[i]).coeffs() == pfb1.coeffs()
                    &&& r.pfb@[i].history() == pfb1.history()
                    &&& r.pfb@[i].leftover() == pfb1.leftover()
                    &&& r.pfb@[i].nch_spec() == pfb1.nch_spec()
                },
            r.shifter.idx == 0,
            r.shifter.nch == pfb1.nch_spec(),
            forall|i: int|
                0 <= i < 2 * pfb1.nch_spec() ==> r.shifter.factor@[i] == crate::cpx::cpow(
                    half_shift_base(pfb1.nch_spec(), false),
                    i,
                ),
    {
        let k = coarse_ch_selected.len();
        let mut sel: Vec<usize> = Vec::new();
        for i in 0..k
            invariant
                k == coarse_ch_selected@.len(),
                sel@.len() == i,
                forall|j: int| 0 <= j < i ==> sel@[j] == coarse_ch_selected@[j],
        {
            sel.push(coarse_ch_selected[i]);
        }
        assert(sel@ =~= coarse_ch_selected@);
        let mut pfb: Vec<cspfb::Analyzer> = Vec::new();
        for i in 0..k
            invariant
                pfb1.wf(),
                pfb@.len() == i,
                forall|j: int|
                    0 <= j < i ==> {
                        &&& (#[trigger] pfb@[j]).wf()
                        &&& pfb@[j].coeffs() == pfb1.coeffs()
                        &&& pfb@[j].history() == pfb1.history()
                        &&& pfb@[j].leftover() == pfb1.leftover()
                        &&& pfb@[j].nch_spec() == pfb1.nch_spec()
                    },
        {
            pfb.push(pfb1.duplicate());
        }
        let m = pfb1.nch();
        let shifter = HalfChShifter::new(m, false);
        CspPfb { pfb, coarse_ch_selected: sel, shifter }
    }

    /// Fine channels kept per coarse channel: `M / 2`.
    pub fn nfine_per_coarse(&self) -> (r: usize)
        requires
            self.wf(),
        ensures
            r == self.nfine() / 2,
    {
        self.pfb[0].nch() / 2
    }

    /// Channelize the selected coarse rows of `x` into fine channels: shift
    /// each selected row by half a fine channel, analyze it, `fftshift` the
    /// result's channel axis and keep the centre half.  Output block `i`
    /// (rows `[i*M/2, (i+1)*M/2)`) belongs to selected channel `i`.
    pub fn analyze(&mut self, x: &Vec<Vec<Complex64>>) -> (r: Vec<Vec<Complex64>>)
        requires
            old(self).wf(),
            x@.len() >= 1,
            forall|row: int| 0 <= row < x@.len() ==> (#[trigger] x@[row])@.len() == x@[0]@.len(),
            forall|i: int|
                0 <= i < old(self).sel_len() ==> (#[trigger] old(self).coarse_ch_selected@[i])
                    < x@.len(),
            old(self).pfb@[0].leftover().len() + x@[0]@.len() <= usize::MAX,
        ensures
            final(self).wf(),
            final(self).coarse_ch_selected == old(self).coarse_ch_selected,
            final(self).nfine() == old(self).nfine(),
            final(self).sel_len() == old(self).sel_len(),
            final(self).shifter.factor == old(self).shifter.factor,
            final(self).shifter.nch == old(self).shifter.nch,
            final(self).shifter.idx == (old(self).shifter.idx + x@[0]@.len()) % old(
                self,
            ).shifter.period(),
            final(self).pfb@.len() == old(self).pfb@.len(),
            forall|i: int|
                0 <= i < old(self).sel_len() ==> {
                    &&& (#[trigger] final(self).pfb@[i]).coeffs() == old(self).pfb@[i].coeffs()
                    &&& final(self).pfb@[i].nch_spec() == old(self).nfine()
                    &&& final(self).pfb@[i].history() == old(self).pfb@[i].after_history(
                        old(self).sel_row(rows_view(x@), i),
                    )
                    &&& final(self).pfb@[i].leftover() == old(self).pfb@[i].after_leftover(
                        old(self).sel_row(rows_view(x@), i),
                    )
                },
            r@.len() == old(self).sel_len() * (old(self).nfine() / 2),
            forall|row: int|
                0 <= row < r@.len() ==> (#[trigger] r@[row])@.len() == old(self).out_cols(
                    x@[0]@.len() as int,
                ),
            forall|row: int, j: int|
                0 <= row < r@.len() && 0 <= j < old(self).out_cols(x@[0]@.len() as int)
                    ==> r@[row]@[j] == old(self).fine_entry(
                    rows_view(x@),
                    row / (old(self).nfine() / 2),
                    row % (old(self).nfine() / 2),
                    j,
                ),
    {
        let ghost xv = rows_view(x@);
        let ghost factor0 = old(self).shifter.factor@;
        let ghost idx0 = old(self).shifter.idx as int;
        let ghost p = old(self).shifter.period();
        let ghost pfb0 = old(self).pfb@;
        let ghost buf0_len = old(self).pfb@[0].leftover().len() as int;

        let m = self.pfb[0].nch();
        let half = m / 2;
        let quarter = m / 4;
        let k = self.coarse_ch_selected.len();
        let d = x[0].len();
        let ghost dpg = old(self).out_cols(d as int);

        proof {
            vstd::arithmetic::div_mod::lemma_small_mod(idx0 as nat, p as nat);
        }
        let mut fs: Vec<Complex64> = Vec::new();
        for j in 0..d
            invariant
                self.pfb == old(self).pfb,
                self.coarse_ch_selected == old(self).coarse_ch_selected,
                self.shifter.factor == old(self).shifter.factor,
                self.shifter.factor@ == factor0,
                self.shifter.nch == old(self).shifter.nch,
                self.shifter.wf(),
                p == self.shifter.period(),
                0 <= idx0 < p,
                self.shifter.idx == (idx0 + j) % p,
                fs@.len() == j,
                forall|j2: int| 0 <= j2 < j ==> fs@[j2] == factor0[(idx0 + j2) % p],
        {
            proof {
                lemma_mod_division_less_than_divisor(idx0 + j, p);
                crate::utils::lemma_cyclic_step(idx0 + j, p);
            }
            let f = self.shifter.get();
            fs.push(f);
        }
        let ghost sh1 = self.shifter;

        let mut new_pfb: Vec<cspfb::Analyzer> = Vec::new();
        let mut result: Vec<Vec<Complex64>> = Vec::new();
        for i in 0..k
            invariant
                m == old(self).nfine(),
                m % 4 == 0,
                m >= 4,
                half == m / 2,
                quarter == m / 4,
                k == old(self).sel_len(),
                d == x@[0]@.len(),
                buf0_len + d <= usize::MAX,
                dpg == old(self).out_cols(d as int),
                xv == rows_view(x@),
                factor0 == old(self).shifter.factor@,
                idx0 == old(self).shifter.idx as int,
                p == old(self).shifter.period(),
                0 <= idx0 < p,
                pfb0 == old(self).pfb@,
                buf0_len == old(self).pfb@[0].leftover().len() as int,
                forall|row: int| 0 <= row < x@.len() ==> (#[trigger] x@[row])@.len() == d,
                forall|i2: int|
                    0 <= i2 < k ==> (#[trigger] old(self).coarse_ch_selected@[i2]) < x@.len(),
                self.coarse_ch_selected == old(self).coarse_ch_selected,
                self.shifter == sh1,
                fs@.len() == d,
                forall|j2: int| 0 <= j2 < d ==> fs@[j2] == factor0[(idx0 + j2) % p],
                self.pfb@.len() == k - i,
                forall|j2: int| 0 <= j2 < k - i ==> self.pfb@[j2] == pfb0[i + j2],
                forall|j2: int| 0 <= j2 < k ==> (#[trigger] pfb0[j2]).wf(),
                forall|j2: int| 0 <= j2 < k ==> (#[trigger] pfb0[j2]).nch_spec() == m,
                forall|j2: int|
                    0 <= j2 < k ==> (#[trigger] pfb0[j2]).leftover().len() == buf0_len,
                new_pfb@.len() == i,
                forall|j2: int|
                    0 <= j2 < i ==> {
                        &&& (#[trigger] new_pfb@[j2]).wf()
                        &&& new_pfb@[j2].coeffs() == pfb0[j2].coeffs()
                        &&& new_pfb@[j2].nch_spec() == m
                        &&& new_pfb@[j2].history() == pfb0[j2].after_history(
                            old(self).sel_row(xv, j2),
                        )
                        &&& new_pfb@[j2].leftover() == pfb0[j2].after_leftover(
                            old(self).sel_row(xv, j2),
                        )
                        &&& new_pfb@[j2].leftover().len() == buf0_len + d - dpg * m
                    },
                result@.len() == i * half,
                forall|row: int|
                    0 <= row < i * half ==> (#[trigger] result@[row])@.len() == dpg,
                forall|row: int, j2: int|
                    0 <= row < i * half && 0 <= j2 < dpg ==> result@[row]@[j2] == old(
                        self,
                    ).fine_entry(xv, row / (half as int), row % (half as int), j2),
        {
            let c = self.coarse_ch_selected[i];
            let mut srow: Vec<Complex64> = Vec::new();
            for j in 0..d
                invariant
                    c == old(self).coarse_ch_selected@[i as int],
                    c < x@.len(),
                    d == x@[0]@.len(),
                    forall|row: int| 0 <= row < x@.len() ==> (#[trigger] x@[row])@.len() == d,
                    fs@.len() == d,
                    forall|j2: int| 0 <= j2 < d ==> fs@[j2] == factor0[(idx0 + j2) % p],
                    srow@.len() == j,
                    forall|j2: int|
                        0 <= j2 < j ==> srow@[j2] == cmul(x@[c as int]@[j2], factor0[(idx0 + j2)
                            % p]),
            {
                let v = cx_mul(x[c][j], fs[j]);
                srow.push(v);
            }
            proof {
                assert(xv.len() == x@.len());
                assert(xv[c as int] =~= x@[c as int]@);
                assert(xv[c as int].len() == d);
                assert(srow@ =~= old(self).sel_row(xv, i as int));
            }
            let mut p_i = self.pfb.remove(0);
            assert(p_i == pfb0[i as int]);
            let y = p_i.analyze(srow.as_slice());
            proof {
                let tot = buf0_len + d;
                let srow_g = old(self).sel_row(xv, i as int);
                assert(pfb0[i as int].stream(srow_g).len() == tot);
                lemma_fundamental_div_mod(tot, m as int);
                lemma_mod_division_less_than_divisor(tot, m as int);
                vstd::arithmetic::div_mod::lemma_div_pos_is_pos(tot, m as int);
                assert(dpg == tot / (m as int));
                assert(dpg * m == m * dpg) by (nonlinear_arith);
                assert(0 <= dpg * m <= tot);
                assert(pfb0[i as int].out_len(srow_g) == dpg);
                assert(p_i.leftover() == pfb0[i as int].after_leftover(srow_g));
                assert(p_i.leftover().len() == tot - dpg * m);
            }
            new_pfb.push(p_i);
            let shifted_rows = fftshift2(&y);
            proof {
                let srow_g = old(self).sel_row(xv, i as int);
                assert(y@.len() == m);
                assert forall|s: int, j2: int| 0 <= s < m && 0 <= j2 < dpg implies
                    shifted_rows@[s]@[j2] == old(self).pfb@[i as int].out_entry(
                    srow_g,
                    if s < m / 2 {
                        s + m / 2
                    } else {
                        s - m / 2
                    },
                    j2,
                ) by {
                    let src = if s < m / 2 {
                        s + m / 2
                    } else {
                        s - m / 2
                    };
                    assert(shifted_rows@[s]@ == y@[src]@);
                    assert(y@[src]@[j2] == pfb0[i as int].out_entry(srow_g, src, j2));
                }
            }
            for r2 in 0..half
                invariant
                    m == old(self).nfine(),
                    m % 4 == 0,
                    m >= 4,
                    half == m / 2,
                    quarter == m / 4,
                    i < k,
                    dpg == old(self).out_cols(d as int),
                    shifted_rows@.len() == m,
                    forall|s: int|
                        0 <= s < m ==> (#[trigger] shifted_rows@[s])@.len() == dpg,
                    forall|s: int, j2: int|
                        0 <= s < m && 0 <= j2 < dpg ==> shifted_rows@[s]@[j2] == old(
                            self,
                        ).pfb@[i as int].out_entry(
                            old(self).sel_row(xv, i as int),
                            if s < m / 2 {
                                s + m / 2
                            } else {
                                s - m / 2
                            },
                            j2,
                        ),
                    result@.len() == i * half + r2,
                    forall|row: int|
                        0 <= row < i * half + r2 ==> (#[trigger] result@[row])@.len() == dpg,
                    forall|row: int, j2: int|
                        0 <= row < i * half + r2 && 0 <= j2 < dpg ==> result@[row]@[j2] == old(
                            self,
                        ).fine_entry(xv, row / (half as int), row % (half as int), j2),
            {
                let src = quarter + r2;
                let rowv = copy_within(&shifted_rows[src], 0, shifted_rows[src].len());
                proof {
                    assert(rowv@ =~= shifted_rows@[src as int]@);
                    assert(i * half + r2 == i as int * half + r2);
                    lemma_fundamental_div_mod_converse(
                        i as int * half + r2,
                        half as int,
                        i as int,
                        r2 as int,
                    );
                    assert(fine_src(m as int, r2 as int) == if (quarter + r2) < m / 2 {
                        quarter + r2 + m / 2
                    } else {
                        quarter + r2 - m / 2
                    });
                }
                result.push(rowv);
                proof {
                    assert((i * half + r2) + 1 == i * half + (r2 + 1));
                }
            }
            proof {
                assert(i * half + half == (i + 1) * half) by (nonlinear_arith);
            }
        }
        self.pfb = new_pfb;
        proof {
            lemma_fundamental_div_mod((buf0_len + d) as int, m as int);
            lemma_mod_division_less_than_divisor((buf0_len + d) as int, m as int);
            assert(buf0_len + d - dpg * m < m) by (nonlinear_arith)
                requires
                    buf0_len + d == m * dpg + (buf0_len + d) % (m as int),
                    (buf0_len + d) % (m as int) < m,
                    dpg == ((buf0_len + d) as int) / (m as int),
            ;
            assert(final(self).wf());
        }
        result
    }

    /// `analyze`, kept under the name the parallel evaluation goes by: the
    /// contract fixes the serial order, so this computes sequentially.
    pub fn analyze_par(&mut self, x: &Vec<Vec<Complex64>>) -> (r: Vec<Vec<Complex64>>)
        requires
            old(self).wf(),
            x@.len() >= 1,
            forall|row: int| 0 <= row < x@.len() ==> (#[trigger] x@[row])@.len() == x@[0]@.len(),
            forall|i: int|
                0 <= i < old(self).sel_len() ==> (#[trigger] old(self).coarse_ch_selected@[i])
                    < x@.len(),
            old(self).pfb@[0].leftover().len() + x@[0]@.len() <= usize::MAX,
        ensures
            final(self).wf(),
            final(self).coarse_ch_selected == old(self).coarse_ch_selected,
            final(self).nfine() == old(self).nfine(),
            final(self).sel_len() == old(self).sel_len(),
            r@.len() == old(self).sel_len() * (old(self).nfine() / 2),
            forall|row: int|
                0 <= row < r@.len() ==> (#[trigger] r@[row])@.len() == old(self).out_cols(
                    x@[0]@.len() as int,
                ),
            forall|row: int, j: int|
                0 <= row < r@.len() && 0 <= j < old(self).out_cols(x@[0]@.len() as int)
                    ==> r@[row]@[j] == old(self).fine_entry(
                    rows_view(x@),
                    row / (old(self).nfine() / 2),
                    row % (old(self).nfine() / 2),
                    j,
                ),
    {
        self.analyze(x)
    }
}

} // verus!
