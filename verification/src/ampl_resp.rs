//! Amplitude-response measurement: drive the two-stage channelizer with a
//! complex tone and accumulate per-channel energy.
//!
//! The whole pipeline — tone generation, the oversampled first stage, the
//! cascaded second stage — is mirrored by ghost state ([`OsState`],
//! [`CspState`]) and pure transition functions, so the driver's contracts
//! say exactly which samples each response value is computed from.
use vstd::prelude::*;

verus! {

use num::complex::Complex64;
use crate::batch_filter::hist_after;
use crate::batch_filter::time_row;
use crate::cpx::cadd;
use crate::cpx::cfromu;
use crate::cpx::cdiv_re;
use crate::cpx::cmul;
use crate::cpx::cnormsq;
use crate::cpx::cpow;
use crate::cpx::cx_add;
use crate::cpx::cx_div_re;
use crate::cpx::cx_from_usize;
use crate::cpx::cx_norm_sqr;
use crate::cspfb;
use crate::cspfb::blocks;
use crate::csp_pfb::CspPfb;
use crate::csp_pfb::fine_src;
use crate::oscillator::COscillator;
use crate::oscillator::half_shift_base;
use crate::oscillator::osc_phasor;
use crate::ospfb;
use crate::utils::dft_of;
use crate::utils::rows_view;

/// `len` tone samples starting at phasor `p` with per-sample step `w`.
pub open spec fn tone_chunk(p: Complex64, w: Complex64, len: int) -> Seq<Complex64> {
    Seq::new(len as nat, |n: int| osc_phasor(p, w, n))
}

/// A stream multiplied elementwise by a cyclic factor table read from
/// cursor `sidx` on.
pub open spec fn shifted_by(stream: Seq<Complex64>, factors: Seq<Complex64>, sidx: int) -> Seq<
    Complex64,
> {
    Seq::new(stream.len(), |i: int| cmul(stream[i], factors[(sidx + i) % (factors.len() as int)]))
}

/// The polyphase table cut from a prototype of `tap * n` coefficients:
/// row `t`, branch `b` holds prototype sample `(tap - 1 - t) * n + b`.
pub open spec fn proto_table(c: Seq<Complex64>, n: int) -> Seq<Seq<Complex64>> {
    let tap = c.len() as int / n;
    Seq::new(tap as nat, |t: int| Seq::new(n as nat, |b: int| c[(tap - 1 - t) * n + b]))
}

/// An all-zero delay line of `tap` stripes of width `n`.
pub open spec fn zero_hist(tap: int, n: int) -> Seq<Seq<Complex64>> {
    Seq::new(tap as nat, |t: int| Seq::new(n as nat, |b: int| cfromu(0)))
}

/// The sum of the squared norms of the first `k` samples of `row`,
/// accumulated left to right from the zero sample.
pub open spec fn energy_acc(row: Seq<Complex64>, k: int) -> Complex64
    decreases k,
{
    if k <= 0 {
        cfromu(0)
    } else {
        cadd(energy_acc(row, k - 1), cnormsq(row[k - 1]))
    }
}

/// The energy of a whole row.
pub open spec fn row_energy(row: Seq<Complex64>) -> Complex64 {
    energy_acc(row, row.len() as int)
}

/// Ghost state of the tone source and the oversampled first stage.
pub ghost struct OsState {
    /// The even bank's delay line.
    pub he: Seq<Seq<Complex64>>,
    /// The odd bank's delay line.
    pub ho: Seq<Seq<Complex64>>,
    /// The stage's leftover buffer.
    pub buf: Seq<Complex64>,
    /// The half-bin shifter's cursor.
    pub sidx: int,
    /// The tone phasor the next sample starts from.
    pub phasor: Complex64,
}

/// Ghost state of the cascaded second stage.
pub ghost struct CspState {
    /// One delay line per selected coarse channel.
    pub hists: Seq<Seq<Seq<Complex64>>>,
    /// One leftover buffer per selected coarse channel.
    pub bufs: Seq<Seq<Complex64>>,
    /// The cascade shifter's cursor.
    pub cidx: int,
}

/// The fixed shape of one measurement pipeline.
pub ghost struct SweepCfg {
    /// The tone's per-sample step.
    pub w: Complex64,
    /// The first stage's shifter table.
    pub os_factors: Seq<Complex64>,
    /// The cascade's shifter table.
    pub fine_factors: Seq<Complex64>,
    /// The first stage's polyphase table (branch width `n`).
    pub coarse_coeff: Seq<Seq<Complex64>>,
    /// The second stage's polyphase table (width `m`).
    pub fine_coeff: Seq<Seq<Complex64>>,
    /// The first stage's branch width, half its channel count.
    pub n: int,
    /// Fine channels per analyzer.
    pub m: int,
    /// The selected coarse channels.
    pub sel: Seq<usize>,
    /// Samples per iteration.
    pub len: int,
}

/// Ghost state of the whole pipeline.
pub ghost struct SweepState {
    /// The tone source and first stage.
    pub os: OsState,
    /// The second stage.
    pub csp: CspState,
}

/// One first-stage iteration: generate `len` tone samples, stream them
/// through both banks, advance shifter and phasor.
pub open spec fn os_step(st: OsState, w: Complex64, factors: Seq<Complex64>, n: int, len: int) -> OsState {
    let stream = st.buf + tone_chunk(st.phasor, w, len);
    let l = blocks(stream, n);
    OsState {
        he: hist_after(st.he, stream, n, l),
        ho: hist_after(st.ho, shifted_by(stream, factors, st.sidx), n, l),
        buf: stream.skip(l * n),
        sidx: (st.sidx + l * n) % (factors.len() as int),
        phasor: osc_phasor(st.phasor, w, len),
    }
}

/// The first-stage output entry at channel `ch_out`, column `i`, of the
/// iteration that starts in state `st`.  Channels are in centre-frequency
/// order, so the interleaved bank points are rotated by half the axis.
pub open spec fn os_entry(st: OsState, cfg: SweepCfg, ch_out: int, i: int) -> Complex64 {
    let ch = if ch_out + cfg.n < 2 * cfg.n {
        ch_out + cfg.n
    } else {
        ch_out + cfg.n - 2 * cfg.n
    };
    let stream = st.buf + tone_chunk(st.phasor, cfg.w, cfg.len);
    if ch % 2 == 0 {
        dft_of(time_row(st.he, cfg.coarse_coeff, stream, cfg.n, i))[ch / 2]
    } else {
        dft_of(
            time_row(
                st.ho,
                cfg.coarse_coeff,
                shifted_by(stream, cfg.os_factors, st.sidx),
                cfg.n,
                i,
            ),
        )[ch / 2]
    }
}

/// Output columns of the iteration that starts in state `st`.
pub open spec fn os_cols(st: OsState, cfg: SweepCfg) -> int {
    blocks(st.buf + tone_chunk(st.phasor, cfg.w, cfg.len), cfg.n)
}

/// The coarse matrix handed from the first stage to the second in the
/// iteration that starts in state `st`.
pub open spec fn os_matrix(st: OsState, cfg: SweepCfg) -> Seq<Seq<Complex64>> {
    Seq::new((2 * cfg.n) as nat, |ch: int| Seq::new(os_cols(st, cfg) as nat, |i: int| os_entry(st, cfg, ch, i)))
}

/// The series the cascade's analyzer `i` receives from matrix `x`.
pub open spec fn csp_sel_row(x: Seq<Seq<Complex64>>, c: int, factors: Seq<Complex64>, cidx: int) -> Seq<Complex64> {
    shifted_by(x[c], factors, cidx)
}

/// One second-stage iteration on input matrix `x`.
pub open spec fn csp_step(st: CspState, x: Seq<Seq<Complex64>>, cfg: SweepCfg) -> CspState {
    CspState {
        hists: Seq::new(
            st.hists.len(),
            |i: int|
                {
                    let stream = st.bufs[i] + csp_sel_row(x, cfg.sel[i] as int, cfg.fine_factors, st.cidx);
                    hist_after(st.hists[i], stream, cfg.m, blocks(stream, cfg.m))
                },
        ),
        bufs: Seq::new(
            st.bufs.len(),
            |i: int|
                {
                    let stream = st.bufs[i] + csp_sel_row(x, cfg.sel[i] as int, cfg.fine_factors, st.cidx);
                    stream.skip(blocks(stream, cfg.m) * cfg.m)
                },
        ),
        cidx: (st.cidx + x[0].len()) % (cfg.fine_factors.len() as int),
    }
}

/// The cascade output entry at stacked row `row`, column `j`, of the
/// iteration that starts in state `st` with input `x`.
pub open spec fn csp_entry(st: CspState, x: Seq<Seq<Complex64>>, cfg: SweepCfg, row: int, j: int) -> Complex64 {
    let i = row / (cfg.m / 2);
    let rr = row % (cfg.m / 2);
    let stream = st.bufs[i] + csp_sel_row(x, cfg.sel[i] as int, cfg.fine_factors, st.cidx);
    dft_of(time_row(st.hists[i], cfg.fine_coeff, stream, cfg.m, j))[fine_src(cfg.m, rr)]
}

/// One whole-pipeline iteration.
pub open spec fn sweep_step(st: SweepState, cfg: SweepCfg) -> SweepState {
    SweepState {
        os: os_step(st.os, cfg.w, cfg.os_factors, cfg.n, cfg.len),
        csp: csp_step(st.csp, os_matrix(st.os, cfg), cfg),
    }
}

/// The pipeline state after `k` iterations.
pub open spec fn sweep_iter(st: SweepState, cfg: SweepCfg, k: int) -> SweepState
    decreases k,
{
    if k <= 0 {
        st
    } else {
        sweep_step(sweep_iter(st, cfg, k - 1), cfg)
    }
}

/// The pipeline's starting state: zero delay lines, empty buffers, cursors
/// at zero, tone phasor at one.
pub open spec fn sweep_start(cfg: SweepCfg, tap_c: int, tap_f: int, k: int) -> SweepState {
    SweepState {
        os: OsState {
            he: zero_hist(tap_c, cfg.n),
            ho: zero_hist(tap_c, cfg.n),
            buf: Seq::empty(),
            sidx: 0,
            phasor: cfromu(1),
        },
        csp: CspState {
            hists: Seq::new(k as nat, |i: int| zero_hist(tap_f, cfg.m)),
            bufs: Seq::new(k as nat, |i: int| Seq::empty()),
            cidx: 0,
        },
    }
}

/// The first-stage state after `k` iterations at one frequency.
pub open spec fn os_iter(st: OsState, w: Complex64, factors: Seq<Complex64>, n: int, len: int, k: int) -> OsState
    decreases k,
{
    if k <= 0 {
        st
    } else {
        os_step(os_iter(st, w, factors, n, len, k - 1), w, factors, n, len)
    }
}

/// The same first-stage state with the tone phasor reset to one, as a
/// fresh oscillator starts each frequency.
pub open spec fn ar_reset(st: OsState) -> OsState {
    OsState { phasor: cfromu(1), ..st }
}

/// The first-stage state after sweeping the first `f` frequencies with
/// `niter` iterations each: banks, buffer and shifter carry over, the tone
/// restarts per frequency.
pub open spec fn ar_state(
    st0: OsState,
    steps: Seq<Complex64>,
    factors: Seq<Complex64>,
    n: int,
    len: int,
    niter: int,
    f: int,
) -> OsState
    decreases f,
{
    if f <= 0 {
        st0
    } else {
        os_iter(ar_reset(ar_state(st0, steps, factors, n, len, niter, f - 1)), steps[f - 1], factors, n, len, niter)
    }
}

/// A configuration for the first stage alone.
pub open spec fn os_only_cfg(
    w: Complex64,
    factors: Seq<Complex64>,
    coeff: Seq<Seq<Complex64>>,
    n: int,
    len: int,
) -> SweepCfg {
    SweepCfg {
        w: w,
        os_factors: factors,
        fine_factors: Seq::empty(),
        coarse_coeff: coeff,
        fine_coeff: Seq::empty(),
        n: n,
        m: 0,
        sel: Seq::empty(),
        len: len,
    }
}

/// The configuration the driver below builds from its arguments.
pub open spec fn cfg_of(
    nch_coarse: int,
    nch_fine: int,
    coeff_coarse: Seq<Complex64>,
    coeff_fine: Seq<Complex64>,
    sel: Seq<usize>,
    freq_step: Complex64,
    signal_len: int,
) -> SweepCfg {
    SweepCfg {
        w: freq_step,
        os_factors: Seq::new((nch_coarse) as nat, |i: int| cpow(half_shift_base(nch_coarse / 2, false), i)),
        fine_factors: Seq::new((4 * nch_fine) as nat, |i: int| cpow(half_shift_base(2 * nch_fine, false), i)),
        coarse_coeff: proto_table(coeff_coarse, nch_coarse / 2),
        fine_coeff: proto_table(coeff_fine, 2 * nch_fine),
        n: nch_coarse / 2,
        m: 2 * nch_fine,
        sel: sel,
        len: signal_len,
    }
}

/// The first-stage object carries exactly the ghost state `st` under the
/// configuration `cfg`.
pub open spec fn os_matches(coarse: ospfb::Analyzer, st: OsState, cfg: SweepCfg) -> bool {
    &&& coarse.wf()
    &&& coarse.nch_each() == cfg.n
    &&& coarse.coeffs() == cfg.coarse_coeff
    &&& coarse.filter_even.history() == st.he
    &&& coarse.filter_odd.history() == st.ho
    &&& coarse.leftover() == st.buf
    &&& coarse.shifter.idx == st.sidx
    &&& coarse.shifter.factor@ == cfg.os_factors
}

/// The pipeline objects carry exactly the ghost state `st` under the
/// configuration `cfg`.
pub open spec fn pipeline_matches(
    coarse: ospfb::Analyzer,
    csp: CspPfb,
    osc: COscillator,
    st: SweepState,
    cfg: SweepCfg,
) -> bool {
    &&& os_matches(coarse, st.os, cfg)
    &&& csp.wf()
    &&& csp.nfine() == cfg.m
    &&& csp.coarse_ch_selected@ == cfg.sel
    &&& csp.pfb@.len() == cfg.sel.len()
    &&& st.csp.hists.len() == cfg.sel.len()
    &&& st.csp.bufs.len() == cfg.sel.len()
    &&& forall|i: int|
        0 <= i < csp.pfb@.len() ==> (#[trigger] csp.pfb@[i]).coeffs() == cfg.fine_coeff
    &&& forall|i: int| 0 <= i < csp.pfb@.len() ==> (#[trigger] csp.pfb@[i]).history() == st.csp.hists[i]
    &&& forall|i: int| 0 <= i < csp.pfb@.len() ==> (#[trigger] csp.pfb@[i]).leftover() == st.csp.bufs[i]
    &&& csp.shifter.idx == st.csp.cidx
    &&& csp.shifter.factor@ == cfg.fine_factors
    &&& osc.phasor == st.os.phasor
    &&& osc.step == cfg.w
}

/// Fill a vector with the oscillator's next `len` samples.
fn fill_tone(osc: &mut COscillator, len: usize) -> (r: Vec<Complex64>)
    ensures
        r@ == tone_chunk(old(osc).phasor, old(osc).step, len as int),
        final(osc).phasor == osc_phasor(old(osc).phasor, old(osc).step, len as int),
        final(osc).step == old(osc).step,
{
    let mut r: Vec<Complex64> = Vec::new();
    for j in 0..len
        invariant
            osc.step == old(osc).step,
            osc.phasor == osc_phasor(old(osc).phasor, old(osc).step, j as int),
            r@.len() == j,
            forall|j2: int|
                0 <= j2 < j ==> r@[j2] == osc_phasor(old(osc).phasor, old(osc).step, j2),
    {
        let y = osc.get();
        r.push(y);
    }
    assert(r@ =~= tone_chunk(old(osc).phasor, old(osc).step, len as int));
    r
}

/// Output columns of a second-stage iteration on input `x`.
pub open spec fn csp_cols(st: CspState, x: Seq<Seq<Complex64>>, m: int) -> int {
    (st.bufs[0].len() + x[0].len()) as int / m
}

/// One first-stage iteration: generate a tone block and run it through the
/// oversampled analyzer; return the coarse matrix.
fn os_once(
    coarse: &mut ospfb::Analyzer,
    osc: &mut COscillator,
    signal_len: usize,
    Ghost(st): Ghost<OsState>,
    Ghost(cfg): Ghost<SweepCfg>,
) -> (r: Vec<Vec<Complex64>>)
    requires
        os_matches(*old(coarse), st, cfg),
        old(osc).phasor == st.phasor,
        old(osc).step == cfg.w,
        cfg.len == signal_len,
        2 * cfg.n + signal_len <= usize::MAX,
    ensures
        os_matches(*final(coarse), os_step(st, cfg.w, cfg.os_factors, cfg.n, cfg.len), cfg),
        final(osc).phasor == os_step(st, cfg.w, cfg.os_factors, cfg.n, cfg.len).phasor,
        final(osc).step == cfg.w,
        rows_view(r@) == os_matrix(st, cfg),
        r@.len() == 2 * cfg.n,
        forall|ch: int| 0 <= ch < r@.len() ==> (#[trigger] r@[ch])@.len() == os_cols(st, cfg),
{
    let ghost chunk = tone_chunk(st.phasor, cfg.w, cfg.len);
    let ghost stream = st.buf + chunk;
    let ghost n = cfg.n;

    let sig = fill_tone(osc, signal_len);
    proof {
        assert(old(coarse).leftover().len() < cfg.n);
        assert(old(coarse).stream(sig@) == stream);
    }
    let y = coarse.analyze(sig.as_slice());
    proof {
        let l = blocks(stream, n);
        assert(old(coarse).out_len(sig@) == l);
        assert(old(coarse).shifted_stream(sig@) =~= shifted_by(stream, cfg.os_factors, st.sidx));
        assert(coarse.filter_even.history() == os_step(st, cfg.w, cfg.os_factors, n, cfg.len).he);
        assert(coarse.filter_odd.history() == os_step(st, cfg.w, cfg.os_factors, n, cfg.len).ho);
        assert(coarse.leftover() == os_step(st, cfg.w, cfg.os_factors, n, cfg.len).buf);
        assert(coarse.shifter.idx == os_step(st, cfg.w, cfg.os_factors, n, cfg.len).sidx);
        assert forall|ch: int, i: int|
            0 <= ch < 2 * n && 0 <= i < l implies y@[ch]@[i] == os_entry(st, cfg, ch, i) by {
            assert(y@[ch]@[i] == old(coarse).out_entry(sig@, ch, i));
        }
        assert(rows_view(y@) =~~= os_matrix(st, cfg));
        assert(os_cols(st, cfg) == l);
    }
    y
}

/// One pipeline iteration: generate a tone block, run the first stage, run
/// the cascade; return the coarse and fine matrices.
fn sweep_once(
    coarse: &mut ospfb::Analyzer,
    csp: &mut CspPfb,
    osc: &mut COscillator,
    signal_len: usize,
    Ghost(st): Ghost<SweepState>,
    Ghost(cfg): Ghost<SweepCfg>,
) -> (r: (Vec<Vec<Complex64>>, Vec<Vec<Complex64>>))
    requires
        pipeline_matches(*old(coarse), *old(csp), *old(osc), st, cfg),
        cfg.len == signal_len,
        2 * cfg.n + cfg.m + signal_len <= usize::MAX,
        forall|i: int| 0 <= i < cfg.sel.len() ==> (#[trigger] cfg.sel[i]) < 2 * cfg.n,
    ensures
        pipeline_matches(*final(coarse), *final(csp), *final(osc), sweep_step(st, cfg), cfg),
        rows_view(r.0@) == os_matrix(st.os, cfg),
        r.1@.len() == cfg.sel.len() * (cfg.m / 2),
        forall|row: int|
            0 <= row < r.1@.len() ==> (#[trigger] r.1@[row])@.len() == csp_cols(
                st.csp,
                os_matrix(st.os, cfg),
                cfg.m,
            ),
        forall|row: int, j: int|
            0 <= row < r.1@.len() && 0 <= j < csp_cols(st.csp, os_matrix(st.os, cfg), cfg.m)
                ==> r.1@[row]@[j] == csp_entry(st.csp, os_matrix(st.os, cfg), cfg, row, j),
{
    let ghost chunk = tone_chunk(st.os.phasor, cfg.w, cfg.len);
    let ghost stream = st.os.buf + chunk;
    let ghost n = cfg.n;
    let ghost x_model = os_matrix(st.os, cfg);

    let y = os_once(coarse, osc, signal_len, Ghost(st.os), Ghost(cfg));
    proof {
        assert(rows_view(y@) == x_model);
        assert(forall|ch: int| 0 <= ch < y@.len() ==> (#[trigger] y@[ch])@ == x_model[ch]);
        assert(csp.pfb@[0].leftover().len() < cfg.m);
        vstd::arithmetic::div_mod::lemma_div_nonincreasing(stream.len() as int, n as int);
        assert(y@[0]@.len() == blocks(stream, n));
        assert(blocks(stream, n) <= stream.len());
        assert(stream.len() < cfg.n + 1 + signal_len);
    }
    let fine = csp.analyze(&y);
    proof {
        let l = blocks(stream, n);
        let m = cfg.m;
        let k = cfg.sel.len() as int;
        let xv = rows_view(y@);
        assert(xv == x_model);
        assert(x_model[0].len() == l);
        assert forall|i: int| 0 <= i < k implies old(csp).sel_row(xv, i) =~= csp_sel_row(
            x_model,
            cfg.sel[i] as int,
            cfg.fine_factors,
            st.csp.cidx,
        ) by {}
        let stc = csp_step(st.csp, x_model, cfg);
        assert forall|i: int| 0 <= i < k implies csp.pfb@[i].history() == stc.hists[i]
            && csp.pfb@[i].leftover() == stc.bufs[i] by {
            assert(old(csp).sel_row(xv, i) == csp_sel_row(
                x_model,
                cfg.sel[i] as int,
                cfg.fine_factors,
                st.csp.cidx,
            ));
            assert(csp.pfb@[i].history() == old(csp).pfb@[i].after_history(
                old(csp).sel_row(xv, i),
            ));
        }
        assert(csp.shifter.idx == stc.cidx);
        assert forall|row: int, j: int|
            0 <= row < k * (m / 2) && 0 <= j < csp_cols(st.csp, x_model, m) implies fine@[row]@[j]
            == csp_entry(st.csp, x_model, cfg, row, j) by {
            vstd::arithmetic::div_mod::lemma_fundamental_div_mod(row, m / 2);
            vstd::arithmetic::div_mod::lemma_mod_division_less_than_divisor(row, m / 2);
            vstd::arithmetic::div_mod::lemma_div_pos_is_pos(row, m / 2);
            let i = row / (m / 2);
            assert(i < k) by (nonlinear_arith)
                requires
                    row < k * (m / 2),
                    row == (m / 2) * i + row % (m / 2),
                    0 <= row % (m / 2),
                    0 <= i,
                    m / 2 >= 1,
            ;
            assert(old(csp).sel_row(xv, i) == csp_sel_row(
                x_model,
                cfg.sel[i] as int,
                cfg.fine_factors,
                st.csp.cidx,
            ));
            assert(fine@[row]@[j] == old(csp).fine_entry(xv, i, row % (m / 2), j));
        }
        assert(fine@.len() == k * (m / 2));
    }
    (y, fine)
}

/// Measure the two-stage channelizer's response to one tone.
///
/// A fresh pipeline is built from the prototypes — an oversampled first
/// stage with `nch_coarse` channels, a cascade of `2 * nch_fine`-channel
/// analyzers over `selected_coarse_ch` — and driven `niter` times with
/// `signal_len` samples of the phase-continuous tone whose per-sample
/// phasor step is `freq_step`.  The first `niter - 1` iterations only warm
/// the delay lines up; the last one is measured.  Returned are the energy
/// (sum of squared norms over time, in the real part) of each selected
/// coarse channel, and of each fine channel.
pub fn ampl_resp_2stages_1freq(
    nch_coarse: usize,
    nch_fine: usize,
    coeff_coarse: &[Complex64],
    coeff_fine: &[Complex64],
    selected_coarse_ch: &[usize],
    freq_step: Complex64,
    signal_len: usize,
    niter: usize,
) -> (r: (Vec<Complex64>, Vec<Complex64>))
    requires
        nch_coarse % 2 == 0,
        nch_coarse >= 2,
        nch_coarse <= 0x8000_0000,
        coeff_coarse@.len() >= nch_coarse / 2,
        coeff_coarse@.len() as int % (nch_coarse as int / 2) == 0,
        nch_fine % 2 == 0,
        nch_fine >= 2,
        nch_fine <= 0x2000_0000,
        coeff_fine@.len() >= 2 * nch_fine,
        coeff_fine@.len() as int % (2 * nch_fine as int) == 0,
        selected_coarse_ch@.len() >= 1,
        forall|i: int|
            0 <= i < selected_coarse_ch@.len() ==> (#[trigger] selected_coarse_ch@[i])
                < nch_coarse,
        niter >= 1,
        nch_coarse + 2 * nch_fine + signal_len <= usize::MAX,
    ensures
        ({
            let cfg = cfg_of(
                nch_coarse as int,
                nch_fine as int,
                coeff_coarse@,
                coeff_fine@,
                selected_coarse_ch@,
                freq_step,
                signal_len as int,
            );
            let tap_c = coeff_coarse@.len() as int / (nch_coarse as int / 2);
            let tap_f = coeff_fine@.len() as int / (2 * nch_fine as int);
            let st = sweep_iter(
                sweep_start(cfg, tap_c, tap_f, selected_coarse_ch@.len() as int),
                cfg,
                niter - 1,
            );
            let x = os_matrix(st.os, cfg);
            &&& r.0@.len() == selected_coarse_ch@.len()
            &&& forall|ci: int|
                0 <= ci < selected_coarse_ch@.len() ==> r.0@[ci] == row_energy(
                    x[selected_coarse_ch@[ci] as int],
                )
            &&& r.1@.len() == selected_coarse_ch@.len() * (nch_fine as int)
            &&& forall|row: int|
                0 <= row < r.1@.len() ==> r.1@[row] == row_energy(
                    Seq::new(
                        csp_cols(st.csp, x, cfg.m) as nat,
                        |j: int| csp_entry(st.csp, x, cfg, row, j),
                    ),
                )
        }),
{
    let ghost cfg = cfg_of(
        nch_coarse as int,
        nch_fine as int,
        coeff_coarse@,
        coeff_fine@,
        selected_coarse_ch@,
        freq_step,
        signal_len as int,
    );
    let n = nch_coarse / 2;
    let m = nch_fine * 2;
    let mut coarse_pfb = ospfb::Analyzer::new(nch_coarse, coeff_coarse);
    let fine_pfb = cspfb::Analyzer::new(m, coeff_fine);
    let mut csp = CspPfb::new(selected_coarse_ch, &fine_pfb);
    let mut osc = COscillator::new(cx_from_usize(1), freq_step);
    let ghost tap_c = coeff_coarse@.len() as int / (nch_coarse as int / 2);
    let ghost tap_f = coeff_fine@.len() as int / (2 * nch_fine as int);
    let ghost k = selected_coarse_ch@.len() as int;
    let ghost st0 = sweep_start(cfg, tap_c, tap_f, k);
    proof {
        assert(coarse_pfb.filter_even.history().len() == tap_c);
        assert forall|t: int| 0 <= t < tap_c implies coarse_pfb.filter_even.history()[t]
            =~= zero_hist(tap_c, cfg.n)[t] by {}
        assert(coarse_pfb.filter_even.history() =~= zero_hist(tap_c, cfg.n));
        assert forall|t: int| 0 <= t < tap_c implies coarse_pfb.filter_odd.history()[t]
            =~= zero_hist(tap_c, cfg.n)[t] by {}
        assert(coarse_pfb.filter_odd.history() =~= zero_hist(tap_c, cfg.n));
        assert(coarse_pfb.coeffs().len() == tap_c);
        assert forall|t: int| 0 <= t < tap_c implies coarse_pfb.coeffs()[t] =~= proto_table(
            coeff_coarse@,
            cfg.n,
        )[t] by {}
        assert(coarse_pfb.coeffs() =~= proto_table(coeff_coarse@, cfg.n));
        assert(coarse_pfb.shifter.factor@ =~= cfg.os_factors);
        assert(coarse_pfb.leftover() =~= st0.os.buf);
        assert(fine_pfb.history().len() == tap_f);
        assert forall|i: int| 0 <= i < k implies csp.pfb@[i].history() =~~= st0.csp.hists[i] by {
            assert forall|t: int| 0 <= t < tap_f implies fine_pfb.history()[t] =~= zero_hist(
                tap_f,
                cfg.m,
            )[t] by {}
            assert(csp.pfb@[i].history() == fine_pfb.history());
        }
        assert forall|i: int| 0 <= i < k implies csp.pfb@[i].leftover() =~= st0.csp.bufs[i] by {
            assert(csp.pfb@[i].leftover() == fine_pfb.leftover());
        }
        assert(fine_pfb.coeffs().len() == tap_f);
        assert forall|i: int| 0 <= i < k implies (#[trigger] csp.pfb@[i]).coeffs() =~~= cfg.fine_coeff by {
            assert forall|t: int| 0 <= t < tap_f implies fine_pfb.coeffs()[t] =~= proto_table(
                coeff_fine@,
                cfg.m,
            )[t] by {}
            assert(fine_pfb.coeffs() =~= proto_table(coeff_fine@, cfg.m));
            assert(csp.pfb@[i].coeffs() == fine_pfb.coeffs());
        }
        assert(csp.shifter.factor@ =~= cfg.fine_factors);
        assert(pipeline_matches(coarse_pfb, csp, osc, st0, cfg));
    }
    let mut warm: usize = 0;
    while warm < niter - 1
        invariant
            warm <= niter - 1,
            cfg.len == signal_len,
            cfg.n == nch_coarse as int / 2,
            cfg.m == 2 * nch_fine,
            cfg.sel == selected_coarse_ch@,
            forall|i: int|
                0 <= i < selected_coarse_ch@.len() ==> (#[trigger] selected_coarse_ch@[i])
                    < nch_coarse,
            nch_coarse % 2 == 0,
            nch_coarse + 2 * nch_fine + signal_len <= usize::MAX,
            pipeline_matches(coarse_pfb, csp, osc, sweep_iter(st0, cfg, warm as int), cfg),
        decreases niter - 1 - warm,
    {
        let _ = sweep_once(
            &mut coarse_pfb,
            &mut csp,
            &mut osc,
            signal_len,
            Ghost(sweep_iter(st0, cfg, warm as int)),
            Ghost(cfg),
        );
        proof {
            assert(sweep_iter(st0, cfg, warm + 1) == sweep_step(
                sweep_iter(st0, cfg, warm as int),
                cfg,
            ));
        }
        warm = warm + 1;
    }
    let ghost stf = sweep_iter(st0, cfg, niter - 1);
    let (y, fine) = sweep_once(
        &mut coarse_pfb,
        &mut csp,
        &mut osc,
        signal_len,
        Ghost(stf),
        Ghost(cfg),
    );
    let ghost x_model = os_matrix(stf.os, cfg);
    proof {
        assert(cfg.n >= 1);
        assert(rows_view(y@).len() == y@.len());
        assert(x_model.len() == (2 * cfg.n) as nat);
    }
    let en = energies(&y);
    let kk = selected_coarse_ch.len();
    let mut coarse_resp: Vec<Complex64> = Vec::new();
    for ci in 0..kk
        invariant
            kk == selected_coarse_ch@.len(),
            forall|i: int|
                0 <= i < selected_coarse_ch@.len() ==> (#[trigger] selected_coarse_ch@[i])
                    < nch_coarse,
            rows_view(y@) == x_model,
            y@.len() == 2 * cfg.n,
            nch_coarse == 2 * cfg.n,
            en@.len() == y@.len(),
            forall|row: int| 0 <= row < y@.len() ==> en@[row] == row_energy(y@[row]@),
            coarse_resp@.len() == ci,
            forall|c2: int|
                0 <= c2 < ci ==> coarse_resp@[c2] == row_energy(
                    x_model[selected_coarse_ch@[c2] as int],
                ),
    {
        let c = selected_coarse_ch[ci];
        let e = en[c];
        proof {
            assert(y@[c as int]@ == rows_view(y@)[c as int]);
        }
        coarse_resp.push(e);
    }
    let fine_resp = energies(&fine);
    proof {
        assert forall|row: int| 0 <= row < fine@.len() implies fine_resp@[row] == row_energy(
            Seq::new(
                csp_cols(stf.csp, x_model, cfg.m) as nat,
                |j: int| csp_entry(stf.csp, x_model, cfg, row, j),
            ),
        ) by {
            assert(fine@[row]@ =~= Seq::new(
                csp_cols(stf.csp, x_model, cfg.m) as nat,
                |j: int| csp_entry(stf.csp, x_model, cfg, row, j),
            ));
        }
        assert(fine_resp@.len() == k * (cfg.m / 2));
        assert(cfg.m / 2 == nch_fine);
    }
    (coarse_resp, fine_resp)
}

/// Sweep the amplitude response of one oversampled analyzer across tones.
///
/// For each entry of `tone_steps` (the tone's per-sample phasor step), a
/// fresh oscillator starting at phasor one drives `pfb` for `niter` blocks
/// of `signal_len` samples; the last block's output is measured.  The
/// analyzer's delay lines, leftover and shifter carry over from one tone to
/// the next.  Row `ch`, column `f` of the result holds the mean over time
/// of the squared channel norms, in its real part.
pub fn ampl_resp(
    pfb: &mut ospfb::Analyzer,
    tone_steps: &[Complex64],
    signal_len: usize,
    niter: usize,
) -> (r: Vec<Vec<Complex64>>)
    requires
        old(pfb).wf(),
        niter >= 1,
        signal_len >= old(pfb).nch_each(),
        2 * old(pfb).nch_each() + signal_len <= usize::MAX,
        old(pfb).nch_total_spec() <= usize::MAX,
    ensures
        ({
            let st0 = OsState {
                he: old(pfb).filter_even.history(),
                ho: old(pfb).filter_odd.history(),
                buf: old(pfb).leftover(),
                sidx: old(pfb).shifter.idx as int,
                phasor: cfromu(1),
            };
            let factors = old(pfb).shifter.factor@;
            let n = old(pfb).nch_each();
            let coeff = old(pfb).coeffs();
            &&& final(pfb).wf()
            &&& os_matches(
                *final(pfb),
                ar_state(
                    st0,
                    tone_steps@,
                    factors,
                    n,
                    signal_len as int,
                    niter as int,
                    tone_steps@.len() as int,
                ),
                os_only_cfg(cfromu(1), factors, coeff, n, signal_len as int),
            )
            &&& r@.len() == 2 * n
            &&& forall|ch: int|
                0 <= ch < r@.len() ==> (#[trigger] r@[ch])@.len() == tone_steps@.len()
            &&& forall|ch: int, f: int|
                0 <= ch < 2 * n && 0 <= f < tone_steps@.len() ==> r@[ch]@[f] == ({
                    let cfgf = os_only_cfg(tone_steps@[f], factors, coeff, n, signal_len as int);
                    let stm = os_iter(
                        ar_reset(
                            ar_state(
                                st0,
                                tone_steps@,
                                factors,
                                n,
                                signal_len as int,
                                niter as int,
                                f,
                            ),
                        ),
                        tone_steps@[f],
                        factors,
                        n,
                        signal_len as int,
                        niter - 1,
                    );
                    cdiv_re(
                        row_energy(
                            Seq::new(os_cols(stm, cfgf) as nat, |i: int| os_entry(stm, cfgf, ch, i)),
                        ),
                        cfromu(os_cols(stm, cfgf)),
                    )
                })
        }),
{
    let ghost st0 = OsState {
        he: old(pfb).filter_even.history(),
        ho: old(pfb).filter_odd.history(),
        buf: old(pfb).leftover(),
        sidx: old(pfb).shifter.idx as int,
        phasor: cfromu(1),
    };
    let ghost factors = old(pfb).shifter.factor@;
    let ghost n_g = old(pfb).nch_each();
    let ghost coeff = old(pfb).coeffs();
    let ghost len_g = signal_len as int;
    let ghost niter_g = niter as int;

    let n_freq = tone_steps.len();
    let nch_tot = pfb.nch_total();
    let mut cols: Vec<Vec<Complex64>> = Vec::new();
    for f in 0..n_freq
        invariant
            n_freq == tone_steps@.len(),
            niter >= 1,
            niter_g == niter,
            len_g == signal_len,
            signal_len >= n_g,
            2 * n_g + signal_len <= usize::MAX,
            nch_tot == 2 * n_g,
            os_matches(
                *pfb,
                ar_state(st0, tone_steps@, factors, n_g, len_g, niter_g, f as int),
                os_only_cfg(cfromu(1), factors, coeff, n_g, len_g),
            ),
            cols@.len() == f,
            forall|f2: int|
                0 <= f2 < f ==> (#[trigger] cols@[f2])@.len() == 2 * n_g,
            forall|f2: int, ch: int|
                0 <= f2 < f && 0 <= ch < 2 * n_g ==> cols@[f2]@[ch] == ({
                    let cfgf = os_only_cfg(tone_steps@[f2], factors, coeff, n_g, len_g);
                    let stm = os_iter(
                        ar_reset(ar_state(st0, tone_steps@, factors, n_g, len_g, niter_g, f2)),
                        tone_steps@[f2],
                        factors,
                        n_g,
                        len_g,
                        niter_g - 1,
                    );
                    cdiv_re(
                        row_energy(
                            Seq::new(os_cols(stm, cfgf) as nat, |i: int| os_entry(stm, cfgf, ch, i)),
                        ),
                        cfromu(os_cols(stm, cfgf)),
                    )
                }),
    {
        let ghost cfgf = os_only_cfg(tone_steps@[f as int], factors, coeff, n_g, len_g);
        let ghost base = ar_reset(ar_state(st0, tone_steps@, factors, n_g, len_g, niter_g, f as int));
        let mut osc = COscillator::new(cx_from_usize(1), tone_steps[f]);
        proof {
            assert(os_matches(*pfb, base, cfgf));
        }
        let mut it: usize = 0;
        while it < niter - 1
            invariant
                it <= niter - 1,
                len_g == signal_len,
                2 * n_g + signal_len <= usize::MAX,
                cfgf == os_only_cfg(tone_steps@[f as int], factors, coeff, n_g, len_g),
                os_matches(*pfb, os_iter(base, cfgf.w, factors, n_g, len_g, it as int), cfgf),
                osc.phasor == os_iter(base, cfgf.w, factors, n_g, len_g, it as int).phasor,
                osc.step == cfgf.w,
            decreases niter - 1 - it,
        {
            let _ = os_once(
                pfb,
                &mut osc,
                signal_len,
                Ghost(os_iter(base, cfgf.w, factors, n_g, len_g, it as int)),
                Ghost(cfgf),
            );
            proof {
                assert(os_iter(base, cfgf.w, factors, n_g, len_g, it + 1) == os_step(
                    os_iter(base, cfgf.w, factors, n_g, len_g, it as int),
                    cfgf.w,
                    factors,
                    n_g,
                    len_g,
                ));
            }
            it = it + 1;
        }
        let ghost stm = os_iter(base, cfgf.w, factors, n_g, len_g, niter_g - 1);
        let y = os_once(pfb, &mut osc, signal_len, Ghost(stm), Ghost(cfgf));
        proof {
            assert(os_iter(base, cfgf.w, factors, n_g, len_g, niter_g) == os_step(
                stm,
                cfgf.w,
                factors,
                n_g,
                len_g,
            ));
            assert(ar_state(st0, tone_steps@, factors, n_g, len_g, niter_g, f + 1) == os_iter(
                base,
                cfgf.w,
                factors,
                n_g,
                len_g,
                niter_g,
            ));
            // One full stripe is always available, so the mean is over at
            // least one column.
            let stream = stm.buf + tone_chunk(stm.phasor, cfgf.w, cfgf.len);
            assert(stream.len() >= n_g);
            vstd::arithmetic::div_mod::lemma_div_non_zero(stream.len() as int, n_g);
            assert(os_cols(stm, cfgf) >= 1);
        }
        let en = energies(&y);
        let l = y[0].len();
        proof {
            assert(y@[0]@.len() == os_cols(stm, cfgf));
        }
        let lc = cx_from_usize(l);
        let mut mean: Vec<Complex64> = Vec::new();
        for ch in 0..nch_tot
            invariant
                nch_tot == 2 * n_g,
                y@.len() == 2 * n_g,
                rows_view(y@) == os_matrix(stm, cfgf),
                en@.len() == y@.len(),
                forall|row: int| 0 <= row < y@.len() ==> en@[row] == row_energy(y@[row]@),
                l == os_cols(stm, cfgf),
                lc == cfromu(l as int),
                mean@.len() == ch,
                forall|c2: int|
                    0 <= c2 < ch ==> mean@[c2] == cdiv_re(
                        row_energy(os_matrix(stm, cfgf)[c2]),
                        cfromu(os_cols(stm, cfgf)),
                    ),
        {
            let e = cx_div_re(en[ch], lc);
            proof {
                assert(y@[ch as int]@ == rows_view(y@)[ch as int]);
            }
            mean.push(e);
        }
        proof {
            assert forall|c2: int| 0 <= c2 < 2 * n_g implies os_matrix(stm, cfgf)[c2] =~= Seq::new(
                os_cols(stm, cfgf) as nat,
                |i: int| os_entry(stm, cfgf, c2, i),
            ) by {}
        }
        cols.push(mean);
    }
    let mut result: Vec<Vec<Complex64>> = Vec::new();
    for ch in 0..nch_tot
        invariant
            nch_tot == 2 * n_g,
            n_freq == tone_steps@.len(),
            cols@.len() == n_freq,
            forall|f2: int|
                0 <= f2 < n_freq ==> (#[trigger] cols@[f2])@.len() == 2 * n_g,
            result@.len() == ch,
            forall|c2: int| 0 <= c2 < ch ==> (#[trigger] result@[c2])@.len() == n_freq,
            forall|c2: int, f2: int|
                0 <= c2 < ch && 0 <= f2 < n_freq ==> result@[c2]@[f2] == cols@[f2]@[c2],
    {
        let mut rowv: Vec<Complex64> = Vec::new();
        for f in 0..n_freq
            invariant
                ch < nch_tot,
                nch_tot == 2 * n_g,
                n_freq == tone_steps@.len(),
                cols@.len() == n_freq,
                forall|f2: int|
                    0 <= f2 < n_freq ==> (#[trigger] cols@[f2])@.len() == 2 * n_g,
                rowv@.len() == f,
                forall|f2: int| 0 <= f2 < f ==> rowv@[f2] == cols@[f2]@[ch as int],
        {
            rowv.push(cols[f][ch]);
        }
        result.push(rowv);
    }
    result
}

/// The energy of each row of a matrix, as a vector of samples whose real
/// parts carry the sums of squared norms.
fn energies(x: &Vec<Vec<Complex64>>) -> (r: Vec<Complex64>)
    ensures
        r@.len() == x@.len(),
        forall|row: int| 0 <= row < x@.len() ==> r@[row] == row_energy(x@[row]@),
{
    let mut r: Vec<Complex64> = Vec::new();
    let k = x.len();
    for row in 0..k
        invariant
            k == x@.len(),
            r@.len() == row,
            forall|row2: int| 0 <= row2 < row ==> r@[row2] == row_energy(x@[row2]@),
    {
        let d = x[row].len();
        let mut acc = cx_from_usize(0);
        for j in 0..d
            invariant
                row < k,
                k == x@.len(),
                d == x@[row as int]@.len(),
                acc == energy_acc(x@[row as int]@, j as int),
        {
            acc = cx_add(acc, cx_norm_sqr(x[row][j]));
        }
        r.push(acc);
    }
    r
}

} // verus!
