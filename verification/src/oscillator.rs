//! Phasor generators for single-frequency complex signals, and the half-bin
//! shifter the filter banks use.
//!
//! A tone is carried as a pair of unit phasors: the current sample and the
//! per-sample step `e^{i dphi}`; advancing multiplies the two.  The half-bin
//! shifter tabulates the `2 nch` successive powers of the half-channel step
//! `e^{+-i pi/nch}`, which it obtains as a DFT twiddle factor: the forward
//! DFT of a unit impulse at index 1 is exactly the sequence
//! `e^{-2 pi i k/n}`, so index 1 (or `n - 1` for an upward shift) of a
//! length-`2 nch` transform is the wanted step.
use vstd::prelude::*;

verus! {

use num::complex::Complex64;
use crate::cpx::cfromu;
use crate::cpx::cmul;
use crate::cpx::cpow;
use crate::cpx::cre;
use crate::cpx::cx_from_usize;
use crate::cpx::cx_mul;
use crate::cpx::cx_powu;
use crate::cpx::cx_re;
use crate::utils::dft_of;
use crate::utils::fft;

/// The phasor after `n` advances: `start` multiplied `n` times by `step`,
/// in order.
pub open spec fn osc_phasor(start: Complex64, step: Complex64, n: int) -> Complex64
    decreases n,
{
    if n <= 0 {
        start
    } else {
        cmul(osc_phasor(start, step, n - 1), step)
    }
}

/// A complex oscillator: yields its phasor, then multiplies it by the step.
pub struct COscillator {
    /// The sample the next call yields.
    pub phasor: Complex64,
    /// The factor one sample advances the phasor by.
    pub step: Complex64,
}

impl COscillator {
    /// Start an oscillator at `phasor`, advancing by `step` per sample.
    pub fn new(phasor: Complex64, step: Complex64) -> (r: COscillator)
        ensures
            r.phasor == phasor,
            r.step == step,
    {
        COscillator { phasor, step }
    }

    /// The next sample: the current phasor; the state advances one step.
    pub fn get(&mut self) -> (r: Complex64)
        ensures
            r == old(self).phasor,
            final(self).phasor == cmul(old(self).phasor, old(self).step),
            final(self).step == old(self).step,
    {
        let y = self.phasor;
        self.phasor = cx_mul(self.phasor, self.step);
        y
    }
}

/// A frequency-sweeping oscillator: like [`COscillator`], but the step
/// itself advances by a constant `sweep` factor each sample.
pub struct CFreqScanner {
    /// The sample the next call yields.
    pub phasor: Complex64,
    /// The factor one sample advances the phasor by.
    pub step: Complex64,
    /// The factor one sample advances the step by.
    pub sweep: Complex64,
}

impl CFreqScanner {
    /// Start a scanner at `phasor` with initial `step` and step growth
    /// `sweep`.
    pub fn new(phasor: Complex64, step: Complex64, sweep: Complex64) -> (r: CFreqScanner)
        ensures
            r.phasor == phasor,
            r.step == step,
            r.sweep == sweep,
    {
        CFreqScanner { phasor, step, sweep }
    }

    /// The next sample: the current phasor; phasor and step both advance.
    pub fn get(&mut self) -> (r: Complex64)
        ensures
            r == old(self).phasor,
            final(self).phasor == cmul(old(self).phasor, old(self).step),
            final(self).step == cmul(old(self).step, old(self).sweep),
            final(self).sweep == old(self).sweep,
    {
        let y = self.phasor;
        self.phasor = cx_mul(self.phasor, self.step);
        self.step = cx_mul(self.step, self.sweep);
        y
    }
}

/// A real oscillator: yields the real part of its phasor, then advances.
pub struct ROscillator {
    /// The phasor whose real part the next call yields.
    pub phasor: Complex64,
    /// The factor one sample advances the phasor by.
    pub step: Complex64,
}

impl ROscillator {
    /// Start an oscillator at `phasor`, advancing by `step` per sample.
    pub fn new(phasor: Complex64, step: Complex64) -> (r: ROscillator)
        ensures
            r.phasor == phasor,
            r.step == step,
    {
        ROscillator { phasor, step }
    }

    /// The next sample: the current phasor's real part (as a sample with
    /// zero imaginary part); the state advances one step.
    pub fn get(&mut self) -> (r: Complex64)
        ensures
            r == cre(old(self).phasor),
            final(self).phasor == cmul(old(self).phasor, old(self).step),
            final(self).step == old(self).step,
    {
        let y = cx_re(self.phasor);
        self.phasor = cx_mul(self.phasor, self.step);
        y
    }
}

/// A unit impulse at index 1 of a length-`n` signal.
pub open spec fn unit_impulse(n: int) -> Seq<Complex64> {
    Seq::new(n as nat, |i: int| if i == 1 { cfromu(1) } else { cfromu(0) })
}

/// The half-channel step phasor `e^{+-i pi/nch}`: the DFT of a unit impulse
/// at index 1 is `e^{-2 pi i k/n}` at point `k`, so over a period of
/// `2 nch` points, index 1 is the downward step and index `2 nch - 1` the
/// upward one.
pub open spec fn half_shift_base(nch: int, upshift: bool) -> Complex64 {
    let tw = dft_of(unit_impulse(2 * nch));
    if upshift {
        tw[2 * nch - 1]
    } else {
        tw[1]
    }
}

/// Shifts a signal by half a channel spacing: a cyclic table of the first
/// `2 nch` powers of the half-channel step, read one factor per sample.
pub struct HalfChShifter {
    /// Number of channels; the table's period is `2 * nch`.
    pub nch: usize,
    /// The tabulated factors: `factor[i]` is the step to the power `i`.
    pub factor: Vec<Complex64>,
    /// The index of the factor the next call yields.
    pub idx: usize,
}

impl HalfChShifter {
    /// The table's period, `2 * nch`.
    pub open spec fn period(self) -> int {
        2 * self.nch
    }

    /// A full table with the cursor inside it.
    pub open spec fn wf(self) -> bool {
        &&& self.nch >= 1
        &&& self.nch <= 0x4000_0000
        &&& self.factor@.len() == self.period()
        &&& (self.idx as int) < self.period()
    }

    /// Build the shifter for `nch` channels, shifting the frequency upward
    /// (`true`) or downward (`false`): the table holds the powers
    /// `0 .. 2 nch` of the half-channel step, and the cursor starts at 0.
    pub fn new(nch: usize, upshift: bool) -> (r: HalfChShifter)
        requires
            1 <= nch <= 0x4000_0000,
        ensures
            r.wf(),
            r.nch == nch,
            r.idx == 0,
            forall|i: int|
                0 <= i < 2 * nch ==> r.factor@[i] == cpow(
                    half_shift_base(nch as int, upshift),
                    i,
                ),
    {
        let period = 2 * nch;
        let mut impulse: Vec<Complex64> = Vec::new();
        for i in 0..period
            invariant
                impulse@.len() == i,
                forall|j: int|
                    0 <= j < i ==> impulse@[j] == (if j == 1 {
                        cfromu(1)
                    } else {
                        cfromu(0)
                    }),
        {
            if i == 1 {
                impulse.push(cx_from_usize(1));
            } else {
                impulse.push(cx_from_usize(0));
            }
        }
        assert(impulse@ =~= unit_impulse(period as int));
        let tw = fft(impulse.as_slice());
        let base = if upshift {
            tw[period - 1]
        } else {
            tw[1]
        };
        assert(base == half_shift_base(nch as int, upshift));
        let mut factor: Vec<Complex64> = Vec::new();
        for i in 0..period
            invariant
                period <= 0x8000_0000,
                factor@.len() == i,
                forall|j: int| 0 <= j < i ==> factor@[j] == cpow(base, j),
        {
            factor.push(cx_powu(base, i as u32));
        }
        HalfChShifter { nch, factor, idx: 0 }
    }

    /// The next factor: the table entry under the cursor; the cursor steps
    /// on cyclically.
    pub fn get(&mut self) -> (r: Complex64)
        requires
            old(self).wf(),
        ensures
            final(self).wf(),
            final(self).nch == old(self).nch,
            final(self).factor == old(self).factor,
            r == old(self).factor@[old(self).idx as int],
            final(self).idx == if old(self).idx + 1 == old(self).period() {
                0
            } else {
                old(self).idx + 1
            },
    {
        let x = self.factor[self.idx];
        self.idx = if self.idx + 1 == self.factor.len() {
            0
        } else {
            self.idx + 1
        };
        x
    }
}

} // verus!
