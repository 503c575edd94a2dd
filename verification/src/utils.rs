//! Transforms and small helpers shared by the filter banks: the forward and
//! inverse FFT (trusted wrappers over `rustfft`), the `fftshift` reordering
//! of DFT outputs, and a two-part slice view.
use vstd::prelude::*;

verus! {

use num::complex::Complex64;
use crate::cpx::cadd;
use crate::cpx::cconj;
use crate::cpx::cdiv_re;
use crate::cpx::cfromu;
use crate::cpx::cmul;
use crate::cpx::cx_add;
use crate::cpx::cx_conj;
use crate::cpx::cx_div_re;
use crate::cpx::cx_from_usize;
use crate::cpx::cx_mul;
use vstd::arithmetic::div_mod::lemma_fundamental_div_mod;
use vstd::arithmetic::div_mod::lemma_fundamental_div_mod_converse;
use vstd::arithmetic::div_mod::lemma_mod_division_less_than_divisor;

/// The view of a matrix held as a vector of row vectors.
pub open spec fn rows_view<T>(m: Seq<Vec<T>>) -> Seq<Seq<T>> {
    m.map_values(|r: Vec<T>| r@)
}

/// The forward DFT of `x`, as `rustfft`'s forward FFT computes it for a
/// fixed platform: a function of the samples alone, with no normalisation.
pub uninterp spec fn dft_of(x: Seq<Complex64>) -> Seq<Complex64>;

/// The unnormalised inverse DFT of `x`, as `rustfft`'s inverse FFT computes
/// it for a fixed platform: a function of the samples alone.
pub uninterp spec fn idft_raw_of(x: Seq<Complex64>) -> Seq<Complex64>;

/// Forward FFT of a signal, without normalisation.
///
/// Relies on `rustfft::FftPlanner::plan_fft_forward` and `Fft::process`: the
/// transform runs in place over a buffer of the input's length, and its
/// result depends on the input samples alone.
#[verifier::external_body]
pub fn fft(in_data: &[Complex64]) -> (r: Vec<Complex64>)
    requires
        in_data@.len() >= 1,
    ensures
        r@ == dft_of(in_data@),
        r@.len() == in_data@.len(),
{
    let mut output = Vec::from(in_data);
    let mut planner = rustfft::FftPlanner::new();
    let plan = planner.plan_fft_forward(in_data.len());
    plan.process(&mut output);
    output
}

/// Inverse FFT of a signal, without the `1/n` normalisation.
///
/// Relies on `rustfft::FftPlanner::plan_fft_inverse` and `Fft::process`: the
/// transform runs in place over a buffer of the input's length, and its
/// result depends on the input samples alone.
#[verifier::external_body]
pub fn ifft0(in_data: &[Complex64]) -> (r: Vec<Complex64>)
    requires
        in_data@.len() >= 1,
    ensures
        r@ == idft_raw_of(in_data@),
        r@.len() == in_data@.len(),
{
    let mut output = Vec::from(in_data);
    let mut planner = rustfft::FftPlanner::new();
    let plan = planner.plan_fft_inverse(in_data.len());
    plan.process(&mut output);
    output
}

/// Inverse FFT of a signal, each sample divided by the signal's length.
pub fn ifft(in_data: &[Complex64]) -> (r: Vec<Complex64>)
    requires
        in_data@.len() >= 1,
    ensures
        r@.len() == in_data@.len(),
        forall|i: int|
            0 <= i < r@.len() ==> r@[i] == cdiv_re(
                idft_raw_of(in_data@)[i],
                cfromu(in_data@.len() as int),
            ),
{
    let raw = ifft0(in_data);
    let norm = cx_from_usize(in_data.len());
    let mut out: Vec<Complex64> = Vec::new();
    let n = raw.len();
    for i in 0..n
        invariant
            n == raw@.len(),
            raw@ == idft_raw_of(in_data@),
            norm == cfromu(in_data@.len() as int),
            out@.len() == i,
            forall|j: int|
                0 <= j < i ==> out@[j] == cdiv_re(
                    idft_raw_of(in_data@)[j],
                    cfromu(in_data@.len() as int),
                ),
    {
        let y = cx_div_re(raw[i], norm);
        out.push(y);
    }
    out
}

/// What `fftshift` returns: the back half of the sequence, then the front
/// half, with the split after `(len + 1) / 2` elements.
pub open spec fn fftshift_spec<T>(s: Seq<T>) -> Seq<T> {
    let n = ((s.len() + 1) / 2) as int;
    s.skip(n) + s.take(n)
}

/// Reorder DFT outputs from `[0..n)` order to `[-n/2..n/2)` order.
pub fn fftshift<T: Copy>(in_data: &[T]) -> (r: Vec<T>)
    ensures
        r@ == fftshift_spec(in_data@),
{
    let len = in_data.len();
    let n = len / 2 + len % 2;
    assert(n == (in_data@.len() + 1) / 2);
    let mut result: Vec<T> = Vec::new();
    for i in n..len
        invariant
            n == (len + 1) / 2,
            len == in_data@.len(),
            result@ == in_data@.skip(n as int).take(i - n),
    {
        result.push(in_data[i]);
        assert(result@ =~= in_data@.skip(n as int).take(i + 1 - n));
    }
    assert(result@ =~= in_data@.skip(n as int));
    for i in 0..n
        invariant
            n == (len + 1) / 2,
            len == in_data@.len(),
            result@ == in_data@.skip(n as int) + in_data@.take(i as int),
    {
        result.push(in_data[i]);
        assert(result@ =~= in_data@.skip(n as int) + in_data@.take(i + 1));
    }
    result
}

/// Applying `fftshift` twice to an even-length sequence gives the sequence
/// back: the shift by `n/2` is its own inverse.
pub proof fn lemma_fftshift_involution<T>(s: Seq<T>)
    requires
        s.len() % 2 == 0,
    ensures
        fftshift_spec(fftshift_spec(s)) == s,
{
    assert(fftshift_spec(fftshift_spec(s)) =~= s);
}

/// `fftshift` on the first axis of a matrix: row `i` of the result is row
/// `i + n/2` (wrapping) of the input, which must have an even number of rows.
pub fn fftshift2<T: Copy>(in_data: &Vec<Vec<T>>) -> (r: Vec<Vec<T>>)
    requires
        in_data@.len() % 2 == 0,
    ensures
        r@.len() == in_data@.len(),
        forall|i: int|
            0 <= i < r@.len() ==> r@[i]@ == in_data@[
                if i < in_data@.len() / 2 {
                    i + in_data@.len() / 2
                } else {
                    i - in_data@.len() / 2
                }
            ]@,
{
    let len = in_data.len();
    let n2 = len / 2;
    let mut result: Vec<Vec<T>> = Vec::new();
    for i in 0..len
        invariant
            len == in_data@.len(),
            n2 == len / 2,
            len % 2 == 0,
            result@.len() == i,
            forall|j: int|
                0 <= j < i ==> result@[j]@ == in_data@[
                    if j < len / 2 {
                        j + len / 2
                    } else {
                        j - len / 2
                    }
                ]@,
    {
        let src = if i < n2 {
            i + n2
        } else {
            i - n2
        };
        let row = copy_within(&in_data[src], 0, in_data[src].len());
        result.push(row);
    }
    result
}

/// Copy the elements of `v` at indices `[a, b)` into a fresh vector.
pub fn copy_within<T: Copy>(v: &Vec<T>, a: usize, b: usize) -> (r: Vec<T>)
    requires
        a <= b <= v@.len(),
    ensures
        r@ == v@.subrange(a as int, b as int),
{
    let mut r: Vec<T> = Vec::new();
    for i in a..b
        invariant
            a <= b <= v@.len(),
            r@ == v@.subrange(a as int, i as int),
    {
        r.push(v[i]);
        assert(r@ =~= v@.subrange(a as int, i + 1));
    }
    r
}

/// Copy the elements of the slice `v` at indices `[a, b)` into a fresh
/// vector.
pub fn sub_to_vec<T: Copy>(v: &[T], a: usize, b: usize) -> (r: Vec<T>)
    requires
        a <= b <= v@.len(),
    ensures
        r@ == v@.subrange(a as int, b as int),
{
    let mut r: Vec<T> = Vec::new();
    for i in a..b
        invariant
            a <= b <= v@.len(),
            r@ == v@.subrange(a as int, i as int),
    {
        r.push(v[i]);
        assert(r@ =~= v@.subrange(a as int, i + 1));
    }
    r
}

/// The cross-correlation accumulator: the sum over the first `i` full
/// chunk pairs of `x` and `y` of the `j`-th spectral point of
/// `fft(x chunk) * conj(fft(y chunk))`, added up from the zero sample.
pub open spec fn corr_acc(x: Seq<Complex64>, y: Seq<Complex64>, fold: int, j: int, i: int) -> Complex64
    decreases i,
{
    if i <= 0 {
        cfromu(0)
    } else {
        cadd(
            corr_acc(x, y, fold, j, i - 1),
            cmul(
                dft_of(x.subrange((i - 1) * fold, i * fold))[j],
                cconj(dft_of(y.subrange((i - 1) * fold, i * fold))[j]),
            ),
        )
    }
}

/// Folded cross-spectrum of two signals: both are cut into chunks of
/// `fold_len` samples, and the products `fft(x chunk) * conj(fft(y chunk))`
/// of all full chunk pairs are summed pointwise.
pub fn corr(x: &[Complex64], y: &[Complex64], fold_len: usize) -> (r: Vec<Complex64>)
    requires
        fold_len >= 1,
    ensures
        r@.len() == fold_len,
        forall|j: int|
            0 <= j < fold_len ==> r@[j] == corr_acc(
                x@,
                y@,
                fold_len as int,
                j,
                (if x@.len() < y@.len() {
                    x@.len()
                } else {
                    y@.len()
                }) as int / fold_len as int,
            ),
{
    let fold = fold_len;
    let nmin = if x.len() < y.len() {
        x.len()
    } else {
        y.len()
    };
    let nfull = nmin / fold;
    proof {
        lemma_fundamental_div_mod(nmin as int, fold as int);
        lemma_mod_division_less_than_divisor(nmin as int, fold as int);
        assert(nfull * fold == fold * nfull) by (nonlinear_arith);
        assert(0 <= nfull * fold <= nmin);
    }
    let mut acc: Vec<Complex64> = Vec::new();
    for j in 0..fold
        invariant
            acc@.len() == j,
            forall|j2: int| 0 <= j2 < j ==> acc@[j2] == cfromu(0),
    {
        acc.push(cx_from_usize(0));
    }
    for i in 0..nfull
        invariant
            fold >= 1,
            nfull * fold <= nmin,
            nfull * fold <= usize::MAX,
            nmin <= x@.len(),
            nmin <= y@.len(),
            acc@.len() == fold,
            forall|j2: int|
                0 <= j2 < fold ==> acc@[j2] == corr_acc(x@, y@, fold as int, j2, i as int),
    {
        proof {
            assert((i + 1) * fold <= nfull * fold) by (nonlinear_arith)
                requires
                    0 <= i < nfull,
                    fold >= 1,
            ;
            assert(i * fold + fold == (i + 1) * fold) by (nonlinear_arith);
        }
        let start = i * fold;
        let x1 = sub_to_vec(x, start, start + fold);
        let y1 = sub_to_vec(y, start, start + fold);
        let fx = fft(x1.as_slice());
        let fy = fft(y1.as_slice());
        let mut j: usize = 0;
        while j < fold
            invariant
                fold >= 1,
                j <= fold,
                i < nfull,
                acc@.len() == fold,
                fx@ == dft_of(x@.subrange(i as int * fold, (i + 1) * fold)),
                fy@ == dft_of(y@.subrange(i as int * fold, (i + 1) * fold)),
                fx@.len() == fold,
                fy@.len() == fold,
                forall|j2: int|
                    j <= j2 < fold ==> acc@[j2] == corr_acc(x@, y@, fold as int, j2, i as int),
                forall|j2: int|
                    0 <= j2 < j ==> acc@[j2] == corr_acc(x@, y@, fold as int, j2, i + 1),
            decreases fold - j,
        {
            let v = cx_add(acc[j], cx_mul(fx[j], cx_conj(fy[j])));
            acc[j] = v;
            j = j + 1;
        }
    }
    acc
}

/// The kernel zero-padded to length `n`.
pub open spec fn padded_kernel(kernel: Seq<Complex64>, n: int) -> Seq<Complex64> {
    Seq::new(n as nat, |i: int| if i < kernel.len() { kernel[i] } else { cfromu(0) })
}

/// Streaming convolution by pointwise multiplication of spectra: the
/// carried `state` (the last `tap - 1` samples) is prepended to `signal`,
/// the product of the extended block's spectrum with the padded kernel's
/// spectrum is scaled by `1/n` and inverse-transformed, and the valid part
/// overwrites `signal`.  `state` keeps the new tail.
pub fn convolve_fft(signal: &mut Vec<Complex64>, kernel: &[Complex64], state: &mut Vec<Complex64>)
    requires
        kernel@.len() >= 1,
        old(state)@.len() == kernel@.len() - 1,
        old(signal)@.len() >= 1,
        old(state)@.len() + old(signal)@.len() <= usize::MAX,
    ensures
        ({
            let ext = old(state)@ + old(signal)@;
            let n = ext.len() as int;
            let tap = kernel@.len() as int;
            let spectrum = Seq::new(
                n as nat,
                |i: int|
                    cdiv_re(
                        cmul(dft_of(ext)[i], dft_of(padded_kernel(kernel@, n))[i]),
                        cfromu(n),
                    ),
            );
            &&& final(state)@ == ext.skip(old(signal)@.len() as int)
            &&& final(signal)@.len() == old(signal)@.len()
            &&& forall|i: int|
                0 <= i < final(signal)@.len() ==> final(signal)@[i] == idft_raw_of(spectrum)[tap
                    - 1 + i]
        }),
{
    let tap = kernel.len();
    let siglen = signal.len();
    let mut ext = copy_within(state, 0, state.len());
    for i in 0..siglen
        invariant
            siglen == signal@.len(),
            ext@.len() == state@.len() + i,
            state@.len() + signal@.len() <= usize::MAX,
            state@ == old(state)@,
            signal@ == old(signal)@,
            forall|j: int| 0 <= j < ext@.len() ==> ext@[j] == (state@ + signal@)[j],
    {
        ext.push(signal[i]);
    }
    let ghost extg = old(state)@ + old(signal)@;
    assert(ext@ =~= extg);
    let n = ext.len();
    let mut k1: Vec<Complex64> = Vec::new();
    for i in 0..n
        invariant
            tap == kernel@.len(),
            k1@.len() == i,
            i <= n,
            forall|j: int|
                0 <= j < i ==> k1@[j] == (if j < tap {
                    kernel@[j]
                } else {
                    cfromu(0)
                }),
    {
        if i < tap {
            k1.push(kernel[i]);
        } else {
            k1.push(cx_from_usize(0));
        }
    }
    assert(k1@ =~= padded_kernel(kernel@, n as int));
    let fe = fft(ext.as_slice());
    let fk = fft(k1.as_slice());
    let norm = cx_from_usize(n);
    let mut prod: Vec<Complex64> = Vec::new();
    let ghost spectrum = Seq::new(
        n as nat,
        |i: int|
            cdiv_re(cmul(dft_of(extg)[i], dft_of(padded_kernel(kernel@, n as int))[i]), cfromu(n as int)),
    );
    for i in 0..n
        invariant
            fe@ == dft_of(extg),
            fk@ == dft_of(padded_kernel(kernel@, n as int)),
            fe@.len() == n,
            fk@.len() == n,
            norm == cfromu(n as int),
            spectrum.len() == n,
            forall|j: int|
                0 <= j < n ==> spectrum[j] == cdiv_re(
                    cmul(dft_of(extg)[j], dft_of(padded_kernel(kernel@, n as int))[j]),
                    cfromu(n as int),
                ),
            prod@.len() == i,
            forall|j: int| 0 <= j < i ==> prod@[j] == spectrum[j],
    {
        prod.push(cx_div_re(cx_mul(fe[i], fk[i]), norm));
    }
    assert(prod@ =~= spectrum);
    let out = ifft0(prod.as_slice());
    let newstate = copy_within(&ext, siglen, n);
    let newsig = copy_within(&out, tap - 1, n);
    *state = newstate;
    *signal = newsig;
    proof {
        assert(state@ =~= extg.skip(old(signal)@.len() as int));
        assert(signal@.len() == n - (tap - 1));
        assert forall|i: int| 0 <= i < signal@.len() implies signal@[i] == idft_raw_of(
            spectrum,
        )[tap - 1 + i] by {
            assert(signal@[i] == out@[tap - 1 + i]);
        }
    }
}

/// Mirror a one-sided spectrum into a two-sided one without a DC row: the
/// result has twice the rows; rows `1 .. r` carry the input's first `r - 1`
/// rows, rows `r + 1 ..` carry their conjugates in reverse order, and rows
/// `0` and `r` are zero samples.
pub fn add_neg_freq_no_dc(input: &Vec<Vec<Complex64>>) -> (r: Vec<Vec<Complex64>>)
    requires
        input@.len() >= 1,
        forall|i: int| 0 <= i < input@.len() ==> (#[trigger] input@[i])@.len() == input@[0]@.len(),
        2 * input@.len() <= usize::MAX,
    ensures
        r@.len() == 2 * input@.len(),
        forall|i: int| 0 <= i < r@.len() ==> (#[trigger] r@[i])@.len() == input@[0]@.len(),
        forall|j: int| 0 <= j < input@[0]@.len() ==> r@[0]@[j] == cfromu(0),
        forall|j: int|
            0 <= j < input@[0]@.len() ==> r@[input@.len() as int]@[j] == cfromu(0),
        forall|i: int, j: int|
            1 <= i < input@.len() && 0 <= j < input@[0]@.len() ==> r@[i]@[j] == input@[i - 1]@[j],
        forall|i: int, j: int|
            input@.len() < i < 2 * input@.len() && 0 <= j < input@[0]@.len() ==> r@[i]@[j]
                == cconj(input@[2 * input@.len() - 1 - i]@[j]),
{
    let rows = input.len();
    let cols = input[0].len();
    let mut r: Vec<Vec<Complex64>> = Vec::new();
    for i in 0..2 * rows
        invariant
            rows == input@.len(),
            rows >= 1,
            2 * rows <= usize::MAX,
            cols == input@[0]@.len(),
            forall|i2: int| 0 <= i2 < rows ==> (#[trigger] input@[i2])@.len() == cols,
            r@.len() == i,
            forall|i2: int| 0 <= i2 < i ==> (#[trigger] r@[i2])@.len() == cols,
            forall|j: int| 0 < i && 0 <= j < cols ==> r@[0]@[j] == cfromu(0),
            forall|j: int| rows < i && 0 <= j < cols ==> r@[rows as int]@[j] == cfromu(0),
            forall|i2: int, j: int|
                1 <= i2 < rows && i2 < i && 0 <= j < cols ==> r@[i2]@[j] == input@[i2 - 1]@[j],
            forall|i2: int, j: int|
                rows < i2 < i && 0 <= j < cols ==> r@[i2]@[j] == cconj(
                    input@[2 * (rows as int) - 1 - i2]@[j],
                ),
    {
        let mut row: Vec<Complex64> = Vec::new();
        if i == 0 || i == rows {
            for j in 0..cols
                invariant
                    row@.len() == j,
                    forall|j2: int| 0 <= j2 < j ==> row@[j2] == cfromu(0),
            {
                row.push(cx_from_usize(0));
            }
        } else if i < rows {
            let src = i - 1;
            for j in 0..cols
                invariant
                    src < rows,
                    rows == input@.len(),
                    cols == input@[0]@.len(),
                    forall|i2: int| 0 <= i2 < rows ==> (#[trigger] input@[i2])@.len() == cols,
                    row@.len() == j,
                    forall|j2: int| 0 <= j2 < j ==> row@[j2] == input@[src as int]@[j2],
            {
                row.push(input[src][j]);
            }
        } else {
            let src = 2 * rows - 1 - i;
            for j in 0..cols
                invariant
                    src < rows,
                    rows == input@.len(),
                    cols == input@[0]@.len(),
                    forall|i2: int| 0 <= i2 < rows ==> (#[trigger] input@[i2])@.len() == cols,
                    row@.len() == j,
                    forall|j2: int| 0 <= j2 < j ==> row@[j2] == cconj(input@[src as int]@[j2]),
            {
                row.push(cx_conj(input[src][j]));
            }
        }
        r.push(row);
    }
    r
}


/// Stepping a cyclic cursor: `(a + 1) % p` wraps to zero exactly when
/// `a % p` was the last slot.
pub(crate) proof fn lemma_cyclic_step(a: int, p: int)
    requires
        p >= 1,
        a >= 0,
    ensures
        (a + 1) % p == if a % p + 1 == p {
            0int
        } else {
            a % p + 1
        },
{
    lemma_fundamental_div_mod(a, p);
    lemma_mod_division_less_than_divisor(a, p);
    if a % p + 1 == p {
        assert(a + 1 == (a / p + 1) * p + 0) by (nonlinear_arith)
            requires
                a == p * (a / p) + a % p,
                a % p + 1 == p,
        ;
        lemma_fundamental_div_mod_converse(a + 1, p, a / p + 1, 0);
    } else {
        assert(a + 1 == (a / p) * p + (a % p + 1)) by (nonlinear_arith)
            requires
                a == p * (a / p) + a % p,
        ;
        lemma_fundamental_div_mod_converse(a + 1, p, a / p, a % p + 1);
    }
}

/// Two slices read as one: the `front` slice followed by the `back` slice.
pub struct ConcatedSlice<'a, 'b, T> {
    /// The part that comes first.
    pub front: &'a [T],
    /// The part appended after it.
    pub back: &'b [T],
}

impl<'a, 'b, T> ConcatedSlice<'a, 'b, T> {
    /// The sequence the pair stands for.
    pub open spec fn view_spec(self) -> Seq<T> {
        self.front@ + self.back@
    }

    /// Pair two slices without copying either.
    pub fn new(a: &'a [T], b: &'b [T]) -> (r: ConcatedSlice<'a, 'b, T>)
        ensures
            r.view_spec() == a@ + b@,
    {
        ConcatedSlice { front: a, back: b }
    }

    /// Total number of elements in both parts.
    pub fn len(&self) -> (r: usize)
        requires
            self.front@.len() + self.back@.len() <= usize::MAX,
        ensures
            r == self.view_spec().len(),
    {
        self.front.len() + self.back.len()
    }

    /// Whether both parts are empty.
    pub fn is_empty(&self) -> (r: bool)
        ensures
            r <==> self.view_spec().len() == 0,
    {
        self.front.is_empty() && self.back.is_empty()
    }

    /// The element at `idx` of the concatenation.
    pub fn index(&self, idx: usize) -> (r: &T)
        requires
            idx < self.view_spec().len(),
        ensures
            *r == self.view_spec()[idx as int],
    {
        let b = self.front.len();
        if idx < b {
            &self.front[idx]
        } else {
            &self.back[idx - b]
        }
    }
}

} // verus!
