//! The opaque model of complex double-precision samples.
//!
//! A sample is a `num::complex::Complex64`.  Verus never looks inside one:
//! each arithmetic operation the filter bank needs is wrapped in a trusted
//! function whose result is a named, uninterpreted function of the operands
//! alone.  Two model expressions are equal exactly when the same operations
//! were applied to the same samples in the same order, which is the
//! reproducibility that the bank's streaming contracts are about.
use vstd::prelude::*;

verus! {

use num::complex::Complex64;

#[verifier::external_type_specification]
#[verifier::external_body]
#[verifier::reject_recursive_types(T)]
pub struct ExComplex<T>(num::complex::Complex<T>);

/// The sum `a + b` as `num_complex`'s `Add` impl computes it.
pub uninterp spec fn cadd(a: Complex64, b: Complex64) -> Complex64;

/// The product `a * b` as `num_complex`'s `Mul` impl computes it.
pub uninterp spec fn cmul(a: Complex64, b: Complex64) -> Complex64;

/// `a` scaled by the real part of `c`, as `num_complex`'s `Mul<f64>` impl
/// computes it.  Real filter coefficients are carried as samples with the
/// coefficient in the real part; this is the model of applying one.
pub uninterp spec fn cscale(a: Complex64, c: Complex64) -> Complex64;

/// `a` divided by the real part of `c`, as `num_complex`'s `Div<f64>` impl
/// computes it.
pub uninterp spec fn cdiv_re(a: Complex64, c: Complex64) -> Complex64;

/// The sample with real part `n` and zero imaginary part, as
/// `num_traits::FromPrimitive::from_usize` computes it.  `cfromu(0)` is the
/// zero sample that delay lines start from.
pub uninterp spec fn cfromu(n: int) -> Complex64;

/// `w` raised to the power `n`, as `num_complex`'s `powu` computes it.
pub uninterp spec fn cpow(w: Complex64, n: int) -> Complex64;

/// The squared norm of `a` carried in the real part of a sample: the value
/// of `num_complex`'s `norm_sqr` wrapped back into a `Complex64`.
pub uninterp spec fn cnormsq(a: Complex64) -> Complex64;

/// The real part of `a` carried as a sample with zero imaginary part.
pub uninterp spec fn cre(a: Complex64) -> Complex64;

/// The complex conjugate of `a`, as `num_complex`'s `conj` computes it.
pub uninterp spec fn cconj(a: Complex64) -> Complex64;

/// Relies on `num_complex`'s `Add<Complex<f64>>`: componentwise IEEE
/// addition, a function of the two operands alone.
#[verifier::external_body]
pub(crate) fn cx_add(a: Complex64, b: Complex64) -> (r: Complex64)
    ensures
        r == cadd(a, b),
{
    a + b
}

/// Relies on `num_complex`'s `Mul<Complex<f64>>`: the usual complex product,
/// a function of the two operands alone.
#[verifier::external_body]
pub(crate) fn cx_mul(a: Complex64, b: Complex64) -> (r: Complex64)
    ensures
        r == cmul(a, b),
{
    a * b
}

/// Relies on `num_complex`'s `Mul<f64>`: both components of `a` are
/// multiplied by the scalar `c.re`, a function of the operands alone.
#[verifier::external_body]
pub(crate) fn cx_scale(a: Complex64, c: Complex64) -> (r: Complex64)
    ensures
        r == cscale(a, c),
{
    a * c.re
}

/// Relies on `num_complex`'s `Div<f64>`: both components of `a` are divided
/// by the scalar `c.re`, a function of the operands alone.
#[verifier::external_body]
pub(crate) fn cx_div_re(a: Complex64, c: Complex64) -> (r: Complex64)
    ensures
        r == cdiv_re(a, c),
{
    a / c.re
}

/// Relies on `num_traits::FromPrimitive::from_usize` for `Complex<f64>`,
/// which builds the sample `n + 0i` and never fails for a `usize`.
#[verifier::external_body]
pub(crate) fn cx_from_usize(n: usize) -> (r: Complex64)
    ensures
        r == cfromu(n as int),
{
    <Complex64 as num::traits::FromPrimitive>::from_usize(n).unwrap()
}

/// Relies on `num_complex`'s `powu`: `w` to the `n`-th power by repeated
/// squaring, a function of the operands alone.
#[verifier::external_body]
pub(crate) fn cx_powu(w: Complex64, n: u32) -> (r: Complex64)
    ensures
        r == cpow(w, n as int),
{
    w.powu(n)
}

/// Relies on `num_complex`'s `norm_sqr` (`re*re + im*im`), wrapped back into
/// a sample through `From<f64>`; a function of the operand alone.
#[verifier::external_body]
pub(crate) fn cx_norm_sqr(a: Complex64) -> (r: Complex64)
    ensures
        r == cnormsq(a),
{
    Complex64::from(a.norm_sqr())
}

/// Relies on `From<f64>` for `Complex<f64>`: the real part of `a` carried as
/// a sample with zero imaginary part.
#[verifier::external_body]
pub(crate) fn cx_re(a: Complex64) -> (r: Complex64)
    ensures
        r == cre(a),
{
    Complex64::from(a.re)
}

/// Relies on `num_complex`'s `conj`: the imaginary part is negated, a
/// function of the operand alone.
#[verifier::external_body]
pub(crate) fn cx_conj(a: Complex64) -> (r: Complex64)
    ensures
        r == cconj(a),
{
    a.conj()
}

} // verus!
