//! A streaming two-stage polyphase filter bank (PFB) channelizer for complex
//! baseband signals.
//!
//! Stage one is an oversampled PFB ([`ospfb`]) that splits a time series into
//! `N` half-overlapping channels at twice the critical rate.  Stage two
//! ([`csp_pfb`]) picks a subset of those coarse channels and splits each one
//! into fine sub-channels with a critically sampled PFB ([`cspfb`]), after a
//! half-channel frequency shift.  [`ampl_resp`] drives the cascade with
//! complex tones to measure its amplitude response.
//!
//! Samples are `num::complex::Complex64` values.  The crate treats them as
//! opaque: every arithmetic operation on samples goes through a small trusted
//! layer ([`cpx`], and the transforms in [`utils`]) whose results are named,
//! uninterpreted functions of the operands.  All contracts pin down which
//! operations are applied to which samples in which order, which is exactly
//! the reproducibility the filter bank promises; nothing is assumed about
//! floating-point identities.

pub mod ampl_resp;
pub mod batch_filter;
pub mod cpx;
pub mod csp_pfb;
pub mod cspfb;
pub mod down_sample;
pub mod oscillator;
pub mod ospfb;
pub mod up_sample;
pub mod utils;
