use num::complex::Complex64;
use rsdsp::cspfb;
use rsdsp::down_sample::{DirectDownSampler, DownSampler};
use rsdsp::oscillator::{CFreqScanner, COscillator, HalfChShifter, ROscillator};
use rsdsp::utils::{fft, fftshift, fftshift2, ifft, ConcatedSlice};

fn c(re: f64, im: f64) -> Complex64 {
    Complex64::new(re, im)
}

fn close(a: Complex64, b: Complex64, tol: f64) -> bool {
    (a - b).norm() <= tol
}

#[test]
fn fft_of_impulse_is_flat() {
    let x = vec![c(1.0, 0.0), c(0.0, 0.0), c(0.0, 0.0), c(0.0, 0.0)];
    let y = fft(&x);
    assert_eq!(y.len(), 4);
    for v in &y {
        assert!(close(*v, c(1.0, 0.0), 1e-12));
    }
}

#[test]
fn fft_of_shifted_impulse_gives_twiddles() {
    let x = vec![c(0.0, 0.0), c(1.0, 0.0), c(0.0, 0.0), c(0.0, 0.0)];
    let y = fft(&x);
    assert!(close(y[0], c(1.0, 0.0), 1e-12));
    assert!(close(y[1], c(0.0, -1.0), 1e-12));
    assert!(close(y[2], c(-1.0, 0.0), 1e-12));
    assert!(close(y[3], c(0.0, 1.0), 1e-12));
}

#[test]
fn ifft_undoes_fft() {
    let x: Vec<Complex64> = (0..8)
        .map(|i| c(0.3 * i as f64 - 1.0, 0.1 * (i * i) as f64))
        .collect();
    let y = ifft(&fft(&x));
    for (a, b) in x.iter().zip(y.iter()) {
        assert!(close(*a, *b, 1e-12));
    }
}

#[test]
fn fftshift_reorders_halves() {
    let x = [0i32, 1, 2, 3];
    assert_eq!(fftshift(&x), vec![2, 3, 0, 1]);
    let y = [0i32, 1, 2, 3, 4];
    assert_eq!(fftshift(&y), vec![3, 4, 0, 1, 2]);
}

#[test]
fn fftshift_twice_is_identity_for_even_length() {
    let x = [10i32, 20, 30, 40, 50, 60];
    assert_eq!(fftshift(&fftshift(&x)), x.to_vec());
}

#[test]
fn fftshift2_swaps_row_halves() {
    let m = vec![vec![1i32, 2], vec![3, 4], vec![5, 6], vec![7, 8]];
    let s = fftshift2(&m);
    assert_eq!(s, vec![vec![5, 6], vec![7, 8], vec![1, 2], vec![3, 4]]);
    assert_eq!(fftshift2(&s), m);
}

#[test]
fn concated_slice_reads_both_parts() {
    let a = [1i32, 2, 3];
    let b = [4i32, 5];
    let cs = ConcatedSlice::new(&a, &b);
    assert_eq!(cs.len(), 5);
    assert!(!cs.is_empty());
    for i in 0..5 {
        assert_eq!(*cs.index(i), (i + 1) as i32);
    }
    let e: [i32; 0] = [];
    let cs2 = ConcatedSlice::new(&e, &e);
    assert!(cs2.is_empty());
}

#[test]
fn coscillator_walks_the_unit_circle() {
    let th = 0.3f64;
    let mut osc = COscillator::new(c(1.0, 0.0), Complex64::from_polar(1.0, th));
    for n in 0..50 {
        let want = Complex64::from_polar(1.0, th * n as f64);
        assert!(close(osc.get(), want, 1e-12));
    }
}

#[test]
fn roscillator_yields_cosines() {
    let th = 0.7f64;
    let mut osc = ROscillator::new(c(1.0, 0.0), Complex64::from_polar(1.0, th));
    for n in 0..20 {
        let y = osc.get();
        assert!((y.re - (th * n as f64).cos()).abs() < 1e-12);
        assert_eq!(y.im, 0.0);
    }
}

#[test]
fn cfreqscanner_chirps() {
    let th0 = 0.1f64;
    let dth = 0.01f64;
    let mut osc = CFreqScanner::new(
        c(1.0, 0.0),
        Complex64::from_polar(1.0, th0),
        Complex64::from_polar(1.0, dth),
    );
    // After n samples the accumulated phase is n*th0 + dth*n*(n-1)/2.
    for n in 0..20u32 {
        let nn = n as f64;
        let want = Complex64::from_polar(1.0, nn * th0 + dth * nn * (nn - 1.0) / 2.0);
        assert!(close(osc.get(), want, 1e-10));
    }
}

#[test]
fn half_ch_shifter_tabulates_half_bin_phasors() {
    let nch = 8usize;
    let mut down = HalfChShifter::new(nch, false);
    let mut up = HalfChShifter::new(nch, true);
    let step = std::f64::consts::PI / nch as f64;
    for n in 0..(4 * nch) {
        let phase = step * (n % (2 * nch)) as f64;
        assert!(close(down.get(), Complex64::from_polar(1.0, -phase), 1e-9));
        assert!(close(up.get(), Complex64::from_polar(1.0, phase), 1e-9));
    }
}

#[test]
fn downsampler_filters_and_decimates() {
    // Coefficients [3, 2, 1] (given reversed as [1, 2, 3] is reversed by the
    // constructor): output j = sum_k ext[2 j + k] * coeff_rev[k].
    let coeffs = vec![c(3.0, 0.0), c(2.0, 0.0), c(1.0, 0.0)];
    let mut ds = DownSampler::from_coeffs(&coeffs, 2);
    let input: Vec<Complex64> = (1..=6).map(|i| c(i as f64, 0.0)).collect();
    // ext = [0, 0, 1, 2, 3, 4, 5, 6]; windows at 0, 2, 4:
    // [0,0,1]*[1,2,3] = 3; [1,2,3]*[1,2,3] = 14; [3,4,5]*[1,2,3] = 26.
    let out = ds.downsample(&input);
    assert_eq!(out.len(), 3);
    assert!(close(out[0], c(3.0, 0.0), 1e-12));
    assert!(close(out[1], c(14.0, 0.0), 1e-12));
    assert!(close(out[2], c(26.0, 0.0), 1e-12));
}

#[test]
fn downsampler_new_normalises_to_unit_sum() {
    let proto = vec![c(1.0, 0.0), c(2.0, 0.0), c(5.0, 0.0)];
    let ds = DownSampler::new(&proto, 2);
    let s: f64 = ds.coeff_rev.iter().map(|x| x.re).sum();
    assert!((s - 1.0).abs() < 1e-12);
    // Reversed order: last prototype coefficient first.
    assert!((ds.coeff_rev[0].re - 5.0 / 8.0).abs() < 1e-12);
}

#[test]
fn direct_downsampler_keeps_every_third() {
    let mut ds = DirectDownSampler::new(3);
    let input: Vec<Complex64> = (0..10).map(|i| c(i as f64, 0.0)).collect();
    let out = ds.down_sample(&input);
    let re: Vec<f64> = out.iter().map(|x| x.re).collect();
    assert_eq!(re, vec![0.0, 3.0, 6.0, 9.0]);
    // Sample 9 stays buffered because only three whole strides were consumed.
    let out2 = ds.down_sample(&[c(10.0, 0.0), c(11.0, 0.0)]);
    let re2: Vec<f64> = out2.iter().map(|x| x.re).collect();
    assert_eq!(re2, vec![9.0]);
}

#[test]
fn insert_zeros_spreads_samples() {
    let out = rsdsp::up_sample::insert_zeros(&[c(1.0, 0.0), c(2.0, 0.0)], 3);
    let re: Vec<f64> = out.iter().map(|x| x.re).collect();
    assert_eq!(re, vec![1.0, 0.0, 0.0, 2.0, 0.0, 0.0]);
}

#[test]
fn upsampler_applies_phases_in_order() {
    // Prototype [1, 2] at ratio 2: phase 0 applies coefficient 2, phase 1
    // applies coefficient 1.
    let mut up = rsdsp::up_sample::UpSampler::from_coeffs(&[c(1.0, 0.0), c(2.0, 0.0)], 2);
    let out = up.up_sample(&[c(3.0, 0.0), c(5.0, 0.0)]);
    let re: Vec<f64> = out.iter().map(|x| x.re).collect();
    assert_eq!(re, vec![6.0, 3.0, 10.0, 5.0]);
}

#[test]
fn upsampler_new_normalises_by_the_ratio() {
    let up = rsdsp::up_sample::UpSampler::new(&[c(1.0, 0.0), c(3.0, 0.0)], 2);
    // The sum is 4; the norm is 4 / 2 = 2.
    assert!((up.coeffs[0][0].re - 1.5).abs() < 1e-12);
    assert!((up.coeffs[1][0].re - 0.5).abs() < 1e-12);
}

#[test]
fn corr_of_aligned_impulse_trains() {
    let x = vec![c(1.0, 0.0); 1]
        .into_iter()
        .chain(std::iter::repeat(c(0.0, 0.0)).take(3))
        .chain(std::iter::once(c(1.0, 0.0)))
        .chain(std::iter::repeat(c(0.0, 0.0)).take(3))
        .collect::<Vec<_>>();
    let out = rsdsp::utils::corr(&x, &x, 4);
    assert_eq!(out.len(), 4);
    for v in &out {
        assert!(close(*v, c(2.0, 0.0), 1e-12));
    }
}

#[test]
fn convolve_fft_with_unit_kernel_is_identity() {
    let mut signal = vec![c(1.0, 2.0), c(-3.0, 0.5), c(0.25, -1.0), c(4.0, 4.0)];
    let want = signal.clone();
    let mut state: Vec<Complex64> = Vec::new();
    rsdsp::utils::convolve_fft(&mut signal, &[c(1.0, 0.0)], &mut state);
    assert_eq!(signal.len(), want.len());
    for (a, b) in signal.iter().zip(want.iter()) {
        assert!(close(*a, *b, 1e-12));
    }
    assert!(state.is_empty());
}

#[test]
fn convolve_fft_with_delayed_kernel_shifts_the_stream() {
    let mut signal = vec![c(1.0, 0.0), c(2.0, 0.0), c(3.0, 0.0)];
    let mut state = vec![c(9.0, 0.0)];
    rsdsp::utils::convolve_fft(&mut signal, &[c(0.0, 0.0), c(1.0, 0.0)], &mut state);
    assert!(close(signal[0], c(9.0, 0.0), 1e-12));
    assert!(close(signal[1], c(1.0, 0.0), 1e-12));
    assert!(close(signal[2], c(2.0, 0.0), 1e-12));
    assert_eq!(state.len(), 1);
    assert!(close(state[0], c(3.0, 0.0), 1e-12));
}

#[test]
fn add_neg_freq_no_dc_mirrors_and_conjugates() {
    let input = vec![vec![c(1.0, 2.0)], vec![c(3.0, -4.0)]];
    let out = rsdsp::utils::add_neg_freq_no_dc(&input);
    assert_eq!(out.len(), 4);
    assert!(close(out[0][0], c(0.0, 0.0), 0.0));
    assert!(close(out[1][0], c(1.0, 2.0), 0.0));
    assert!(close(out[2][0], c(0.0, 0.0), 0.0));
    assert!(close(out[3][0], c(1.0, -2.0), 0.0));
}

#[test]
fn cspfb_buffers_partial_stripes() {
    // A coarse sanity check on the buffering layer itself.
    let coeff: Vec<Complex64> = (0..8).map(|i| c(0.1 * (i + 1) as f64, 0.0)).collect();
    let mut an = cspfb::Analyzer::new(4, &coeff);
    assert_eq!(an.nch(), 4);
    assert_eq!(an.predict_output_length(6), 1);
    let out = an.analyze(&[c(1.0, 0.0); 6]);
    assert_eq!(out.len(), 4);
    assert_eq!(out[0].len(), 1);
    // Two leftover samples remain, so two more samples give one more column.
    assert_eq!(an.predict_output_length(2), 1);
}
